//! The faults that end a run, and how each is named and described.

use vstd::prelude::*;
use vstd::string::StringExecFns;

verus! {

/// The family a fault belongs to.
#[derive(Clone, Copy, Debug, PartialEq, Eq)]
pub enum ErrorKind {
    /// The program text is malformed.
    SyntaxError,
    /// The data pointer would leave the tape.
    OutOfBoundsError,
    /// A cell would hold more than 255.
    OverflowError,
    /// A cell would hold less than 0.
    SubZeroError,
    /// A loop exit was reached while no loop was open.
    InternalError,
}

/// A fault, with the position it was found at where it has one.
///
/// Positions are zero-based character offsets. For the four faults of the program text they
/// point into the source as it was written; for the faults of a running program they point into
/// the instruction stream.
#[derive(Clone, Copy, Debug, PartialEq, Eq)]
pub enum BfError {
    /// A `/*` is left in the text once comments are removed.
    UnterminatedComment { position: usize },
    /// A `*/` is left in the text once comments are removed.
    StrayCommentClose { position: usize },
    /// There are more `[` than `]`.
    UnterminatedLoop { position: usize },
    /// There are more `]` than `[`.
    UnmatchedLoopExit { position: usize },
    /// The instruction stream holds a character that is no instruction.
    UnrecognisedCharacter { position: usize, character: char },
    /// `>` with the pointer on the last cell.
    RightBound,
    /// `<` with the pointer on the first cell.
    LeftBound,
    /// `+` on a cell that holds 255.
    CellOverflow,
    /// `,` was given a character whose code is above 255.
    InputOverflow { position: usize },
    /// `-` on a cell that holds 0.
    CellUnderflow,
    /// `]` with an empty loop stack.
    EmptyLoopStack,
}

impl ErrorKind {
    /// The kind's name as shown to the user.
    pub open spec fn spec_name(self) -> Seq<char> {
        match self {
            ErrorKind::SyntaxError => "SyntaxError"@,
            ErrorKind::OutOfBoundsError => "OutOfBoundsError"@,
            ErrorKind::OverflowError => "OverflowError"@,
            ErrorKind::SubZeroError => "SubZeroError"@,
            ErrorKind::InternalError => "InternalError"@,
        }
    }

    /// The kind's name as shown to the user.
    pub fn name(&self) -> (r: &'static str)
        ensures
            r@ == self.spec_name(),
    {
        match self {
            ErrorKind::SyntaxError => "SyntaxError",
            ErrorKind::OutOfBoundsError => "OutOfBoundsError",
            ErrorKind::OverflowError => "OverflowError",
            ErrorKind::SubZeroError => "SubZeroError",
            ErrorKind::InternalError => "InternalError",
        }
    }
}

impl BfError {
    /// The family of this fault.
    pub open spec fn spec_kind(self) -> ErrorKind {
        match self {
            BfError::UnterminatedComment { .. } => ErrorKind::SyntaxError,
            BfError::StrayCommentClose { .. } => ErrorKind::SyntaxError,
            BfError::UnterminatedLoop { .. } => ErrorKind::SyntaxError,
            BfError::UnmatchedLoopExit { .. } => ErrorKind::SyntaxError,
            BfError::UnrecognisedCharacter { .. } => ErrorKind::SyntaxError,
            BfError::RightBound => ErrorKind::OutOfBoundsError,
            BfError::LeftBound => ErrorKind::OutOfBoundsError,
            BfError::CellOverflow => ErrorKind::OverflowError,
            BfError::InputOverflow { .. } => ErrorKind::OverflowError,
            BfError::CellUnderflow => ErrorKind::SubZeroError,
            BfError::EmptyLoopStack => ErrorKind::InternalError,
        }
    }

    /// Where the fault was found, for the faults that carry a position.
    pub open spec fn spec_position(self) -> Option<usize> {
        match self {
            BfError::UnterminatedComment { position } => Some(position),
            BfError::StrayCommentClose { position } => Some(position),
            BfError::UnterminatedLoop { position } => Some(position),
            BfError::UnmatchedLoopExit { position } => Some(position),
            BfError::UnrecognisedCharacter { position, .. } => Some(position),
            BfError::InputOverflow { position } => Some(position),
            _ => None,
        }
    }

    /// The sentence that describes this fault.
    pub open spec fn spec_message(self) -> Seq<char> {
        match self {
            BfError::UnterminatedComment { .. } =>
                "cannot import code with unterminated multi-line comments. (\"/*\" was found in the code.)"@,
            BfError::StrayCommentClose { .. } =>
                "cannot import code with stray comment characters. (\"*/\" was found in the code.)"@,
            BfError::UnterminatedLoop { .. } =>
                "cannot import code with unterminated while loops. (Unmatched \"[\" was found in the code.)"@,
            BfError::UnmatchedLoopExit { .. } =>
                "cannot import code with trailing while loop characters. (Unmatched \"]\" was found in the code.)"@,
            BfError::UnrecognisedCharacter { character, .. } =>
                "unrecognised character '"@.push(character) + "' found in code."@,
            BfError::RightBound => "cannot move pointer outside of rightward bounds."@,
            BfError::LeftBound => "cannot move pointer outside of leftward bounds."@,
            BfError::CellOverflow => "cannot increment memory block past integer limit of 255."@,
            BfError::InputOverflow { .. } => "inputted character exceeds value of 255."@,
            BfError::CellUnderflow => "cannot decrement memory block below 0."@,
            BfError::EmptyLoopStack => "cannot leave a while loop that was never entered."@,
        }
    }

    /// The family of this fault.
    pub fn kind(&self) -> (r: ErrorKind)
        ensures
            r == self.spec_kind(),
    {
        match self {
            BfError::UnterminatedComment { .. } => ErrorKind::SyntaxError,
            BfError::StrayCommentClose { .. } => ErrorKind::SyntaxError,
            BfError::UnterminatedLoop { .. } => ErrorKind::SyntaxError,
            BfError::UnmatchedLoopExit { .. } => ErrorKind::SyntaxError,
            BfError::UnrecognisedCharacter { .. } => ErrorKind::SyntaxError,
            BfError::RightBound => ErrorKind::OutOfBoundsError,
            BfError::LeftBound => ErrorKind::OutOfBoundsError,
            BfError::CellOverflow => ErrorKind::OverflowError,
            BfError::InputOverflow { .. } => ErrorKind::OverflowError,
            BfError::CellUnderflow => ErrorKind::SubZeroError,
            BfError::EmptyLoopStack => ErrorKind::InternalError,
        }
    }

    /// Where the fault was found, for the faults that carry a position.
    pub fn position(&self) -> (r: Option<usize>)
        ensures
            r == self.spec_position(),
    {
        match self {
            BfError::UnterminatedComment { position } => Some(*position),
            BfError::StrayCommentClose { position } => Some(*position),
            BfError::UnterminatedLoop { position } => Some(*position),
            BfError::UnmatchedLoopExit { position } => Some(*position),
            BfError::UnrecognisedCharacter { position, .. } => Some(*position),
            BfError::InputOverflow { position } => Some(*position),
            _ => None,
        }
    }

    /// The name of the fault's family, as shown to the user.
    pub fn name(&self) -> (r: &'static str)
        ensures
            r@ == self.spec_kind().spec_name(),
    {
        self.kind().name()
    }

    /// The sentence that describes this fault.
    pub fn message(&self) -> (r: String)
        ensures
            r@ == self.spec_message(),
    {
        match self {
            BfError::UnterminatedComment { .. } => String::from_str(
                "cannot import code with unterminated multi-line comments. (\"/*\" was found in the code.)",
            ),
            BfError::StrayCommentClose { .. } => String::from_str(
                "cannot import code with stray comment characters. (\"*/\" was found in the code.)",
            ),
            BfError::UnterminatedLoop { .. } => String::from_str(
                "cannot import code with unterminated while loops. (Unmatched \"[\" was found in the code.)",
            ),
            BfError::UnmatchedLoopExit { .. } => String::from_str(
                "cannot import code with trailing while loop characters. (Unmatched \"]\" was found in the code.)",
            ),
            BfError::UnrecognisedCharacter { character, .. } => {
                let mut text = String::from_str("unrecognised character '");
                crate::text::push_char(&mut text, *character);
                text.append("' found in code.");
                text
            },
            BfError::RightBound => String::from_str(
                "cannot move pointer outside of rightward bounds.",
            ),
            BfError::LeftBound => String::from_str(
                "cannot move pointer outside of leftward bounds.",
            ),
            BfError::CellOverflow => String::from_str(
                "cannot increment memory block past integer limit of 255.",
            ),
            BfError::InputOverflow { .. } => String::from_str(
                "inputted character exceeds value of 255.",
            ),
            BfError::CellUnderflow => String::from_str("cannot decrement memory block below 0."),
            BfError::EmptyLoopStack => String::from_str(
                "cannot leave a while loop that was never entered.",
            ),
        }
    }
}

} // verus!
