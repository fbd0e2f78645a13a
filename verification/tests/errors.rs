use brainfuck::error::{BfError, ErrorKind};

#[test]
fn kinds_have_their_names() {
    assert_eq!(ErrorKind::SyntaxError.name(), "SyntaxError");
    assert_eq!(ErrorKind::OutOfBoundsError.name(), "OutOfBoundsError");
    assert_eq!(ErrorKind::OverflowError.name(), "OverflowError");
    assert_eq!(ErrorKind::SubZeroError.name(), "SubZeroError");
    assert_eq!(ErrorKind::InternalError.name(), "InternalError");
}

#[test]
fn faults_of_the_text_are_syntax_errors() {
    let faults = [
        BfError::UnterminatedComment { position: 1 },
        BfError::StrayCommentClose { position: 2 },
        BfError::UnterminatedLoop { position: 3 },
        BfError::UnmatchedLoopExit { position: 4 },
        BfError::UnrecognisedCharacter { position: 5, character: 'x' },
    ];
    for (index, fault) in faults.iter().enumerate() {
        assert_eq!(fault.kind(), ErrorKind::SyntaxError);
        assert_eq!(fault.name(), "SyntaxError");
        assert_eq!(fault.position(), Some(index + 1));
    }
}

#[test]
fn pointer_faults_are_out_of_bounds_errors() {
    assert_eq!(BfError::LeftBound.kind(), ErrorKind::OutOfBoundsError);
    assert_eq!(BfError::RightBound.kind(), ErrorKind::OutOfBoundsError);
    assert_eq!(BfError::LeftBound.name(), "OutOfBoundsError");
    assert_eq!(BfError::LeftBound.position(), None);
    assert_eq!(BfError::RightBound.position(), None);
}

#[test]
fn cell_faults_have_their_kinds() {
    assert_eq!(BfError::CellOverflow.kind(), ErrorKind::OverflowError);
    assert_eq!(BfError::InputOverflow { position: 7 }.kind(), ErrorKind::OverflowError);
    assert_eq!(BfError::CellUnderflow.kind(), ErrorKind::SubZeroError);
    assert_eq!(BfError::CellOverflow.position(), None);
    assert_eq!(BfError::InputOverflow { position: 7 }.position(), Some(7));
    assert_eq!(BfError::CellUnderflow.position(), None);
    assert_eq!(BfError::CellUnderflow.name(), "SubZeroError");
}

#[test]
fn empty_loop_stack_is_an_internal_error() {
    assert_eq!(BfError::EmptyLoopStack.kind(), ErrorKind::InternalError);
    assert_eq!(BfError::EmptyLoopStack.name(), "InternalError");
    assert_eq!(BfError::EmptyLoopStack.position(), None);
}

#[test]
fn faults_have_their_messages() {
    assert_eq!(
        BfError::UnterminatedComment { position: 0 }.message(),
        "cannot import code with unterminated multi-line comments. (\"/*\" was found in the code.)"
    );
    assert_eq!(
        BfError::StrayCommentClose { position: 0 }.message(),
        "cannot import code with stray comment characters. (\"*/\" was found in the code.)"
    );
    assert_eq!(
        BfError::UnterminatedLoop { position: 0 }.message(),
        "cannot import code with unterminated while loops. (Unmatched \"[\" was found in the code.)"
    );
    assert_eq!(
        BfError::UnmatchedLoopExit { position: 0 }.message(),
        "cannot import code with trailing while loop characters. (Unmatched \"]\" was found in the code.)"
    );
    assert_eq!(
        BfError::RightBound.message(),
        "cannot move pointer outside of rightward bounds."
    );
    assert_eq!(
        BfError::LeftBound.message(),
        "cannot move pointer outside of leftward bounds."
    );
    assert_eq!(
        BfError::CellOverflow.message(),
        "cannot increment memory block past integer limit of 255."
    );
    assert_eq!(
        BfError::InputOverflow { position: 0 }.message(),
        "inputted character exceeds value of 255."
    );
    assert_eq!(
        BfError::CellUnderflow.message(),
        "cannot decrement memory block below 0."
    );
    assert_eq!(
        BfError::EmptyLoopStack.message(),
        "cannot leave a while loop that was never entered."
    );
}

#[test]
fn message_names_the_unrecognised_character() {
    assert_eq!(
        BfError::UnrecognisedCharacter { position: 3, character: 'q' }.message(),
        "unrecognised character 'q' found in code."
    );
    assert_eq!(
        BfError::UnrecognisedCharacter { position: 3, character: '\u{e9}' }.message(),
        "unrecognised character '\u{e9}' found in code."
    );
}
