//! The execution engine: a tape of byte cells, a data pointer, and a stack of open loops,
//! driven one instruction at a time.

use crate::error::BfError;
use crate::text::chars_of;
use vstd::prelude::*;

verus! {

/// Number of cells on the memory tape.
pub const TAPE_LENGTH: usize = 30_000;

/// What the surroundings of the machine have to do after a step.
#[derive(Clone, Copy, Debug, PartialEq, Eq)]
pub enum Action {
    /// Nothing; the next step can follow.
    Continue,
    /// Show this character; the next step can follow. The character is the one whose code
    /// point is the value of the active cell, so one of U+0000 to U+00FF.
    Write(char),
    /// Fetch one character of input and hand it to the next step.
    Read,
    /// Nothing more: the instruction pointer is past the last instruction.
    Halt,
}

/// How many loops are open once the first `upto` characters of `code` are behind: the number
/// of `[` among them less the number of `]`.
pub open spec fn nesting_depth(code: Seq<char>, upto: int) -> int
    decreases upto,
{
    if upto <= 0 {
        0
    } else {
        nesting_depth(code, upto - 1) + if code[upto - 1] == '[' {
            1int
        } else if code[upto - 1] == ']' {
            -1int
        } else {
            0int
        }
    }
}

/// The cells among the first `upto` of `tape` that hold something: each with its position, in
/// ascending order of position.
pub open spec fn occupied_among(tape: Seq<u8>, upto: int) -> Seq<(usize, u8)> {
    Seq::new(upto as nat, |i: int| (i as usize, tape[i])).filter(|cell: (usize, u8)| cell.1 > 0)
}

/// The state of a running program, as mathematics sees it.
pub struct MachineState {
    /// The instruction stream.
    pub code: Seq<char>,
    /// Index of the instruction that runs next.
    pub ip: int,
    /// The memory cells.
    pub tape: Seq<u8>,
    /// Index of the active cell.
    pub pointer: int,
    /// The largest value `pointer` has had.
    pub furthest: int,
    /// Positions of the `[` of the loops that are open, innermost last.
    pub loops: Seq<int>,
    /// Whether a `.` has run.
    pub produced_output: bool,
}

impl MachineState {
    /// The state in which a program starts: all cells zero, pointer on the first cell, no loop
    /// open, nothing shown yet.
    pub open spec fn initial(code: Seq<char>) -> MachineState {
        MachineState {
            code,
            ip: 0,
            tape: Seq::new(TAPE_LENGTH as nat, |i: int| 0u8),
            pointer: 0,
            furthest: 0,
            loops: Seq::empty(),
            produced_output: false,
        }
    }

    /// What holds of every state that a program can reach.
    ///
    /// The pointer is on the tape and never beyond the furthest cell visited, and no cell beyond
    /// that one was ever written. As many loops are open as the instructions behind the
    /// instruction pointer have entered and not left, and the stack holds the positions of
    /// their `[`, in the order in which they were entered.
    pub open spec fn wf(self) -> bool {
        &&& self.tape.len() == TAPE_LENGTH
        &&& 0 <= self.pointer <= self.furthest < TAPE_LENGTH
        &&& forall|i: int| self.furthest < i < TAPE_LENGTH ==> self.tape[i] == 0
        &&& 0 <= self.ip <= self.code.len()
        &&& self.loops.len() == nesting_depth(self.code, self.ip)
        &&& forall|k: int|
            0 <= k < self.loops.len() ==> {
                &&& 0 <= #[trigger] self.loops[k] < self.ip
                &&& self.code[self.loops[k]] == '['
                &&& nesting_depth(self.code, self.loops[k]) == k
            }
        &&& forall|j: int, k: int|
            0 <= j < k < self.loops.len() ==> self.loops[j] < self.loops[k]
    }

    /// Whether the instruction pointer is past the last instruction.
    pub open spec fn finished(self) -> bool {
        self.ip >= self.code.len()
    }

    /// The instruction that runs next.
    pub open spec fn instruction(self) -> char
        recommends
            !self.finished(),
    {
        self.code[self.ip]
    }

    /// Whether the instruction that runs next reads input.
    pub open spec fn awaits_input(self) -> bool {
        !self.finished() && self.instruction() == ','
    }

    /// The value of the active cell.
    pub open spec fn cell(self) -> u8 {
        self.tape[self.pointer]
    }

    /// This state with the instruction pointer moved to `ip`.
    pub open spec fn at(self, ip: int) -> MachineState {
        MachineState { ip, ..self }
    }

    /// This state with `value` in the active cell.
    pub open spec fn with_cell(self, value: u8) -> MachineState {
        MachineState { tape: self.tape.update(self.pointer, value), ..self }
    }

    /// The cells that hold something, up to and including the furthest cell visited: each with
    /// its position, in ascending order of position.
    pub open spec fn occupied_cells(self) -> Seq<(usize, u8)> {
        occupied_among(self.tape, self.furthest + 1)
    }

    /// The effect of one step: the next state and what the surroundings have to do, or the
    /// fault that ends the run.
    ///
    /// `input` is the character that the surroundings offer. It is used by `,` only; where `,`
    /// is offered none, the machine stays as it is and asks for one.
    pub open spec fn step(self, input: Option<char>) -> Result<(MachineState, Action), BfError> {
        if self.finished() {
            Ok((self, Action::Halt))
        } else if self.instruction() == '>' {
            if self.pointer == TAPE_LENGTH - 1 {
                Err(BfError::RightBound)
            } else {
                Ok(
                    (
                        MachineState {
                            ip: self.ip + 1,
                            pointer: self.pointer + 1,
                            furthest: if self.pointer + 1 > self.furthest {
                                self.pointer + 1
                            } else {
                                self.furthest
                            },
                            ..self
                        },
                        Action::Continue,
                    ),
                )
            }
        } else if self.instruction() == '<' {
            if self.pointer == 0 {
                Err(BfError::LeftBound)
            } else {
                Ok(
                    (
                        MachineState { ip: self.ip + 1, pointer: self.pointer - 1, ..self },
                        Action::Continue,
                    ),
                )
            }
        } else if self.instruction() == '+' {
            if self.cell() == 255 {
                Err(BfError::CellOverflow)
            } else {
                Ok((self.with_cell((self.cell() + 1) as u8).at(self.ip + 1), Action::Continue))
            }
        } else if self.instruction() == '-' {
            if self.cell() == 0 {
                Err(BfError::CellUnderflow)
            } else {
                Ok((self.with_cell((self.cell() - 1) as u8).at(self.ip + 1), Action::Continue))
            }
        } else if self.instruction() == '[' {
            Ok(
                (
                    MachineState { ip: self.ip + 1, loops: self.loops.push(self.ip), ..self },
                    Action::Continue,
                ),
            )
        } else if self.instruction() == ']' {
            if self.loops.len() == 0 {
                Err(BfError::EmptyLoopStack)
            } else if self.cell() > 0 {
                Ok((self.at(self.loops.last() + 1), Action::Continue))
            } else {
                Ok(
                    (
                        MachineState { ip: self.ip + 1, loops: self.loops.drop_last(), ..self },
                        Action::Continue,
                    ),
                )
            }
        } else if self.instruction() == '.' {
            Ok(
                (
                    MachineState { ip: self.ip + 1, produced_output: true, ..self },
                    Action::Write(self.cell() as char),
                ),
            )
        } else if self.instruction() == ',' {
            match input {
                None => Ok((self, Action::Read)),
                Some(c) => if c as u32 > 255 {
                    Err(BfError::InputOverflow { position: self.ip as usize })
                } else {
                    Ok((self.with_cell(c as u8).at(self.ip + 1), Action::Continue))
                },
            }
        } else {
            Err(
                BfError::UnrecognisedCharacter {
                    position: self.ip as usize,
                    character: self.instruction(),
                },
            )
        }
    }
}

/// The memory of a machine, as far as it was used.
#[derive(Debug, PartialEq, Eq)]
pub struct MemoryReport {
    /// The cells that hold something, each with its position, in ascending order of position.
    pub cells: Vec<(usize, u8)>,
    /// Where the data pointer stands.
    pub pointer: usize,
}

/// A program in execution.
pub struct Machine {
    code: Vec<char>,
    ip: usize,
    tape: Vec<u8>,
    pointer: usize,
    furthest: usize,
    loops: Vec<usize>,
    produced_output: bool,
}

impl View for Machine {
    type V = MachineState;

    closed spec fn view(&self) -> MachineState {
        MachineState {
            code: self.code@,
            ip: self.ip as int,
            tape: self.tape@,
            pointer: self.pointer as int,
            furthest: self.furthest as int,
            loops: self.loops@.map_values(|p: usize| p as int),
            produced_output: self.produced_output,
        }
    }
}

impl Machine {
    /// Whether this machine is in a state that a program can reach.
    pub open spec fn wf(&self) -> bool {
        self@.wf()
    }

    /// A machine about to run the instruction stream `code`.
    pub fn new(code: &str) -> (machine: Machine)
        ensures
            machine.wf(),
            machine@ == MachineState::initial(code@),
    {
        let machine = Machine {
            code: chars_of(code),
            ip: 0,
            tape: vec![0u8; TAPE_LENGTH],
            pointer: 0,
            furthest: 0,
            loops: Vec::new(),
            produced_output: false,
        };
        assert(machine@.tape =~= MachineState::initial(code@).tape);
        assert(machine@.loops =~= MachineState::initial(code@).loops);
        machine
    }

    /// Runs the next instruction.
    ///
    /// On a fault the machine is left as it was.
    pub fn step(&mut self, input: Option<char>) -> (r: Result<Action, BfError>)
        requires
            old(self).wf(),
        ensures
            final(self).wf(),
            match r {
                Ok(action) => old(self)@.step(input) == Ok::<(MachineState, Action), BfError>(
                    (final(self)@, action),
                ),
                Err(e) => old(self)@.step(input) == Err::<(MachineState, Action), BfError>(e)
                    && final(self)@ == old(self)@,
            },
    {
        if self.ip >= self.code.len() {
            return Ok(Action::Halt);
        }
        let instruction = self.code[self.ip];
        let cell = self.tape[self.pointer];
        if instruction == '>' {
            if self.pointer == TAPE_LENGTH - 1 {
                return Err(BfError::RightBound);
            }
            self.pointer += 1;
            if self.pointer > self.furthest {
                self.furthest = self.pointer;
            }
            self.ip += 1;
            Ok(Action::Continue)
        } else if instruction == '<' {
            if self.pointer == 0 {
                return Err(BfError::LeftBound);
            }
            self.pointer -= 1;
            self.ip += 1;
            Ok(Action::Continue)
        } else if instruction == '+' {
            if cell == 255 {
                return Err(BfError::CellOverflow);
            }
            self.tape.set(self.pointer, cell + 1);
            self.ip += 1;
            Ok(Action::Continue)
        } else if instruction == '-' {
            if cell == 0 {
                return Err(BfError::CellUnderflow);
            }
            self.tape.set(self.pointer, cell - 1);
            self.ip += 1;
            Ok(Action::Continue)
        } else if instruction == '[' {
            self.loops.push(self.ip);
            self.ip += 1;
            assert(self@.loops =~= old(self)@.loops.push(old(self)@.ip));
            Ok(Action::Continue)
        } else if instruction == ']' {
            if self.loops.len() == 0 {
                return Err(BfError::EmptyLoopStack);
            }
            if cell > 0 {
                let start = self.loops[self.loops.len() - 1];
                assert(start as int == self@.loops.last());
                self.ip = start + 1;
            } else {
                self.loops.pop();
                self.ip += 1;
                assert(self@.loops =~= old(self)@.loops.drop_last());
            }
            Ok(Action::Continue)
        } else if instruction == '.' {
            self.produced_output = true;
            self.ip += 1;
            Ok(Action::Write(cell as char))
        } else if instruction == ',' {
            match input {
                None => Ok(Action::Read),
                Some(c) => {
                    if c as u32 > 255 {
                        return Err(BfError::InputOverflow { position: self.ip });
                    }
                    self.tape.set(self.pointer, c as u8);
                    self.ip += 1;
                    Ok(Action::Continue)
                },
            }
        } else {
            Err(BfError::UnrecognisedCharacter { position: self.ip, character: instruction })
        }
    }

    /// Whether the instruction pointer is past the last instruction.
    pub fn finished(&self) -> (r: bool)
        ensures
            r == self@.finished(),
    {
        self.ip >= self.code.len()
    }

    /// Whether the instruction that runs next reads input.
    pub fn awaits_input(&self) -> (r: bool)
        ensures
            r == self@.awaits_input(),
    {
        self.ip < self.code.len() && self.code[self.ip] == ','
    }

    /// Index of the instruction that runs next.
    pub fn instruction_pointer(&self) -> (r: usize)
        ensures
            r == self@.ip,
    {
        self.ip
    }

    /// Index of the active cell.
    pub fn pointer(&self) -> (r: usize)
        ensures
            r == self@.pointer,
    {
        self.pointer
    }

    /// The largest index the data pointer has had.
    pub fn furthest_pointer(&self) -> (r: usize)
        ensures
            r == self@.furthest,
    {
        self.furthest
    }

    /// The value of the cell at `position`, or `None` where the tape has no such cell.
    pub fn cell(&self, position: usize) -> (r: Option<u8>)
        ensures
            r == if position < self@.tape.len() {
                Some(self@.tape[position as int])
            } else {
                None
            },
    {
        if position < self.tape.len() {
            Some(self.tape[position])
        } else {
            None
        }
    }

    /// How many loops are open.
    pub fn loop_depth(&self) -> (r: usize)
        ensures
            r == self@.loops.len(),
    {
        self.loops.len()
    }

    /// Whether a `.` has run.
    pub fn produced_output(&self) -> (r: bool)
        ensures
            r == self@.produced_output,
    {
        self.produced_output
    }

    /// The cells that hold something, and the data pointer.
    pub fn memory_report(&self) -> (report: MemoryReport)
        requires
            self.wf(),
        ensures
            report.cells@ == self@.occupied_cells(),
            report.pointer == self@.pointer,
    {
        let mut cells: Vec<(usize, u8)> = Vec::new();
        let mut i: usize = 0;
        while i <= self.furthest
            invariant
                self.wf(),
                i <= self.furthest + 1,
                cells@ == occupied_among(self.tape@, i as int),
            decreases self.furthest + 1 - i,
        {
            let value = self.tape[i];
            proof {
                let before = Seq::new(i as nat, |k: int| (k as usize, self.tape@[k]));
                let after = Seq::new((i + 1) as nat, |k: int| (k as usize, self.tape@[k]));
                assert(after.drop_last() =~= before);
                assert(after.last() == (i, value));
                reveal(Seq::filter);
            }
            if value > 0 {
                cells.push((i, value));
            }
            i += 1;
        }
        MemoryReport { cells, pointer: self.pointer }
    }
}

} // verus!
