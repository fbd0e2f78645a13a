//! Running a machine for many steps, and a program text from start to end, with the input
//! at hand.

use crate::error::BfError;
use crate::machine::{Action, Machine, MachineState, MemoryReport};
use crate::sanitizer::{sanitise_code, sanitised};
use vstd::prelude::*;

verus! {

/// What a run of a number of steps comes to, as mathematics sees it.
pub struct Trace {
    /// The state in which the run stopped.
    pub state: MachineState,
    /// The characters shown, in order.
    pub output: Seq<char>,
    /// How many characters of input were read.
    pub consumed: nat,
    /// The fault that stopped the run, if one did.
    pub fault: Option<BfError>,
}

/// The character that a machine in `state` is offered when `input` is what is left to read.
pub open spec fn offered(state: MachineState, input: Seq<char>) -> Option<char> {
    if state.awaits_input() && input.len() > 0 {
        Some(input[0])
    } else {
        None
    }
}

/// The run that starts in `state`, reads from `input` and takes at most `max_steps` steps.
///
/// It stops before that where the program ends, where a fault occurs, and where the program
/// asks for input and none is left.
pub open spec fn run_of(state: MachineState, input: Seq<char>, max_steps: nat) -> Trace
    decreases max_steps,
{
    let stop = Trace { state, output: Seq::empty(), consumed: 0, fault: None };
    if max_steps == 0 {
        stop
    } else {
        match state.step(offered(state, input)) {
            Err(e) => Trace { fault: Some(e), ..stop },
            Ok((_, Action::Halt)) => stop,
            Ok((_, Action::Read)) => stop,
            Ok((next, Action::Write(c))) => {
                let rest = run_of(next, input, (max_steps - 1) as nat);
                Trace { output: seq![c] + rest.output, ..rest }
            },
            Ok((next, Action::Continue)) => {
                if offered(state, input) is Some {
                    let rest = run_of(next, input.drop_first(), (max_steps - 1) as nat);
                    Trace { consumed: rest.consumed + 1, ..rest }
                } else {
                    run_of(next, input, (max_steps - 1) as nat)
                }
            },
        }
    }
}

/// What a run came to.
#[derive(Debug, PartialEq, Eq)]
pub struct Run {
    /// The characters shown, in order.
    pub output: Vec<char>,
    /// How many characters of the input were read.
    pub consumed: usize,
    /// The fault that stopped the run, if one did.
    pub fault: Option<BfError>,
}

impl Machine {
    /// Runs the machine for at most `max_steps` steps, reading from `input`.
    ///
    /// The run stops before that where the program ends, where a fault occurs, and where the
    /// program asks for input and none is left; the machine then tells which it was.
    pub fn run(&mut self, input: &Vec<char>, max_steps: usize) -> (run: Run)
        requires
            old(self).wf(),
        ensures
            final(self).wf(),
            final(self)@ == run_of(old(self)@, input@, max_steps as nat).state,
            run.output@ == run_of(old(self)@, input@, max_steps as nat).output,
            run.consumed == run_of(old(self)@, input@, max_steps as nat).consumed,
            run.fault == run_of(old(self)@, input@, max_steps as nat).fault,
    {
        let ghost total = run_of(self@, input@, max_steps as nat);
        let mut output: Vec<char> = Vec::new();
        let mut consumed: usize = 0;
        let mut steps_left: usize = max_steps;
        assert(input@.skip(0) =~= input@);
        assert(output@ + total.output =~= total.output);
        while steps_left > 0
            invariant
                self.wf(),
                total == run_of(old(self)@, input@, max_steps as nat),
                consumed <= input.len(),
                ({
                    let rest = run_of(self@, input@.skip(consumed as int), steps_left as nat);
                    &&& total.state == rest.state
                    &&& total.output == output@ + rest.output
                    &&& total.consumed == consumed + rest.consumed
                    &&& total.fault == rest.fault
                }),
            decreases steps_left,
        {
            let ghost left = input@.skip(consumed as int);
            let ghost before = self@;
            let ghost shown = output@;
            let character = if consumed < input.len() && self.awaits_input() {
                Some(input[consumed])
            } else {
                None
            };
            assert(character == offered(before, left));
            match self.step(character) {
                Err(e) => {
                    return Run { output, consumed, fault: Some(e) };
                },
                Ok(Action::Halt) => {
                    return Run { output, consumed, fault: None };
                },
                Ok(Action::Read) => {
                    return Run { output, consumed, fault: None };
                },
                Ok(Action::Write(c)) => {
                    output.push(c);
                    proof {
                        let rest = run_of(self@, left, (steps_left - 1) as nat);
                        assert(shown + (seq![c] + rest.output) =~= shown.push(c) + rest.output);
                    }
                },
                Ok(Action::Continue) => {
                    if character.is_some() {
                        consumed += 1;
                        assert(left.drop_first() =~= input@.skip(consumed as int));
                    }
                },
            }
            steps_left -= 1;
        }
        Run { output, consumed, fault: None }
    }
}

/// The notice that is due where a program ran to its end and showed nothing.
pub const NO_OUTPUT_NOTICE: &'static str = "No output provided.";

/// What running a program text came to.
#[derive(Debug, PartialEq, Eq)]
pub struct Execution {
    /// The characters shown, in order.
    pub output: Vec<char>,
    /// The fault that ended the run, in the text or while it ran, if one did.
    pub fault: Option<BfError>,
    /// Whether the program ran to its end.
    pub completed: bool,
    /// Whether the program ran to its end and showed nothing, so that a notice is due.
    pub no_output: bool,
    /// The memory at the end, where the program ran to its end and a report was asked for.
    pub memory: Option<MemoryReport>,
}

/// What running a program text came to, as mathematics sees it.
pub struct ExecutionModel {
    /// The characters shown, in order.
    pub output: Seq<char>,
    /// The fault that ended the run, if one did.
    pub fault: Option<BfError>,
    /// Whether the program ran to its end.
    pub completed: bool,
    /// Whether the program ran to its end and showed nothing.
    pub no_output: bool,
    /// The cells that hold something at the end, and the data pointer, where a report is due.
    pub memory: Option<(Seq<(usize, u8)>, int)>,
}

impl View for Execution {
    type V = ExecutionModel;

    open spec fn view(&self) -> ExecutionModel {
        ExecutionModel {
            output: self.output@,
            fault: self.fault,
            completed: self.completed,
            no_output: self.no_output,
            memory: match self.memory {
                Some(report) => Some((report.cells@, report.pointer as int)),
                None => None,
            },
        }
    }
}

/// What running the program text `code` comes to.
///
/// A fault in the text ends it before any instruction runs. Otherwise the instructions run
/// from the initial state, for at most `max_steps` steps. Only a program that ran to its end
/// gets the notice that it showed nothing, and the memory report where one was asked for.
pub open spec fn execution_of(
    code: Seq<char>,
    show_memory_after: bool,
    input: Seq<char>,
    max_steps: nat,
) -> ExecutionModel {
    match sanitised(code) {
        Err(fault) => ExecutionModel {
            output: Seq::empty(),
            fault: Some(fault),
            completed: false,
            no_output: false,
            memory: None,
        },
        Ok(stream) => {
            let trace = run_of(MachineState::initial(stream), input, max_steps);
            let completed = trace.fault is None && trace.state.finished();
            ExecutionModel {
                output: trace.output,
                fault: trace.fault,
                completed,
                no_output: completed && !trace.state.produced_output,
                memory: if completed && show_memory_after {
                    Some((trace.state.occupied_cells(), trace.state.pointer))
                } else {
                    None
                },
            }
        },
    }
}

/// Runs the program text `code`: cleans and checks it, then runs the instructions from a
/// fresh machine, reading from `input`, for at most `max_steps` steps.
///
/// A program that has not ended by then, or that asks for more input than there is, is left
/// where it stands: the result then has no fault and is not completed.
pub fn execute_code(code: &str, show_memory_after: bool, input: &Vec<char>, max_steps: usize) -> (r:
    Execution)
    ensures
        r@ == execution_of(code@, show_memory_after, input@, max_steps as nat),
{
    match sanitise_code(code) {
        Err(fault) => Execution {
            output: Vec::new(),
            fault: Some(fault),
            completed: false,
            no_output: false,
            memory: None,
        },
        Ok(stream) => {
            let mut machine = Machine::new(stream.as_str());
            let run = machine.run(input, max_steps);
            let completed = run.fault.is_none() && machine.finished();
            let memory = if completed && show_memory_after {
                Some(machine.memory_report())
            } else {
                None
            };
            Execution {
                output: run.output,
                fault: run.fault,
                completed,
                no_output: completed && !machine.produced_output(),
                memory,
            }
        },
    }
}

} // verus!
