//! What holds of every step and every run of the machine.

use crate::error::{BfError, ErrorKind};
use crate::interpreter::{execution_of, offered, run_of, Trace};
use crate::machine::{nesting_depth, occupied_among, Action, MachineState, TAPE_LENGTH};
use crate::sanitizer::{balanced, occurrences, sanitised};
use vstd::prelude::*;

verus! {

/// A program starts in a state that satisfies the invariant of the machine.
pub proof fn lemma_initial_state_is_well_formed(code: Seq<char>)
    ensures
        MachineState::initial(code).wf(),
{
}

/// A step keeps the invariant of the machine: the pointer stays on the tape and within the
/// cells visited, cells never visited stay zero, and the loop stack stays as deep as the
/// nesting of the instruction pointer. A step never changes the program.
pub proof fn lemma_step_keeps_well_formed(state: MachineState, input: Option<char>)
    requires
        state.wf(),
    ensures
        state.step(input) matches Ok((next, _)) ==> next.wf() && next.code == state.code,
{
}

/// Tape bounds: a step fails with an out-of-bounds fault exactly when it is `<` with the
/// pointer on the first cell or `>` with the pointer on the last cell, and in no other
/// position of the pointer.
pub proof fn lemma_tape_bound_enforcement(state: MachineState, input: Option<char>)
    ensures
        state.step(input) == Err::<(MachineState, Action), BfError>(BfError::LeftBound) <==> (
        !state.finished() && state.instruction() == '<' && state.pointer == 0),
        state.step(input) == Err::<(MachineState, Action), BfError>(BfError::RightBound) <==> (
        !state.finished() && state.instruction() == '>' && state.pointer == TAPE_LENGTH - 1),
        (state.step(input) matches Err(fault) && fault.spec_kind() == ErrorKind::OutOfBoundsError)
            <==> (!state.finished() && ((state.instruction() == '<' && state.pointer == 0) || (
        state.instruction() == '>' && state.pointer == TAPE_LENGTH - 1))),
{
}

/// Cell bounds: a step fails with an overflow exactly when it is `+` on a cell that holds 255,
/// or `,` that is handed a character above 255; it fails with a sub-zero fault exactly when it
/// is `-` on a cell that holds 0.
pub proof fn lemma_cell_bound_enforcement(state: MachineState, input: Option<char>)
    ensures
        state.step(input) == Err::<(MachineState, Action), BfError>(BfError::CellOverflow) <==> (
        !state.finished() && state.instruction() == '+' && state.cell() == 255),
        state.step(input) == Err::<(MachineState, Action), BfError>(BfError::CellUnderflow) <==> (
        !state.finished() && state.instruction() == '-' && state.cell() == 0),
        (state.step(input) matches Err(fault) && fault.spec_kind() == ErrorKind::OverflowError)
            <==> (!state.finished() && ((state.instruction() == '+' && state.cell() == 255) || (
        state.instruction() == ',' && input is Some && input->0 as u32 > 255))),
        (state.step(input) matches Err(fault) && fault.spec_kind() == ErrorKind::SubZeroError)
            <==> (!state.finished() && state.instruction() == '-' && state.cell() == 0),
{
}

/// The nesting depth at an index is the number of `[` before it less the number of `]`.
pub proof fn lemma_nesting_depth_counts(code: Seq<char>, upto: int)
    ensures
        nesting_depth(code, upto) == occurrences(code, '[', upto) - occurrences(code, ']', upto),
    decreases upto,
{
    if upto > 0 {
        lemma_nesting_depth_counts(code, upto - 1);
    }
}

/// A program with as many `[` as `]` that has run to its end has no loop open.
pub proof fn lemma_balanced_program_ends_with_no_loop_open(state: MachineState)
    requires
        state.wf(),
        state.finished(),
        balanced(state.code),
    ensures
        state.loops.len() == 0,
{
    lemma_nesting_depth_counts(state.code, state.code.len() as int);
}

/// Whether no `]` of `code` comes before its `[`: the nesting depth is never negative.
pub open spec fn well_nested(code: Seq<char>) -> bool {
    forall|i: int| 0 <= i <= code.len() ==> nesting_depth(code, i) >= 0
}

/// In a program whose `]` all have their `[` before them, no step finds the loop stack empty.
pub proof fn lemma_well_nested_program_never_finds_stack_empty(
    state: MachineState,
    input: Option<char>,
)
    requires
        state.wf(),
        well_nested(state.code),
    ensures
        state.step(input) != Err::<(MachineState, Action), BfError>(BfError::EmptyLoopStack),
{
    if !state.finished() && state.instruction() == ']' {
        assert(nesting_depth(state.code, state.ip + 1) >= 0);
    }
}

/// A run keeps the invariant of the machine and never changes the program.
pub proof fn lemma_run_keeps_well_formed(state: MachineState, input: Seq<char>, max_steps: nat)
    requires
        state.wf(),
    ensures
        run_of(state, input, max_steps).state.wf(),
        run_of(state, input, max_steps).state.code == state.code,
        run_of(state, input, max_steps).consumed <= input.len(),
    decreases max_steps,
{
    if max_steps > 0 {
        lemma_step_keeps_well_formed(state, offered(state, input));
        match state.step(offered(state, input)) {
            Ok((next, Action::Write(_))) => {
                lemma_run_keeps_well_formed(next, input, (max_steps - 1) as nat);
            },
            Ok((next, Action::Continue)) => {
                if offered(state, input) is Some {
                    lemma_run_keeps_well_formed(next, input.drop_first(), (max_steps - 1) as nat);
                } else {
                    lemma_run_keeps_well_formed(next, input, (max_steps - 1) as nat);
                }
            },
            _ => {},
        }
    }
}

/// A program that holds no `.` shows nothing, however long it runs.
pub proof fn lemma_program_without_output_shows_nothing(
    state: MachineState,
    input: Seq<char>,
    max_steps: nat,
)
    requires
        state.wf(),
        forall|i: int| 0 <= i < state.code.len() ==> state.code[i] != '.',
    ensures
        run_of(state, input, max_steps).output == Seq::<char>::empty(),
        run_of(state, input, max_steps).state.produced_output == state.produced_output,
    decreases max_steps,
{
    if max_steps > 0 {
        lemma_step_keeps_well_formed(state, offered(state, input));
        match state.step(offered(state, input)) {
            Ok((next, Action::Continue)) => {
                if offered(state, input) is Some {
                    lemma_program_without_output_shows_nothing(
                        next,
                        input.drop_first(),
                        (max_steps - 1) as nat,
                    );
                } else {
                    lemma_program_without_output_shows_nothing(
                        next,
                        input,
                        (max_steps - 1) as nat,
                    );
                }
            },
            _ => {},
        }
    }
}

/// The step bound only cuts a run short: a run of `first + second` steps is the run of
/// `first` steps followed, where no fault stopped it, by a run of `second` steps on the
/// input that is left.
pub proof fn lemma_run_in_two_parts(
    state: MachineState,
    input: Seq<char>,
    first: nat,
    second: nat,
)
    requires
        state.wf(),
    ensures
        ({
            let whole = run_of(state, input, first + second);
            let head = run_of(state, input, first);
            let tail = run_of(head.state, input.skip(head.consumed as int), second);
            if head.fault is Some {
                whole == head
            } else {
                whole == Trace {
                    state: tail.state,
                    output: head.output + tail.output,
                    consumed: head.consumed + tail.consumed,
                    fault: tail.fault,
                }
            }
        }),
    decreases first,
{
    let whole = run_of(state, input, first + second);
    let head = run_of(state, input, first);
    if first == 0 {
        assert(input.skip(0) =~= input);
        let tail = run_of(state, input, second);
        assert(head.output + tail.output =~= tail.output);
    } else {
        lemma_step_keeps_well_formed(state, offered(state, input));
        match state.step(offered(state, input)) {
            Err(_) => {},
            Ok((_, Action::Halt)) => {
                assert(input.skip(0) =~= input);
                let tail = run_of(state, input, second);
                assert(head.output + tail.output =~= tail.output);
            },
            Ok((_, Action::Read)) => {
                assert(input.skip(0) =~= input);
                let tail = run_of(state, input, second);
                assert(head.output + tail.output =~= tail.output);
            },
            Ok((next, Action::Write(c))) => {
                lemma_run_in_two_parts(next, input, (first - 1) as nat, second);
                let head_rest = run_of(next, input, (first - 1) as nat);
                let tail = run_of(head_rest.state, input.skip(head_rest.consumed as int), second);
                assert(seq![c] + (head_rest.output + tail.output) =~= (seq![c] + head_rest.output)
                    + tail.output);
            },
            Ok((next, Action::Continue)) => {
                if offered(state, input) is Some {
                    lemma_run_in_two_parts(next, input.drop_first(), (first - 1) as nat, second);
                    let head_rest = run_of(next, input.drop_first(), (first - 1) as nat);
                    lemma_run_keeps_well_formed(next, input.drop_first(), (first - 1) as nat);
                    assert(input.drop_first().skip(head_rest.consumed as int) =~= input.skip(
                        (head_rest.consumed + 1) as int,
                    ));
                } else {
                    lemma_run_in_two_parts(next, input, (first - 1) as nat, second);
                }
            },
        }
    }
}

/// Every entry of `occupied_among` is a cell before `upto` that holds what the entry says, and
/// more than zero; every such cell has its entry; and the entries ascend by position.
pub proof fn lemma_occupied_among(tape: Seq<u8>, upto: int)
    requires
        0 <= upto <= tape.len() <= usize::MAX,
    ensures
        forall|k: int|
            0 <= k < occupied_among(tape, upto).len() ==> {
                let cell = #[trigger] occupied_among(tape, upto)[k];
                cell.0 < upto && cell.1 > 0 && tape[cell.0 as int] == cell.1
            },
        forall|i: int|
            0 <= i < upto && tape[i] > 0 ==> occupied_among(tape, upto).contains(
                (i as usize, #[trigger] tape[i]),
            ),
        forall|j: int, k: int|
            0 <= j < k < occupied_among(tape, upto).len() ==> occupied_among(tape, upto)[j].0
                < occupied_among(tape, upto)[k].0,
    decreases upto,
{
    reveal(Seq::filter);
    if upto > 0 {
        lemma_occupied_among(tape, upto - 1);
        let all = Seq::new(upto as nat, |i: int| (i as usize, tape[i]));
        let fewer = Seq::new((upto - 1) as nat, |i: int| (i as usize, tape[i]));
        assert(all.drop_last() =~= fewer);
        let before = occupied_among(tape, upto - 1);
        let now = occupied_among(tape, upto);
        if tape[upto - 1] > 0 {
            assert(now == before.push(((upto - 1) as usize, tape[upto - 1])));
            assert(now[before.len() as int] == ((upto - 1) as usize, tape[upto - 1]));
            assert forall|i: int| 0 <= i < upto && tape[i] > 0 implies now.contains(
                (i as usize, #[trigger] tape[i]),
            ) by {
                if i < upto - 1 {
                    let k = choose|k: int|
                        0 <= k < before.len() && before[k] == (i as usize, tape[i]);
                    assert(now[k] == (i as usize, tape[i]));
                }
            }
        } else {
            assert(now == before);
        }
    }
}

/// The memory report is exact: it lists each cell of the tape that holds something, with what
/// it holds, once and in ascending order of position, and lists nothing else; none of them
/// lies beyond the furthest cell that the pointer has reached.
pub proof fn lemma_memory_report_is_exact(state: MachineState)
    requires
        state.wf(),
    ensures
        forall|k: int|
            0 <= k < state.occupied_cells().len() ==> {
                let cell = #[trigger] state.occupied_cells()[k];
                cell.0 <= state.furthest && cell.1 > 0 && state.tape[cell.0 as int] == cell.1
            },
        forall|i: int|
            0 <= i < TAPE_LENGTH && state.tape[i] > 0 ==> state.occupied_cells().contains(
                (i as usize, #[trigger] state.tape[i]),
            ),
        forall|j: int, k: int|
            0 <= j < k < state.occupied_cells().len() ==> state.occupied_cells()[j].0
                < state.occupied_cells()[k].0,
{
    lemma_occupied_among(state.tape, state.furthest + 1);
}

/// A program text that holds no `.` once it is cleaned, and that runs to its end, has shown
/// nothing and gets the notice that says so.
pub proof fn lemma_completed_program_without_output_gets_the_notice(
    code: Seq<char>,
    show_memory_after: bool,
    input: Seq<char>,
    max_steps: nat,
)
    requires
        sanitised(code) is Ok,
        forall|i: int|
            0 <= i < sanitised(code)->Ok_0.len() ==> sanitised(code)->Ok_0[i] != '.',
        execution_of(code, show_memory_after, input, max_steps).completed,
    ensures
        execution_of(code, show_memory_after, input, max_steps).no_output,
        execution_of(code, show_memory_after, input, max_steps).output == Seq::<char>::empty(),
        execution_of(code, show_memory_after, input, max_steps).fault is None,
{
    let stream = sanitised(code)->Ok_0;
    lemma_initial_state_is_well_formed(stream);
    lemma_program_without_output_shows_nothing(MachineState::initial(stream), input, max_steps);
}

/// Inside the loop `[-]`, with the cell holding `count` and at least 1, the run comes out of
/// the loop after `2 * count` steps with the cell at 0.
proof fn lemma_inside_clearing_loop(state: MachineState, input: Seq<char>, count: nat)
    requires
        state.wf(),
        state.ip + 1 < state.code.len(),
        state.code[state.ip] == '-',
        state.code[state.ip + 1] == ']',
        state.loops.len() > 0,
        state.loops.last() == state.ip - 1,
        state.cell() == count,
        count >= 1,
    ensures
        run_of(state, input, 2 * count) == (Trace {
            state: MachineState {
                ip: state.ip + 2,
                loops: state.loops.drop_last(),
                ..state.with_cell(0)
            },
            output: Seq::empty(),
            consumed: 0,
            fault: None,
        }),
    decreases count,
{
    reveal_with_fuel(run_of, 3);
    let lowered = state.with_cell((count - 1) as u8).at(state.ip + 1);
    assert(state.step(offered(state, input)) == Ok::<(MachineState, Action), BfError>(
        (lowered, Action::Continue),
    ));
    if count == 1 {
        assert(state.with_cell(0).tape =~= lowered.tape);
    } else {
        let again = lowered.at(state.ip);
        assert(lowered.step(offered(lowered, input)) == Ok::<(MachineState, Action), BfError>(
            (again, Action::Continue),
        ));
        lemma_step_keeps_well_formed(state, offered(state, input));
        lemma_step_keeps_well_formed(lowered, offered(lowered, input));
        lemma_inside_clearing_loop(again, input, (count - 1) as nat);
        assert(again.with_cell(0).tape =~= state.with_cell(0).tape);
        assert(run_of(state, input, 2 * count) == run_of(again, input, (2 * count - 2) as nat));
    }
}

/// Loop semantics: the loop `[-]`, entered with the cell holding `count` and at least 1, ends
/// after `2 * count + 1` steps with the cell at 0; the pointer, the other cells and the loops
/// that were open are as before, and nothing was shown or read.
pub proof fn lemma_clearing_loop_empties_the_cell(
    state: MachineState,
    input: Seq<char>,
    count: nat,
)
    requires
        state.wf(),
        state.ip + 2 < state.code.len(),
        state.code[state.ip] == '[',
        state.code[state.ip + 1] == '-',
        state.code[state.ip + 2] == ']',
        state.cell() == count,
        count >= 1,
    ensures
        run_of(state, input, 2 * count + 1) == (Trace {
            state: state.with_cell(0).at(state.ip + 3),
            output: Seq::empty(),
            consumed: 0,
            fault: None,
        }),
{
    let entered = MachineState { ip: state.ip + 1, loops: state.loops.push(state.ip), ..state };
    assert(state.step(offered(state, input)) == Ok::<(MachineState, Action), BfError>(
        (entered, Action::Continue),
    ));
    lemma_step_keeps_well_formed(state, offered(state, input));
    lemma_inside_clearing_loop(entered, input, count);
    assert(entered.loops.drop_last() =~= state.loops);
}

/// Echo: `,` followed by `.`, given a character `c` whose code is at most 255, shows `c` and
/// leaves its code in the cell.
pub proof fn lemma_echo_shows_what_was_read(state: MachineState, c: char, rest: Seq<char>)
    requires
        state.wf(),
        state.ip + 1 < state.code.len(),
        state.code[state.ip] == ',',
        state.code[state.ip + 1] == '.',
        c as u32 <= 255,
    ensures
        run_of(state, seq![c] + rest, 2) == (Trace {
            state: MachineState {
                ip: state.ip + 2,
                produced_output: true,
                ..state.with_cell(c as u8)
            },
            output: seq![c],
            consumed: 1,
            fault: None,
        }),
{
    reveal_with_fuel(run_of, 3);
    let input = seq![c] + rest;
    assert(input[0] == c);
    let stored = state.with_cell(c as u8).at(state.ip + 1);
    assert(state.step(offered(state, input)) == Ok::<(MachineState, Action), BfError>(
        (stored, Action::Continue),
    ));
    assert(stored.cell() as char == c);
    assert(seq![c] + Seq::<char>::empty() =~= seq![c]);
}

} // verus!
