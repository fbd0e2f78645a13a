use brainfuck::error::{BfError, ErrorKind};
use brainfuck::interpreter::{execute_code, NO_OUTPUT_NOTICE};
use brainfuck::machine::{Action, Machine, MemoryReport, TAPE_LENGTH};

fn no_input() -> Vec<char> {
    Vec::new()
}

#[test]
fn tape_has_thirty_thousand_cells() {
    assert_eq!(TAPE_LENGTH, 30_000);
    let machine = Machine::new("");
    assert_eq!(machine.cell(29_999), Some(0));
    assert_eq!(machine.cell(30_000), None);
}

#[test]
fn machine_starts_at_rest() {
    let machine = Machine::new("+");
    assert_eq!(machine.instruction_pointer(), 0);
    assert_eq!(machine.pointer(), 0);
    assert_eq!(machine.furthest_pointer(), 0);
    assert_eq!(machine.loop_depth(), 0);
    assert_eq!(machine.cell(0), Some(0));
    assert!(!machine.produced_output());
    assert!(!machine.finished());
    assert!(!machine.awaits_input());
}

#[test]
fn empty_program_is_finished_at_once() {
    let mut machine = Machine::new("");
    assert!(machine.finished());
    assert_eq!(machine.step(None), Ok(Action::Halt));
    assert_eq!(machine.instruction_pointer(), 0);
}

#[test]
fn increment_adds_one() {
    let mut machine = Machine::new("+");
    assert_eq!(machine.step(None), Ok(Action::Continue));
    assert_eq!(machine.cell(0), Some(1));
    assert_eq!(machine.instruction_pointer(), 1);
    assert!(machine.finished());
    assert_eq!(machine.step(None), Ok(Action::Halt));
}

#[test]
fn decrement_takes_one() {
    let mut machine = Machine::new("++-");
    machine.run(&no_input(), 3);
    assert_eq!(machine.cell(0), Some(1));
}

#[test]
fn moving_left_from_the_first_cell_fails() {
    let mut machine = Machine::new("<");
    assert_eq!(machine.step(None), Err(BfError::LeftBound));
    assert_eq!(BfError::LeftBound.kind(), ErrorKind::OutOfBoundsError);
    assert_eq!(machine.pointer(), 0);
    assert_eq!(machine.instruction_pointer(), 0);
}

#[test]
fn moving_left_from_another_cell_succeeds() {
    let mut machine = Machine::new("><");
    assert_eq!(machine.step(None), Ok(Action::Continue));
    assert_eq!(machine.pointer(), 1);
    assert_eq!(machine.step(None), Ok(Action::Continue));
    assert_eq!(machine.pointer(), 0);
    assert_eq!(machine.furthest_pointer(), 1);
}

#[test]
fn moving_right_reaches_the_last_cell() {
    let code = ">".repeat(29_999);
    let mut machine = Machine::new(&code);
    let run = machine.run(&no_input(), 100_000);
    assert_eq!(run.fault, None);
    assert!(machine.finished());
    assert_eq!(machine.pointer(), 29_999);
    assert_eq!(machine.furthest_pointer(), 29_999);
}

#[test]
fn moving_right_from_the_last_cell_fails() {
    let code = ">".repeat(30_000);
    let mut machine = Machine::new(&code);
    let run = machine.run(&no_input(), 100_000);
    assert_eq!(run.fault, Some(BfError::RightBound));
    assert_eq!(BfError::RightBound.kind(), ErrorKind::OutOfBoundsError);
    assert_eq!(machine.pointer(), 29_999);
    assert_eq!(machine.instruction_pointer(), 29_999);
    assert!(!machine.finished());
}

#[test]
fn moving_back_from_the_last_cell_succeeds() {
    let mut code = ">".repeat(29_999);
    code.push('<');
    let mut machine = Machine::new(&code);
    let run = machine.run(&no_input(), 100_000);
    assert_eq!(run.fault, None);
    assert_eq!(machine.pointer(), 29_998);
}

#[test]
fn cell_holds_up_to_255() {
    let code = "+".repeat(255);
    let mut machine = Machine::new(&code);
    let run = machine.run(&no_input(), 1_000);
    assert_eq!(run.fault, None);
    assert_eq!(machine.cell(0), Some(255));
}

#[test]
fn incrementing_255_fails() {
    let code = "+".repeat(256);
    let mut machine = Machine::new(&code);
    let run = machine.run(&no_input(), 1_000);
    assert_eq!(run.fault, Some(BfError::CellOverflow));
    assert_eq!(BfError::CellOverflow.kind(), ErrorKind::OverflowError);
    assert_eq!(machine.cell(0), Some(255));
    assert_eq!(machine.instruction_pointer(), 255);
}

#[test]
fn decrementing_zero_fails() {
    let mut machine = Machine::new("-");
    assert_eq!(machine.step(None), Err(BfError::CellUnderflow));
    assert_eq!(BfError::CellUnderflow.kind(), ErrorKind::SubZeroError);
    assert_eq!(machine.cell(0), Some(0));
    assert_eq!(machine.instruction_pointer(), 0);
}

#[test]
fn loop_counts_the_cell_down_to_zero() {
    let mut machine = Machine::new("+++++[-]");
    machine.run(&no_input(), 5);
    assert_eq!(machine.cell(0), Some(5));
    assert_eq!(machine.instruction_pointer(), 5);
    let run = machine.run(&no_input(), 1_000);
    assert_eq!(run.fault, None);
    assert!(machine.finished());
    assert_eq!(machine.cell(0), Some(0));
    assert_eq!(machine.pointer(), 0);
    assert_eq!(machine.loop_depth(), 0);
}

#[test]
fn loop_entry_pushes_and_exit_pops() {
    let mut machine = Machine::new("+[-]");
    assert_eq!(machine.step(None), Ok(Action::Continue));
    assert_eq!(machine.loop_depth(), 0);
    assert_eq!(machine.step(None), Ok(Action::Continue));
    assert_eq!(machine.loop_depth(), 1);
    assert_eq!(machine.step(None), Ok(Action::Continue));
    assert_eq!(machine.loop_depth(), 1);
    assert_eq!(machine.step(None), Ok(Action::Continue));
    assert_eq!(machine.loop_depth(), 0);
    assert!(machine.finished());
}

#[test]
fn loop_exit_jumps_behind_the_entry_while_the_cell_holds_something() {
    let mut machine = Machine::new("++[-]");
    machine.run(&no_input(), 4);
    assert_eq!(machine.cell(0), Some(1));
    assert_eq!(machine.instruction_pointer(), 4);
    assert_eq!(machine.step(None), Ok(Action::Continue));
    assert_eq!(machine.instruction_pointer(), 3);
    assert_eq!(machine.loop_depth(), 1);
}

#[test]
fn loop_body_runs_before_the_cell_is_tested() {
    let mut machine = Machine::new("[-]");
    let run = machine.run(&no_input(), 1_000);
    assert_eq!(run.fault, Some(BfError::CellUnderflow));
    assert_eq!(machine.instruction_pointer(), 1);
    assert_eq!(machine.loop_depth(), 1);
}

#[test]
fn nested_loops_multiply() {
    let mut machine = Machine::new("++[>+++[>++<-]<-]");
    let run = machine.run(&no_input(), 10_000);
    assert_eq!(run.fault, None);
    assert!(machine.finished());
    assert_eq!(machine.cell(0), Some(0));
    assert_eq!(machine.cell(1), Some(0));
    assert_eq!(machine.cell(2), Some(12));
    assert_eq!(machine.pointer(), 0);
    assert_eq!(machine.furthest_pointer(), 2);
    assert_eq!(machine.loop_depth(), 0);
}

#[test]
fn loop_exit_without_entry_fails() {
    let mut machine = Machine::new("]");
    assert_eq!(machine.step(None), Err(BfError::EmptyLoopStack));
    assert_eq!(machine.instruction_pointer(), 0);
    let mut other = Machine::new("+]");
    let run = other.run(&no_input(), 10);
    assert_eq!(run.fault, Some(BfError::EmptyLoopStack));
    assert_eq!(BfError::EmptyLoopStack.kind(), ErrorKind::InternalError);
}

#[test]
fn exit_before_entry_passes_the_check_and_fails_in_the_run() {
    let result = execute_code("][", false, &no_input(), 100);
    assert_eq!(result.fault, Some(BfError::EmptyLoopStack));
    assert!(!result.completed);
    assert!(!result.no_output);
}

#[test]
fn output_shows_the_character_with_the_code_of_the_cell() {
    let code = "+".repeat(65) + ".";
    let mut machine = Machine::new(&code);
    machine.run(&no_input(), 65);
    assert!(!machine.produced_output());
    assert_eq!(machine.step(None), Ok(Action::Write('A')));
    assert!(machine.produced_output());
    assert_eq!(machine.cell(0), Some(65));
}

#[test]
fn output_covers_all_cell_values() {
    let mut machine = Machine::new(".");
    assert_eq!(machine.step(None), Ok(Action::Write('\u{0}')));
    let code = "+".repeat(233) + "." + &"+".repeat(22) + ".";
    let result = execute_code(&code, false, &no_input(), 1_000);
    assert_eq!(result.output, vec!['\u{e9}', '\u{ff}']);
}

#[test]
fn input_is_asked_for_and_then_stored() {
    let mut machine = Machine::new(",");
    assert!(machine.awaits_input());
    assert_eq!(machine.step(None), Ok(Action::Read));
    assert_eq!(machine.instruction_pointer(), 0);
    assert_eq!(machine.cell(0), Some(0));
    assert_eq!(machine.step(Some('A')), Ok(Action::Continue));
    assert_eq!(machine.cell(0), Some(65));
    assert_eq!(machine.instruction_pointer(), 1);
    assert!(!machine.awaits_input());
}

#[test]
fn input_replaces_what_the_cell_held() {
    let mut machine = Machine::new("+++,");
    let run = machine.run(&vec!['\u{1}'], 10);
    assert_eq!(run.fault, None);
    assert_eq!(run.consumed, 1);
    assert_eq!(machine.cell(0), Some(1));
}

#[test]
fn input_up_to_255_is_stored() {
    let mut machine = Machine::new(",");
    assert_eq!(machine.step(Some('\u{ff}')), Ok(Action::Continue));
    assert_eq!(machine.cell(0), Some(255));
}

#[test]
fn input_above_255_fails() {
    let mut machine = Machine::new("+,");
    machine.run(&no_input(), 1);
    assert_eq!(
        machine.step(Some('\u{100}')),
        Err(BfError::InputOverflow { position: 1 })
    );
    assert_eq!(
        BfError::InputOverflow { position: 1 }.kind(),
        ErrorKind::OverflowError
    );
    assert_eq!(machine.cell(0), Some(1));
    assert_eq!(machine.instruction_pointer(), 1);
}

#[test]
fn input_offered_to_another_instruction_is_not_used() {
    let mut machine = Machine::new("+");
    assert_eq!(machine.step(Some('x')), Ok(Action::Continue));
    assert_eq!(machine.cell(0), Some(1));
}

#[test]
fn echo_shows_what_was_read() {
    let result = execute_code(",.", true, &vec!['A'], 100);
    assert_eq!(result.fault, None);
    assert!(result.completed);
    assert_eq!(result.output, vec!['A']);
    assert!(!result.no_output);
    assert_eq!(
        result.memory,
        Some(MemoryReport { cells: vec![(0, 65)], pointer: 0 })
    );
    let mut machine = Machine::new(",.");
    let run = machine.run(&vec!['A'], 100);
    assert_eq!(run.output, vec!['A']);
    assert_eq!(run.consumed, 1);
    assert_eq!(machine.cell(0), Some(65));
}

#[test]
fn unrecognised_character_fails_when_it_is_reached() {
    let mut machine = Machine::new("+a");
    assert_eq!(machine.step(None), Ok(Action::Continue));
    assert_eq!(
        machine.step(None),
        Err(BfError::UnrecognisedCharacter { position: 1, character: 'a' })
    );
    assert_eq!(machine.cell(0), Some(1));
    let result = execute_code("+.a", false, &no_input(), 100);
    assert_eq!(result.output, vec!['\u{1}']);
    assert_eq!(
        result.fault,
        Some(BfError::UnrecognisedCharacter { position: 2, character: 'a' })
    );
    assert_eq!(result.fault.unwrap().kind(), ErrorKind::SyntaxError);
}

#[test]
fn program_without_output_gets_the_notice() {
    let result = execute_code("+", false, &no_input(), 100);
    assert_eq!(result.fault, None);
    assert!(result.completed);
    assert!(result.output.is_empty());
    assert!(result.no_output);
    assert_eq!(result.memory, None);
    assert_eq!(NO_OUTPUT_NOTICE, "No output provided.");
}

#[test]
fn program_with_output_gets_no_notice() {
    let result = execute_code(".", false, &no_input(), 100);
    assert!(result.completed);
    assert!(!result.no_output);
    assert_eq!(result.output, vec!['\u{0}']);
}

#[test]
fn output_instruction_that_never_runs_does_not_count() {
    let result = execute_code("+[-]+[-.]", false, &no_input(), 1_000);
    assert!(result.completed);
    assert_eq!(result.output, vec!['\u{0}']);
    let skipped = execute_code("-.", false, &no_input(), 1_000);
    assert_eq!(skipped.fault, Some(BfError::CellUnderflow));
    assert!(!skipped.no_output);
}

#[test]
fn memory_report_lists_the_cell_that_was_set() {
    let result = execute_code(">>>>>>>>>>+++++++", true, &no_input(), 1_000);
    assert!(result.completed);
    assert_eq!(
        result.memory,
        Some(MemoryReport { cells: vec![(10, 7)], pointer: 10 })
    );
}

#[test]
fn memory_report_gives_the_pointer_where_it_stands() {
    let result = execute_code(">>>>>>>>>>+++++++<<<<", true, &no_input(), 1_000);
    assert_eq!(
        result.memory,
        Some(MemoryReport { cells: vec![(10, 7)], pointer: 6 })
    );
}

#[test]
fn memory_report_lists_cells_in_ascending_order() {
    let mut machine = Machine::new(">>+++<<+>>>>++>");
    machine.run(&no_input(), 1_000);
    assert_eq!(
        machine.memory_report(),
        MemoryReport { cells: vec![(0, 1), (2, 3), (4, 2)], pointer: 5 }
    );
    assert_eq!(machine.furthest_pointer(), 5);
}

#[test]
fn memory_report_leaves_out_cells_that_went_back_to_zero() {
    let mut machine = Machine::new("+>+>+<-");
    machine.run(&no_input(), 1_000);
    assert_eq!(
        machine.memory_report(),
        MemoryReport { cells: vec![(0, 1), (2, 1)], pointer: 1 }
    );
}

#[test]
fn memory_report_of_an_untouched_machine_is_empty() {
    let machine = Machine::new("");
    assert_eq!(
        machine.memory_report(),
        MemoryReport { cells: vec![], pointer: 0 }
    );
}

#[test]
fn memory_report_is_given_only_when_asked_for() {
    let result = execute_code("+", false, &no_input(), 100);
    assert_eq!(result.memory, None);
    let faulty = execute_code("+<", true, &no_input(), 100);
    assert_eq!(faulty.fault, Some(BfError::LeftBound));
    assert_eq!(faulty.memory, None);
}

#[test]
fn fault_in_the_text_ends_the_execution_before_it_starts() {
    let result = execute_code(".[", true, &no_input(), 100);
    assert_eq!(result.fault, Some(BfError::UnterminatedLoop { position: 1 }));
    assert!(result.output.is_empty());
    assert!(!result.completed);
    assert!(!result.no_output);
    assert_eq!(result.memory, None);
}

#[test]
fn output_before_a_fault_is_kept() {
    let result = execute_code("+.+.<", false, &no_input(), 100);
    assert_eq!(result.output, vec!['\u{1}', '\u{2}']);
    assert_eq!(result.fault, Some(BfError::LeftBound));
    assert!(!result.completed);
}

#[test]
fn run_stops_when_the_steps_are_used_up() {
    let mut machine = Machine::new("+++");
    let run = machine.run(&no_input(), 2);
    assert_eq!(run.fault, None);
    assert!(!machine.finished());
    assert_eq!(machine.cell(0), Some(2));
    let result = execute_code("+[]", true, &no_input(), 1_000);
    assert_eq!(result.fault, None);
    assert!(!result.completed);
    assert!(!result.no_output);
    assert_eq!(result.memory, None);
}

#[test]
fn run_of_no_steps_changes_nothing() {
    let mut machine = Machine::new("+.");
    let run = machine.run(&no_input(), 0);
    assert!(run.output.is_empty());
    assert_eq!(run.consumed, 0);
    assert_eq!(run.fault, None);
    assert_eq!(machine.instruction_pointer(), 0);
    assert_eq!(machine.cell(0), Some(0));
}

#[test]
fn run_in_two_parts_is_the_run_in_one() {
    let code = ",.+.,.[-]";
    let input = vec!['a', 'b'];
    let mut whole = Machine::new(code);
    let all = whole.run(&input, 8);
    let mut parts = Machine::new(code);
    let head = parts.run(&input, 3);
    let left: Vec<char> = input[head.consumed..].to_vec();
    let tail = parts.run(&left, 5);
    let mut output = head.output.clone();
    output.extend(tail.output.iter());
    assert_eq!(all.output, vec!['a', 'b', 'b']);
    assert_eq!(output, all.output);
    assert_eq!(head.consumed + tail.consumed, all.consumed);
    assert_eq!(tail.fault, all.fault);
    assert_eq!(parts.instruction_pointer(), whole.instruction_pointer());
    assert_eq!(parts.cell(0), whole.cell(0));
}

#[test]
fn run_stops_when_the_input_is_used_up() {
    let mut machine = Machine::new(",.,.");
    let run = machine.run(&vec!['x'], 100);
    assert_eq!(run.output, vec!['x']);
    assert_eq!(run.consumed, 1);
    assert_eq!(run.fault, None);
    assert!(!machine.finished());
    assert!(machine.awaits_input());
    assert_eq!(machine.instruction_pointer(), 2);
    let more = machine.run(&vec!['y', 'z'], 100);
    assert_eq!(more.output, vec!['y']);
    assert_eq!(more.consumed, 1);
    assert!(machine.finished());
}

#[test]
fn run_counts_the_input_it_read() {
    let mut machine = Machine::new(",,.");
    let run = machine.run(&vec!['a', 'b', 'c'], 100);
    assert_eq!(run.consumed, 2);
    assert_eq!(run.output, vec!['b']);
}

#[test]
fn whitespace_and_comments_do_not_change_the_execution() {
    let plain = execute_code("++[>+++<-]>.", true, &no_input(), 1_000);
    let dressed = execute_code(
        "++ // two\n[ > +++ /* three each */ < - ]\n> . // show\n",
        true,
        &no_input(),
        1_000,
    );
    assert_eq!(plain.output, vec!['\u{6}']);
    assert_eq!(dressed, plain);
}

#[test]
fn program_computes_a_letter() {
    let result = execute_code("++++++++[>++++++++<-]>+.", true, &no_input(), 10_000);
    assert_eq!(result.output, vec!['A']);
    assert!(result.completed);
    assert!(!result.no_output);
    assert_eq!(
        result.memory,
        Some(MemoryReport { cells: vec![(1, 65)], pointer: 1 })
    );
}
