use porrs::error::{ErrorKind, SimulationError};
use porrs::simulate::{simulate, simulate_bounded, WarningKind};
use porrs::op::Intrinsic;
use porrs::program::FilePosition;
use porrs::Program;

fn lines(src: &str) -> Vec<Vec<u8>> {
    src.split_inclusive('\n').map(|l| l.as_bytes().to_vec()).collect()
}

fn program(src: &str) -> Program {
    Program::from_lines(String::from("test.porth"), lines(src)).expect("program should parse")
}

fn output_lines(src: &str) -> Vec<String> {
    let (result, machine) = simulate_bounded(&program(src), 1_000_000);
    assert!(result.is_ok(), "program should run to completion");
    machine
        .output
        .iter()
        .map(|l| String::from_utf8(l.clone()).unwrap())
        .collect()
}

fn final_stack(src: &str) -> Vec<u64> {
    let (result, machine) = simulate_bounded(&program(src), 1_000_000);
    assert!(result.is_ok(), "program should run to completion");
    machine.stack.0
}

#[test]
fn if_with_empty_stack_underflows() {
    let (result, _) = simulate_bounded(&program("if drop end"), 1_000);
    let err = result.unwrap_err();
    assert!(matches!(
        err.kind,
        ErrorKind::Simulation(SimulationError::StackUnderflow)
    ));
    let loc = err.loc.expect("error should carry the if's location");
    assert_eq!(loc.pos, Some(FilePosition { line: 1, col: 1 }));
}

#[test]
fn dup_plus_doubles() {
    assert_eq!(final_stack("5 dup +"), vec![10]);
}

#[test]
fn dup_plus_wraps_with_warning() {
    // 2 * 2^63 == 2^64: wraps to zero and records the overflow event.
    let (result, machine) = simulate_bounded(&program("9223372036854775808 dup +"), 1_000);
    assert!(result.is_ok());
    assert_eq!(machine.stack.0, vec![0]);
    assert_eq!(machine.warnings.len(), 1);
    assert_eq!(
        machine.warnings[0].kind,
        WarningKind::Overflow(Intrinsic::Plus)
    );
}

#[test]
fn dup_plus_in_range_warns_nothing() {
    let (result, machine) = simulate_bounded(&program("9223372036854775807 dup +"), 1_000);
    assert!(result.is_ok());
    assert_eq!(machine.stack.0, vec![18446744073709551614]);
    assert!(machine.warnings.is_empty());
}

#[test]
fn swap_print_print_order() {
    assert_eq!(
        output_lines("5 3 swap print print"),
        vec!["5 (0x0000000000000005)", "3 (0x0000000000000003)"]
    );
}

#[test]
fn divmod_prints_remainder_then_quotient() {
    assert_eq!(
        output_lines("10 3 divmod print print"),
        vec!["1 (0x0000000000000001)", "3 (0x0000000000000003)"]
    );
}

#[test]
fn rot_rotates_top_three() {
    assert_eq!(final_stack("1 2 3 rot"), vec![2, 3, 1]);
}

#[test]
fn over_duplicates_second() {
    assert_eq!(final_stack("1 2 over"), vec![1, 2, 1]);
}

#[test]
fn drop_discards_top() {
    assert_eq!(final_stack("1 2 drop"), vec![1]);
}

#[test]
fn subtract_wraps_under_zero_with_warning() {
    let (result, machine) = simulate_bounded(&program("0 1 -"), 1_000);
    assert!(result.is_ok());
    assert_eq!(machine.stack.0, vec![u64::MAX]);
    assert_eq!(machine.warnings.len(), 1);
    assert_eq!(
        machine.warnings[0].kind,
        WarningKind::Overflow(Intrinsic::Subtract)
    );
}

#[test]
fn multiply_wraps_silently() {
    // 2^63 * 2 == 2^64: wraps to zero with no observability event.
    let (result, machine) = simulate_bounded(&program("9223372036854775808 2 *"), 1_000);
    assert!(result.is_ok());
    assert_eq!(machine.stack.0, vec![0]);
    assert!(machine.warnings.is_empty());
}

#[test]
fn divide_by_zero_is_fatal() {
    let (result, _) = simulate_bounded(&program("1 0 divmod"), 1_000);
    let err = result.unwrap_err();
    assert!(matches!(
        err.kind,
        ErrorKind::Simulation(SimulationError::DivideByZero)
    ));
    let loc = err.loc.expect("error should carry the divmod's location");
    assert_eq!(loc.pos, Some(FilePosition { line: 1, col: 5 }));
}

#[test]
fn endless_while_hits_the_step_limit() {
    // The condition is stuck at 1 forever; only the step budget stops it.
    let (result, _) = simulate_bounded(&program("while 1 do end"), 1_000);
    let err = result.unwrap_err();
    assert!(matches!(
        err.kind,
        ErrorKind::Simulation(SimulationError::StepLimit)
    ));
    let loc = err.loc.expect("error should carry the while's location");
    assert_eq!(loc.pos, Some(FilePosition { line: 1, col: 1 }));
}

#[test]
fn while_counts_down() {
    assert_eq!(
        output_lines("5 while dup do dup print 1 - end"),
        vec![
            "5 (0x0000000000000005)",
            "4 (0x0000000000000004)",
            "3 (0x0000000000000003)",
            "2 (0x0000000000000002)",
            "1 (0x0000000000000001)"
        ]
    );
    assert_eq!(final_stack("5 while dup do dup print 1 - end"), vec![0]);
}

#[test]
fn if_true_runs_if_block() {
    assert_eq!(output_lines("1 if 10 print end"), vec!["10 (0x000000000000000a)"]);
}

#[test]
fn if_false_skips_if_block() {
    let out = output_lines("0 if 10 print end");
    assert!(out.is_empty());
}

#[test]
fn if_false_runs_else_block() {
    assert_eq!(
        output_lines("0 if 10 print else 30 print end"),
        vec!["30 (0x000000000000001e)"]
    );
}

#[test]
fn first_true_if_star_wins() {
    assert_eq!(
        output_lines("0 if 10 print else 1 if* 20 print else 1 if* 30 print end"),
        vec!["20 (0x0000000000000014)"]
    );
}

#[test]
fn else_runs_when_no_if_star_matches() {
    assert_eq!(
        output_lines("0 if 10 print else 0 if* 20 print else 30 print end"),
        vec!["30 (0x000000000000001e)"]
    );
}

#[test]
fn non_binary_condition_warns_and_counts_as_true() {
    let (result, machine) = simulate_bounded(&program("2 if 7 print end"), 1_000);
    assert!(result.is_ok());
    assert_eq!(machine.warnings.len(), 1);
    assert_eq!(machine.warnings[0].kind, WarningKind::NonBinaryCondition(2));
    assert_eq!(machine.warnings[0].loc.pos, Some(FilePosition { line: 1, col: 3 }));
    assert_eq!(machine.output.len(), 1);
}

#[test]
fn print_pads_hex_to_sixteen_digits() {
    assert_eq!(output_lines("0 print"), vec!["0 (0x0000000000000000)"]);
    assert_eq!(output_lines("70 print"), vec!["70 (0x0000000000000046)"]);
    assert_eq!(
        output_lines("18446744073709551615 print"),
        vec!["18446744073709551615 (0xffffffffffffffff)"]
    );
}

#[test]
fn simulate_reports_the_first_fault() {
    let err = simulate(&program("drop")).unwrap_err();
    assert!(matches!(
        err.kind,
        ErrorKind::Simulation(SimulationError::StackUnderflow)
    ));
}

#[test]
fn empty_program_runs_to_completion() {
    assert!(simulate(&program("")).is_ok());
    assert!(final_stack("// a comment only\n").is_empty());
}

#[test]
fn stack_pops_in_reverse_order_of_pushes() {
    let mut stack = porrs::simulate::Stack::new();
    stack.push(1);
    stack.push(2);
    assert_eq!(stack.pop().unwrap(), 2);
    assert_eq!(stack.pop().unwrap(), 1);
    let err = stack.pop().unwrap_err();
    assert!(matches!(
        err.kind,
        ErrorKind::Simulation(SimulationError::StackUnderflow)
    ));
    assert!(err.loc.is_none());
}
