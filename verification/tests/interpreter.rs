use tapevm::command_opt::parse;
use tapevm::vm::RunStatus;
use tapevm::vm::RuntimeError;
use tapevm::vm::run;

const FUEL: u64 = 1_000_000;

#[test]
fn outputs_incremented_cell() {
    let prg = parse("++.").unwrap();
    let (m, status) = run(&prg, Vec::new(), FUEL);
    assert_eq!(status, RunStatus::Halted);
    assert_eq!(m.out, vec![2u8]);
}

#[test]
fn zero_loop_never_iterates() {
    let prg = parse("+[-]").unwrap();
    let (m, status) = run(&prg, Vec::new(), FUEL);
    assert_eq!(status, RunStatus::Halted);
    assert_eq!(m.tape[0], 0);
    assert_eq!(m.out, Vec::<u8>::new());
}

#[test]
fn pointer_moves_leave_origin_untouched() {
    let prg = parse(">>+<<.").unwrap();
    let (m, status) = run(&prg, Vec::new(), FUEL);
    assert_eq!(status, RunStatus::Halted);
    assert_eq!(m.out, vec![0u8]);
    assert_eq!(m.tape[2], 1);
}

#[test]
fn copy_loop_moves_value_one_cell_right() {
    let prg = parse("+[>+<-]").unwrap();
    let (m, status) = run(&prg, Vec::new(), FUEL);
    assert_eq!(status, RunStatus::Halted);
    assert_eq!(m.tape[0], 0);
    assert_eq!(m.tape[1], 1);
}

#[test]
fn cell_wraps_up_from_255() {
    let code = format!("{}><+.", "+".repeat(255));
    let prg = parse(&code).unwrap();
    let (m, status) = run(&prg, Vec::new(), FUEL);
    assert_eq!(status, RunStatus::Halted);
    assert_eq!(m.out, vec![0u8]);
}

#[test]
fn cell_wraps_down_from_0() {
    let prg = parse("-.").unwrap();
    let (m, status) = run(&prg, Vec::new(), FUEL);
    assert_eq!(status, RunStatus::Halted);
    assert_eq!(m.out, vec![255u8]);
}

#[test]
fn tape_grows_to_head_with_zeroed_cells() {
    let prg = parse(">>>").unwrap();
    let (m, status) = run(&prg, Vec::new(), FUEL);
    assert_eq!(status, RunStatus::Halted);
    assert!(m.tape.len() >= 4);
    assert_eq!(m.head, 3);
    assert!(m.tape.iter().all(|&b| b == 0));
}

#[test]
fn moving_below_zero_underflows() {
    let prg = parse("<").unwrap();
    let (_, status) = run(&prg, Vec::new(), FUEL);
    assert_eq!(status, RunStatus::Failed(RuntimeError::PointerUnderflow));
}

#[test]
fn underflow_executes_nothing_further() {
    let prg = parse("+.<.").unwrap();
    let (m, status) = run(&prg, Vec::new(), FUEL);
    assert_eq!(status, RunStatus::Failed(RuntimeError::PointerUnderflow));
    // the output already produced stands; the second output never ran
    assert_eq!(m.out, vec![1u8]);
}

#[test]
fn input_byte_lands_in_current_cell() {
    let prg = parse(",.").unwrap();
    let (m, status) = run(&prg, vec![65], FUEL);
    assert_eq!(status, RunStatus::Halted);
    assert_eq!(m.out, vec![65u8]);
}

#[test]
fn exhausted_input_reads_as_zero() {
    let prg = parse("+,.").unwrap();
    let (m, status) = run(&prg, Vec::new(), FUEL);
    assert_eq!(status, RunStatus::Halted);
    assert_eq!(m.out, vec![0u8]);
}

#[test]
fn input_is_consumed_in_order() {
    let prg = parse(",.,.,.").unwrap();
    let (m, status) = run(&prg, vec![7, 8], FUEL);
    assert_eq!(status, RunStatus::Halted);
    assert_eq!(m.out, vec![7u8, 8, 0]);
}

#[test]
fn spinning_loop_runs_out_of_fuel() {
    let prg = parse("+[]").unwrap();
    let (_, status) = run(&prg, Vec::new(), 100);
    assert_eq!(status, RunStatus::OutOfFuel);
}

#[test]
fn infinite_loop_idiom_never_advances() {
    let prg = parse("+[++]").unwrap();
    let (m, status) = run(&prg, Vec::new(), 100);
    assert_eq!(status, RunStatus::OutOfFuel);
    assert_eq!(m.tape[0], 1);
}

#[test]
fn zero_fuel_stops_at_once() {
    let prg = parse("+").unwrap();
    let (m, status) = run(&prg, Vec::new(), 0);
    assert_eq!(status, RunStatus::OutOfFuel);
    assert_eq!(m.tape[0], 0);
}

#[test]
fn empty_program_halts() {
    let prg = parse("").unwrap();
    let (m, status) = run(&prg, Vec::new(), FUEL);
    assert_eq!(status, RunStatus::Halted);
    assert_eq!(m.out, Vec::<u8>::new());
    assert_eq!(m.tape, vec![0u8]);
}

#[test]
fn hello_style_nested_loops_run() {
    // writes 65 ('A') into cell 1 through a multiplication loop
    let prg = parse("+++++[>+++++++++++++<-]>.").unwrap();
    let (m, status) = run(&prg, Vec::new(), FUEL);
    assert_eq!(status, RunStatus::Halted);
    assert_eq!(m.out, vec![65u8]);
}
