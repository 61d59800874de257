use rustedbrain::program::Program;
use rustedbrain::runtime::{ProgramRuntime, ProgramRuntimeError, ProgramRuntimeStatus, PROGRAM_MEMORY};

fn load(src: &[u8]) -> Program {
    Program::new(&src.to_vec()).unwrap()
}

/// Runs to the end, feeding `input` to input instructions; returns the output.
fn run(rt: &mut ProgramRuntime, p: &Program, input: &[u8]) -> Result<Vec<u8>, ProgramRuntimeError> {
    let mut out = Vec::new();
    let mut next_in = 0;
    loop {
        let byte = if rt.needs_input(p) {
            next_in += 1;
            input.get(next_in - 1).copied()
        } else {
            None
        };
        match rt.step(p, byte)? {
            ProgramRuntimeStatus::EndOfProgram => return Ok(out),
            ProgramRuntimeStatus::OutputAtPC(_, v) => out.push(v),
            ProgramRuntimeStatus::RanInstructionAtPC(_) => {}
        }
    }
}

#[test]
fn new_runtime_is_zeroed() {
    let rt = ProgramRuntime::new();
    assert_eq!(rt.pc(), 0);
    assert_eq!(rt.mem_ptr(), 0);
    assert_eq!(rt.read_mem(0), Ok(0));
    assert_eq!(rt.read_mem(PROGRAM_MEMORY - 1), Ok(0));
    assert_eq!(rt.read_mem(PROGRAM_MEMORY), Err(ProgramRuntimeError::ReadAccessViolation));
}

#[test]
fn empty_program_ends_at_once() {
    let p = load(b"no instructions here");
    let mut rt = ProgramRuntime::new();
    assert_eq!(rt.step(&p, None), Ok(ProgramRuntimeStatus::EndOfProgram));
    assert_eq!(rt.pc(), 0);
    assert_eq!(rt.mem_ptr(), 0);
    assert_eq!(rt.read_mem_at_ptr(), Ok(0));
    assert_eq!(rt.step(&p, None), Ok(ProgramRuntimeStatus::EndOfProgram));
}

#[test]
fn three_increments_then_output_emit_three() {
    let p = load(b"+++.");
    let mut rt = ProgramRuntime::new();
    assert_eq!(run(&mut rt, &p, &[]), Ok(vec![3]));
}

#[test]
fn output_status_names_index_and_byte() {
    let p = load(b"++.");
    let mut rt = ProgramRuntime::new();
    assert_eq!(rt.step(&p, None), Ok(ProgramRuntimeStatus::RanInstructionAtPC(0)));
    assert_eq!(rt.step(&p, None), Ok(ProgramRuntimeStatus::RanInstructionAtPC(1)));
    assert_eq!(rt.step(&p, None), Ok(ProgramRuntimeStatus::OutputAtPC(2, 2)));
    assert_eq!(rt.step(&p, None), Ok(ProgramRuntimeStatus::EndOfProgram));
}

#[test]
fn input_round_trips_through_a_cell() {
    let p = load(b",.");
    let mut rt = ProgramRuntime::new();
    assert!(rt.needs_input(&p));
    assert_eq!(rt.step(&p, Some(65)), Ok(ProgramRuntimeStatus::RanInstructionAtPC(0)));
    assert!(!rt.needs_input(&p));
    assert_eq!(rt.step(&p, None), Ok(ProgramRuntimeStatus::OutputAtPC(1, 65)));
}

#[test]
fn missing_input_is_a_fault_that_changes_nothing() {
    let p = load(b"+,");
    let mut rt = ProgramRuntime::new();
    rt.step(&p, None).unwrap();
    assert_eq!(rt.step(&p, None), Err(ProgramRuntimeError::InputUnavailable));
    assert_eq!(rt.pc(), 1);
    assert_eq!(rt.read_mem(0), Ok(1));
}

#[test]
fn input_ignored_by_other_instructions() {
    let p = load(b"+");
    let mut rt = ProgramRuntime::new();
    rt.step(&p, Some(9)).unwrap();
    assert_eq!(rt.read_mem(0), Ok(1));
}

#[test]
fn single_pass_loop_terminates_with_zero_cell() {
    let p = load(b"+[-]");
    let mut rt = ProgramRuntime::new();
    let mut steps = 0;
    loop {
        match rt.step(&p, None).unwrap() {
            ProgramRuntimeStatus::EndOfProgram => break,
            _ => steps += 1,
        }
        assert!(steps < 100);
    }
    // `+`, `[`, `-`, `]`: the body runs once
    assert_eq!(steps, 4);
    assert_eq!(rt.read_mem(0), Ok(0));
}

#[test]
fn loop_over_zero_cell_is_skipped() {
    let p = load(b"[+]+");
    let mut rt = ProgramRuntime::new();
    assert_eq!(rt.step(&p, None), Ok(ProgramRuntimeStatus::RanInstructionAtPC(0)));
    assert_eq!(rt.pc(), 3);
    run(&mut rt, &p, &[]).unwrap();
    assert_eq!(rt.read_mem(0), Ok(1));
}

#[test]
fn loop_end_jumps_back_past_start() {
    let p = load(b"++[-]");
    let mut rt = ProgramRuntime::new();
    for _ in 0..4 {
        rt.step(&p, None).unwrap();
    }
    assert_eq!(rt.pc(), 4);
    assert_eq!(rt.step(&p, None), Ok(ProgramRuntimeStatus::RanInstructionAtPC(4)));
    assert_eq!(rt.pc(), 3);
}

#[test]
fn nested_loops_multiply() {
    // 3 * 4 into the second cell, then output it
    let p = load(b"+++[>++++<-]>.");
    let mut rt = ProgramRuntime::new();
    assert_eq!(run(&mut rt, &p, &[]), Ok(vec![12]));
}

#[test]
fn echo_program_copies_input() {
    let p = load(b",[.,]");
    let mut rt = ProgramRuntime::new();
    assert_eq!(run(&mut rt, &p, b"hi\0"), Ok(b"hi".to_vec()));
}

#[test]
fn moving_past_last_cell_then_writing_faults() {
    let mut src = vec![b'>'; PROGRAM_MEMORY - 1];
    src.extend_from_slice(b">+");
    let p = load(&src);
    let mut rt = ProgramRuntime::new();
    for _ in 0..PROGRAM_MEMORY - 1 {
        rt.step(&p, None).unwrap();
    }
    assert_eq!(rt.mem_ptr(), PROGRAM_MEMORY - 1);
    assert_eq!(rt.inc_mem_at_ptr(), Ok(1));
    rt.step(&p, None).unwrap();
    assert_eq!(rt.mem_ptr(), PROGRAM_MEMORY);
    assert_eq!(rt.step(&p, None), Err(ProgramRuntimeError::WriteAccessViolation));
    assert_eq!(rt.pc(), PROGRAM_MEMORY);
}

#[test]
fn moving_past_last_cell_then_reading_faults() {
    let mut src = vec![b'>'; PROGRAM_MEMORY];
    src.push(b'.');
    let p = load(&src);
    let mut rt = ProgramRuntime::new();
    assert_eq!(run(&mut rt, &p, &[]), Err(ProgramRuntimeError::ReadAccessViolation));
    assert_eq!(rt.mem_ptr(), PROGRAM_MEMORY);
}

#[test]
fn loop_test_past_last_cell_is_a_read_fault() {
    let mut src = vec![b'>'; PROGRAM_MEMORY];
    src.extend_from_slice(b"[]");
    let p = load(&src);
    let mut rt = ProgramRuntime::new();
    assert_eq!(run(&mut rt, &p, &[]), Err(ProgramRuntimeError::ReadAccessViolation));
}

#[test]
fn input_past_last_cell_is_a_write_fault() {
    let mut src = vec![b'>'; PROGRAM_MEMORY];
    src.push(b',');
    let p = load(&src);
    let mut rt = ProgramRuntime::new();
    assert_eq!(run(&mut rt, &p, b"a"), Err(ProgramRuntimeError::WriteAccessViolation));
}

#[test]
fn pointer_left_of_zero_wraps_and_faults_on_access() {
    let p = load(b"<-");
    let mut rt = ProgramRuntime::new();
    rt.step(&p, None).unwrap();
    assert_eq!(rt.mem_ptr(), usize::MAX);
    assert_eq!(rt.step(&p, None), Err(ProgramRuntimeError::WriteAccessViolation));
    assert_eq!(rt.read_mem_at_ptr(), Err(ProgramRuntimeError::ReadAccessViolation));
    assert_eq!(rt.dec_mem_at_ptr(), Err(ProgramRuntimeError::WriteAccessViolation));
    assert_eq!(rt.write_mem_at_ptr(1), Err(ProgramRuntimeError::WriteAccessViolation));
}

#[test]
fn increment_of_255_wraps_to_zero() {
    let mut rt = ProgramRuntime::new();
    assert_eq!(rt.write_mem_at_ptr(255), Ok(()));
    assert_eq!(rt.inc_mem_at_ptr(), Ok(0));
    assert_eq!(rt.read_mem_at_ptr(), Ok(0));
}

#[test]
fn decrement_of_zero_wraps_to_255() {
    let p = load(b"-.");
    let mut rt = ProgramRuntime::new();
    assert_eq!(run(&mut rt, &p, &[]), Ok(vec![255]));
    assert_eq!(rt.dec_mem_at_ptr(), Ok(254));
}

#[test]
fn two_hundred_fifty_six_increments_return_to_zero() {
    let p = load(&vec![b'+'; 256]);
    let mut rt = ProgramRuntime::new();
    run(&mut rt, &p, &[]).unwrap();
    assert_eq!(rt.read_mem(0), Ok(0));
}

#[test]
fn write_mem_stores_in_bounds_only() {
    let mut rt = ProgramRuntime::new();
    assert_eq!(rt.write_mem(7, 42), Ok(()));
    assert_eq!(rt.read_mem(7), Ok(42));
    assert_eq!(rt.read_mem(6), Ok(0));
    assert_eq!(rt.write_mem(PROGRAM_MEMORY, 1), Err(ProgramRuntimeError::WriteAccessViolation));
}
