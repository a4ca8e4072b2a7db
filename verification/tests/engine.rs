use toyasm::engine::{advance, run_line, run_lines, step, Report, Status};
use toyasm::fault::ErrorKind;
use toyasm::memory::{get_val, istore, Memory};
use toyasm::program::{load, Instruction, Opcode};

fn instruction(opcode: Opcode, operands: &[&str]) -> Instruction {
    Instruction { opcode, operands: operands.iter().map(|s| s.to_string()).collect() }
}

fn execute(source: &str, max_steps: u64) -> (Report, Memory) {
    let program = load(source).unwrap();
    let mut mem = Memory::new();
    let report = run_lines(&program, &mut mem, max_steps);
    (report, mem)
}

#[test]
fn run_line_computes_and_stores() {
    let mut mem = Memory::new();
    istore("x", &10, &mut mem);
    assert_eq!(run_line(&instruction(Opcode::Iadd, &["x", "5", "r"]), &mut mem), Ok(None));
    assert_eq!(get_val("r", &mem), Ok(15));
    assert_eq!(run_line(&instruction(Opcode::Imul, &["r", "r", "r"]), &mut mem), Ok(None));
    assert_eq!(get_val("r", &mem), Ok(225));
    assert_eq!(run_line(&instruction(Opcode::Isub, &["x", "r", "d"]), &mut mem), Ok(None));
    assert_eq!(get_val("d", &mem), Ok(-215));
    assert_eq!(run_line(&instruction(Opcode::Idiv, &["d", "10", "q"]), &mut mem), Ok(None));
    assert_eq!(get_val("q", &mem), Ok(-21));
    assert_eq!(get_val("x", &mem), Ok(10));
}

#[test]
fn run_line_compares() {
    let mut mem = Memory::new();
    let cases = [
        (Opcode::Equ, "3", "3", 1),
        (Opcode::Equ, "3", "4", 0),
        (Opcode::Le, "3", "4", 1),
        (Opcode::Le, "3", "3", 0),
        (Opcode::Gr, "4", "3", 1),
        (Opcode::Gr, "3", "3", 0),
        (Opcode::Leq, "3", "3", 1),
        (Opcode::Leq, "4", "3", 0),
        (Opcode::Geq, "3", "3", 1),
        (Opcode::Geq, "2", "3", 0),
    ];
    for (opcode, a, b, expected) in cases {
        assert_eq!(run_line(&instruction(opcode, &[a, b, "r"]), &mut mem), Ok(None));
        assert_eq!(get_val("r", &mem), Ok(expected));
    }
}

#[test]
fn the_destination_is_a_name_even_if_it_looks_like_a_number() {
    let mut mem = Memory::new();
    assert_eq!(run_line(&instruction(Opcode::Iadd, &["2", "3", "9"]), &mut mem), Ok(None));
    assert_eq!(get_val("9", &mem), Ok(5));
    assert_eq!(run_line(&instruction(Opcode::Assign, &["4", "8"]), &mut mem), Ok(None));
    assert_eq!(get_val("8", &mem), Ok(4));
    assert_eq!(run_line(&instruction(Opcode::Out, &["8"]), &mut mem), Ok(Some(4)));
    assert_eq!(run_line(&instruction(Opcode::Out, &["7"]), &mut mem), Err(ErrorKind::UndefinedVariable));
}

#[test]
fn run_line_sets_emits_and_frees() {
    let mut mem = Memory::new();
    assert_eq!(run_line(&instruction(Opcode::Assign, &["5", "x"]), &mut mem), Ok(None));
    assert_eq!(run_line(&instruction(Opcode::Assign, &["x", "y"]), &mut mem), Ok(None));
    assert_eq!(run_line(&instruction(Opcode::Out, &["y"]), &mut mem), Ok(Some(5)));
    assert_eq!(mem.len(), 2);
    assert_eq!(run_line(&instruction(Opcode::Free, &["x"]), &mut mem), Ok(None));
    assert_eq!(run_line(&instruction(Opcode::Free, &["x"]), &mut mem), Ok(None));
    assert_eq!(run_line(&instruction(Opcode::Out, &["x"]), &mut mem), Err(ErrorKind::UndefinedVariable));
    assert_eq!(mem.len(), 1);
}

#[test]
fn jumps_and_comments_have_no_effect_on_the_store() {
    let mut mem = Memory::new();
    istore("x", &1, &mut mem);
    assert_eq!(run_line(&instruction(Opcode::Comment, &["free", "x"]), &mut mem), Ok(None));
    assert_eq!(run_line(&instruction(Opcode::Jmp, &["nowhere"]), &mut mem), Ok(None));
    assert_eq!(run_line(&instruction(Opcode::Jnz, &[]), &mut mem), Ok(None));
    assert_eq!(mem.len(), 1);
    assert_eq!(get_val("x", &mem), Ok(1));
}

#[test]
fn a_fault_leaves_the_store_as_it_was() {
    let mut mem = Memory::new();
    istore("r", &1, &mut mem);
    assert_eq!(run_line(&instruction(Opcode::Idiv, &["5", "0", "r"]), &mut mem), Err(ErrorKind::DivideByZero));
    assert_eq!(run_line(&instruction(Opcode::Iadd, &["2147483647", "1", "r"]), &mut mem), Err(ErrorKind::ArithmeticOverflow));
    assert_eq!(run_line(&instruction(Opcode::Imul, &["65536", "65536", "r"]), &mut mem), Err(ErrorKind::ArithmeticOverflow));
    assert_eq!(run_line(&instruction(Opcode::Isub, &["-2147483648", "1", "r"]), &mut mem), Err(ErrorKind::ArithmeticOverflow));
    assert_eq!(run_line(&instruction(Opcode::Idiv, &["-2147483648", "-1", "r"]), &mut mem), Err(ErrorKind::ArithmeticOverflow));
    assert_eq!(run_line(&instruction(Opcode::Iadd, &["nope", "1", "r"]), &mut mem), Err(ErrorKind::UndefinedVariable));
    assert_eq!(run_line(&instruction(Opcode::Assign, &["nope", "r"]), &mut mem), Err(ErrorKind::UndefinedVariable));
    assert_eq!(get_val("r", &mem), Ok(1));
    assert_eq!(mem.len(), 1);
}

#[test]
fn a_missing_operand_is_a_fault_when_it_is_read() {
    let mut mem = Memory::new();
    assert_eq!(run_line(&instruction(Opcode::Out, &[]), &mut mem), Err(ErrorKind::MissingOperand));
    assert_eq!(run_line(&instruction(Opcode::Free, &[]), &mut mem), Err(ErrorKind::MissingOperand));
    assert_eq!(run_line(&instruction(Opcode::Assign, &["1"]), &mut mem), Err(ErrorKind::MissingOperand));
    assert_eq!(run_line(&instruction(Opcode::Assign, &[]), &mut mem), Err(ErrorKind::MissingOperand));
    assert_eq!(run_line(&instruction(Opcode::Iadd, &[]), &mut mem), Err(ErrorKind::MissingOperand));
    assert_eq!(run_line(&instruction(Opcode::Iadd, &["1"]), &mut mem), Err(ErrorKind::MissingOperand));
    assert_eq!(run_line(&instruction(Opcode::Iadd, &["1", "2"]), &mut mem), Err(ErrorKind::MissingOperand));
    assert_eq!(mem.len(), 0);
}

#[test]
fn the_first_fault_met_is_the_one_reported() {
    let mut mem = Memory::new();
    assert_eq!(run_line(&instruction(Opcode::Idiv, &["5", "0"]), &mut mem), Err(ErrorKind::DivideByZero));
    assert_eq!(run_line(&instruction(Opcode::Idiv, &["nope", "0"]), &mut mem), Err(ErrorKind::UndefinedVariable));
    assert_eq!(run_line(&instruction(Opcode::Idiv, &["nope"]), &mut mem), Err(ErrorKind::UndefinedVariable));
    assert_eq!(run_line(&instruction(Opcode::Assign, &["nope"]), &mut mem), Err(ErrorKind::MissingOperand));
    assert_eq!(run_line(&instruction(Opcode::Iadd, &["2147483647", "1"]), &mut mem), Err(ErrorKind::ArithmeticOverflow));
}

#[test]
fn extra_operands_are_ignored() {
    let mut mem = Memory::new();
    assert_eq!(run_line(&instruction(Opcode::Iadd, &["1", "2", "r", "junk", "more"]), &mut mem), Ok(None));
    assert_eq!(get_val("r", &mem), Ok(3));
    assert_eq!(run_line(&instruction(Opcode::Out, &["r", "junk"]), &mut mem), Ok(Some(3)));
}

#[test]
fn advance_moves_on_by_one_for_all_but_jumps() {
    let mem = Memory::new();
    for opcode in [Opcode::Iadd, Opcode::Out, Opcode::Assign, Opcode::Free, Opcode::Comment, Opcode::Geq] {
        assert_eq!(advance(&instruction(opcode, &[]), 0, 1, &mem), Ok(1));
        assert_eq!(advance(&instruction(opcode, &[]), 4, 9, &mem), Ok(5));
    }
}

#[test]
fn jumps_are_relative_to_the_jump_itself() {
    let mut mem = Memory::new();
    istore("two", &2, &mut mem);
    assert_eq!(advance(&instruction(Opcode::Jmp, &["0"]), 3, 10, &mem), Ok(3));
    assert_eq!(advance(&instruction(Opcode::Jmp, &["1"]), 3, 10, &mem), Ok(4));
    assert_eq!(advance(&instruction(Opcode::Jmp, &["two"]), 3, 10, &mem), Ok(5));
    assert_eq!(advance(&instruction(Opcode::Jmp, &["6"]), 3, 10, &mem), Ok(9));
    assert_eq!(advance(&instruction(Opcode::Jnz, &["1", "two"]), 0, 3, &mem), Ok(2));
}

#[test]
fn a_jump_must_land_on_an_instruction() {
    let mem = Memory::new();
    assert_eq!(advance(&instruction(Opcode::Jmp, &["7"]), 3, 10, &mem), Err(ErrorKind::JumpOutOfBounds));
    assert_eq!(advance(&instruction(Opcode::Jmp, &["1"]), 9, 10, &mem), Err(ErrorKind::JumpOutOfBounds));
    assert_eq!(advance(&instruction(Opcode::Jmp, &["2147483647"]), 0, 10, &mem), Err(ErrorKind::JumpOutOfBounds));
    assert_eq!(advance(&instruction(Opcode::Jnz, &["1", "3"]), 0, 3, &mem), Err(ErrorKind::JumpOutOfBounds));
}

#[test]
fn a_negative_offset_is_out_of_bounds() {
    let mem = Memory::new();
    assert_eq!(advance(&instruction(Opcode::Jmp, &["-1"]), 3, 10, &mem), Err(ErrorKind::JumpOutOfBounds));
    assert_eq!(advance(&instruction(Opcode::Jmp, &["-1"]), 0, 10, &mem), Err(ErrorKind::JumpOutOfBounds));
    assert_eq!(advance(&instruction(Opcode::Jmp, &["-2147483648"]), 5, 10, &mem), Err(ErrorKind::JumpOutOfBounds));
    assert_eq!(advance(&instruction(Opcode::Jnz, &["1", "-2"]), 5, 10, &mem), Err(ErrorKind::JumpOutOfBounds));
}

#[test]
fn a_condition_must_be_zero_or_one() {
    let mut mem = Memory::new();
    istore("c", &2, &mut mem);
    assert_eq!(advance(&instruction(Opcode::Jnz, &["c", "1"]), 0, 3, &mem), Err(ErrorKind::NonBooleanCondition));
    assert_eq!(advance(&instruction(Opcode::Jnz, &["-1", "1"]), 0, 3, &mem), Err(ErrorKind::NonBooleanCondition));
    assert_eq!(advance(&instruction(Opcode::Jnz, &["2"]), 0, 3, &mem), Err(ErrorKind::NonBooleanCondition));
    assert_eq!(advance(&instruction(Opcode::Jnz, &["nope", "1"]), 0, 3, &mem), Err(ErrorKind::UndefinedVariable));
    assert_eq!(advance(&instruction(Opcode::Jnz, &[]), 0, 3, &mem), Err(ErrorKind::MissingOperand));
    assert_eq!(advance(&instruction(Opcode::Jnz, &["1"]), 0, 3, &mem), Err(ErrorKind::MissingOperand));
    assert_eq!(advance(&instruction(Opcode::Jmp, &[]), 0, 3, &mem), Err(ErrorKind::MissingOperand));
    assert_eq!(advance(&instruction(Opcode::Jmp, &["nope"]), 0, 3, &mem), Err(ErrorKind::UndefinedVariable));
}

#[test]
fn a_false_condition_leaves_the_counter_and_reads_no_offset() {
    let mem = Memory::new();
    assert_eq!(advance(&instruction(Opcode::Jnz, &["0", "1"]), 2, 5, &mem), Ok(2));
    assert_eq!(advance(&instruction(Opcode::Jnz, &["0", "nope"]), 2, 5, &mem), Ok(2));
    assert_eq!(advance(&instruction(Opcode::Jnz, &["0", "-9"]), 2, 5, &mem), Ok(2));
    assert_eq!(advance(&instruction(Opcode::Jnz, &["0"]), 2, 5, &mem), Ok(2));
}

#[test]
fn step_executes_the_instruction_at_the_counter() {
    let program = load("set 4 x; out x; jmp 1; // done").unwrap();
    let mut mem = Memory::new();
    assert_eq!(step(&program, 0, &mut mem), Ok((1, None)));
    assert_eq!(step(&program, 1, &mut mem), Ok((2, Some(4))));
    assert_eq!(step(&program, 2, &mut mem), Ok((3, None)));
    assert_eq!(step(&program, 3, &mut mem), Ok((4, None)));
    assert_eq!(get_val("x", &mem), Ok(4));
}

#[test]
fn step_reports_the_fault_and_keeps_the_store() {
    let program = load("set 4 x; idiv x 0 x; jmp -1").unwrap();
    let mut mem = Memory::new();
    assert_eq!(step(&program, 0, &mut mem), Ok((1, None)));
    assert_eq!(step(&program, 1, &mut mem), Err(ErrorKind::DivideByZero));
    assert_eq!(step(&program, 2, &mut mem), Err(ErrorKind::JumpOutOfBounds));
    assert_eq!(get_val("x", &mem), Ok(4));
    assert_eq!(mem.len(), 1);
}

#[test]
fn an_empty_program_halts_at_once() {
    let (report, mem) = execute("", 0);
    assert_eq!(report, Report { status: Status::Halted, pc: 0, output: vec![] });
    assert_eq!(mem.len(), 0);
}

#[test]
fn a_straight_program_halts_past_its_last_instruction() {
    let (report, mem) = execute("set 6 a; set 7 b; imul a b c; out c; out a", 100);
    assert_eq!(report, Report { status: Status::Halted, pc: 5, output: vec![42, 6] });
    assert_eq!(get_val("c", &mem), Ok(42));
    assert_eq!(mem.len(), 3);
}

#[test]
fn a_comment_is_one_step() {
    let (report, _) = execute("// one; // two; set 1 x; // three; out x", 5);
    assert_eq!(report, Report { status: Status::Halted, pc: 5, output: vec![1] });
    let (short, _) = execute("// one; // two; set 1 x; // three; out x", 4);
    assert_eq!(short, Report { status: Status::Running, pc: 4, output: vec![] });
}

#[test]
fn a_true_condition_jumps_forward() {
    let (report, mem) = execute("set 1 a; jnz a 2; out a; set 7 b; out b", 100);
    assert_eq!(report, Report { status: Status::Halted, pc: 5, output: vec![7] });
    assert_eq!(mem.len(), 2);
}

#[test]
fn a_computed_condition_selects_the_branch() {
    let source = "set 3 n; gr n 2 big; jnz big 3; set 0 r; jmp 2; set 1 r; out r";
    let (report, _) = execute(source, 100);
    assert_eq!(report, Report { status: Status::Halted, pc: 7, output: vec![1] });
}

#[test]
fn jmp_one_is_an_ordinary_step() {
    let (report, _) = execute("set 1 x; jmp 1; out x", 100);
    assert_eq!(report, Report { status: Status::Halted, pc: 3, output: vec![1] });
}

#[test]
fn jmp_zero_repeats_itself() {
    let (report, mem) = execute("set 1 x; out x; jmp 0; out x", 1000);
    assert_eq!(report, Report { status: Status::Running, pc: 2, output: vec![1] });
    assert_eq!(get_val("x", &mem), Ok(1));
}

#[test]
fn a_jump_past_the_end_is_a_fault_not_a_halt() {
    let (report, _) = execute("set 1 x; out x; jmp 1", 100);
    assert_eq!(report, Report { status: Status::Faulted(ErrorKind::JumpOutOfBounds), pc: 2, output: vec![1] });
    let (far, _) = execute("jmp 100; out x", 100);
    assert_eq!(far, Report { status: Status::Faulted(ErrorKind::JumpOutOfBounds), pc: 0, output: vec![] });
}

#[test]
fn a_backward_jump_is_a_fault() {
    let (report, _) = execute("set 1 x; out x; jmp -1", 100);
    assert_eq!(report, Report { status: Status::Faulted(ErrorKind::JumpOutOfBounds), pc: 2, output: vec![1] });
    let (conditional, _) = execute("set 1 x; jnz x -1", 100);
    assert_eq!(conditional, Report { status: Status::Faulted(ErrorKind::JumpOutOfBounds), pc: 1, output: vec![] });
}

#[test]
fn a_fault_stops_the_run_and_keeps_earlier_output() {
    let (report, mem) = execute("set 2 x; out x; isub x y z; out x", 100);
    assert_eq!(report, Report { status: Status::Faulted(ErrorKind::UndefinedVariable), pc: 2, output: vec![2] });
    assert_eq!(mem.len(), 1);
    let (overflow, _) = execute("set 2147483647 x; out x; iadd x 1 x; out x", 100);
    assert_eq!(overflow, Report { status: Status::Faulted(ErrorKind::ArithmeticOverflow), pc: 2, output: vec![2147483647] });
    let (condition, _) = execute("set 5 c; jnz c 1; out c", 100);
    assert_eq!(condition, Report { status: Status::Faulted(ErrorKind::NonBooleanCondition), pc: 1, output: vec![] });
    let (missing, _) = execute("set 5 c; out", 100);
    assert_eq!(missing, Report { status: Status::Faulted(ErrorKind::MissingOperand), pc: 1, output: vec![] });
}

#[test]
fn the_budget_bounds_the_steps() {
    let source = "set 1 x; out x; out x; out x";
    let (none, _) = execute(source, 0);
    assert_eq!(none, Report { status: Status::Running, pc: 0, output: vec![] });
    let (two, _) = execute(source, 2);
    assert_eq!(two, Report { status: Status::Running, pc: 2, output: vec![1] });
    let (three, _) = execute(source, 3);
    assert_eq!(three, Report { status: Status::Running, pc: 3, output: vec![1, 1] });
    let (four, _) = execute(source, 4);
    assert_eq!(four, Report { status: Status::Halted, pc: 4, output: vec![1, 1, 1] });
}

#[test]
fn a_fault_on_the_step_after_the_budget_is_not_seen() {
    let (report, _) = execute("set 1 x; out y", 1);
    assert_eq!(report, Report { status: Status::Running, pc: 1, output: vec![] });
    let (longer, _) = execute("set 1 x; out y", 2);
    assert_eq!(longer, Report { status: Status::Faulted(ErrorKind::UndefinedVariable), pc: 1, output: vec![] });
}

#[test]
fn a_halted_run_is_the_same_with_any_larger_budget() {
    let source = "set 3 n; imul n n s; out s; leq s 9 ok; jnz ok 2; out n; out ok";
    let (exact, exact_mem) = execute(source, 6);
    assert_eq!(exact, Report { status: Status::Halted, pc: 7, output: vec![9, 1] });
    for budget in [7, 8, 100, u64::MAX] {
        let (again, mem) = execute(source, budget);
        assert_eq!(again, exact);
        assert_eq!(mem.len(), exact_mem.len());
        for name in ["n", "s", "ok"] {
            assert_eq!(get_val(name, &mem), get_val(name, &exact_mem));
        }
    }
}

#[test]
fn a_faulted_run_is_the_same_with_any_larger_budget() {
    let source = "set 3 n; out n; idiv n 0 q; out n";
    let (exact, _) = execute(source, 3);
    assert_eq!(exact, Report { status: Status::Faulted(ErrorKind::DivideByZero), pc: 2, output: vec![3] });
    for budget in [4, 50, u64::MAX] {
        assert_eq!(execute(source, budget).0, exact);
    }
}

#[test]
fn run_lines_starts_from_the_store_it_is_given() {
    let program = load("iadd x 1 x; out x").unwrap();
    let mut mem = Memory::new();
    istore("x", &41, &mut mem);
    let report = run_lines(&program, &mut mem, 10);
    assert_eq!(report, Report { status: Status::Halted, pc: 2, output: vec![42] });
    let again = run_lines(&program, &mut mem, 10);
    assert_eq!(again, Report { status: Status::Halted, pc: 2, output: vec![43] });
}

#[test]
fn a_budget_of_the_program_length_decides_the_run() {
    let sources = [
        "",
        "set 1 x; out x",
        "set 1 x; jmp 0; out x",
        "set 0 c; jnz c 1; out c",
        "set 1 c; jnz c 0; out c",
        "set 1 c; jnz c 2; out c; out c",
        "set 1 x; out y; out x",
        "jmp 1; jmp 1; jmp 1; // end",
        "// one; jmp 2; out x; set 2 x; out x",
    ];
    for source in sources {
        let program = load(source).unwrap();
        let enough = program.len() as u64;
        let mut mem = Memory::new();
        let settled = run_lines(&program, &mut mem, enough);
        for budget in [enough + 1, enough + 1000, u64::MAX] {
            let mut other = Memory::new();
            assert_eq!(run_lines(&program, &mut other, budget), settled, "source {:?}", source);
            assert_eq!(other.len(), mem.len());
        }
    }
}

#[test]
fn an_instruction_that_repeats_itself_never_ends() {
    let (jump, _) = execute("set 1 x; out x; jmp 0; out x", u64::MAX);
    assert_eq!(jump, Report { status: Status::Running, pc: 2, output: vec![1] });
    let (taken, _) = execute("set 1 c; jnz c 0", u64::MAX);
    assert_eq!(taken, Report { status: Status::Running, pc: 1, output: vec![] });
    let (not_taken, _) = execute("jnz 0 1 ; out missing", u64::MAX);
    assert_eq!(not_taken, Report { status: Status::Running, pc: 0, output: vec![] });
}
