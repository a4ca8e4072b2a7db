use toyasm::engine::{run_lines, step, Report, Status};
use toyasm::fault::ErrorKind;
use toyasm::memory::Memory;
use toyasm::program::load;

fn outcome(source: &str, max_steps: u64) -> Report {
    let program = load(source).unwrap();
    let mut mem = Memory::new();
    run_lines(&program, &mut mem, max_steps)
}

#[test]
fn set_then_out_emits_the_value() {
    let report = outcome("set 1 x ; out x", 100);
    assert_eq!(report.status, Status::Halted);
    assert_eq!(report.output, vec![1]);
}

#[test]
fn iadd_then_out_emits_the_sum() {
    let report = outcome("iadd 2 3 r ; out r", 100);
    assert_eq!(report.status, Status::Halted);
    assert_eq!(report.output, vec![5]);
}

#[test]
fn idiv_by_zero_fails_without_output() {
    let report = outcome("idiv 5 0 r", 100);
    assert_eq!(report.status, Status::Faulted(ErrorKind::DivideByZero));
    assert_eq!(report.output, Vec::<i32>::new());
    assert_eq!(report.pc, 0);
}

#[test]
fn leq_of_equal_values_is_one() {
    let report = outcome("leq 3 3 r ; out r", 100);
    assert_eq!(report.status, Status::Halted);
    assert_eq!(report.output, vec![1]);
}

#[test]
fn geq_of_a_smaller_value_is_zero() {
    let report = outcome("geq 2 3 r ; out r", 100);
    assert_eq!(report.status, Status::Halted);
    assert_eq!(report.output, vec![0]);
}

#[test]
fn out_after_free_is_undefined() {
    let report = outcome("set 5 x ; free x ; out x", 100);
    assert_eq!(report.status, Status::Faulted(ErrorKind::UndefinedVariable));
    assert_eq!(report.output, Vec::<i32>::new());
    assert_eq!(report.pc, 2);
}

#[test]
fn jnz_with_a_false_condition_does_not_advance() {
    for budget in [1, 2, 10, 10_000] {
        let report = outcome("jnz 0 1 ; out missing", budget);
        assert_eq!(report, Report { status: Status::Running, pc: 0, output: vec![] });
    }
}

#[test]
fn jnz_with_a_false_condition_steps_onto_itself() {
    let program = load("jnz 0 1 ; out missing").unwrap();
    let mut mem = Memory::new();
    for _ in 0..50 {
        assert_eq!(step(&program, 0, &mut mem), Ok((0, None)));
    }
    assert_eq!(mem.len(), 0);
}

#[test]
fn jnz_with_a_false_stored_condition_does_not_advance() {
    let report = outcome("set 0 c ; out c ; jnz c 1 ; out c", 500);
    assert_eq!(report, Report { status: Status::Running, pc: 2, output: vec![0] });
}
