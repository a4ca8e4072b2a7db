use toyasm::fault::ErrorKind;
use toyasm::memory::{free, get_val, istore, resolve, Memory};

#[test]
fn a_new_store_is_empty() {
    let mem = Memory::new();
    assert_eq!(mem.len(), 0);
    assert!(!mem.contains("x"));
    assert_eq!(get_val("x", &mem), Err(ErrorKind::UndefinedVariable));
}

#[test]
fn istore_creates_and_overwrites() {
    let mut mem = Memory::new();
    istore("x", &1, &mut mem);
    assert_eq!(get_val("x", &mem), Ok(1));
    assert_eq!(mem.len(), 1);
    istore("x", &-9, &mut mem);
    assert_eq!(get_val("x", &mem), Ok(-9));
    assert_eq!(mem.len(), 1);
    istore("y", &i32::MAX, &mut mem);
    assert_eq!(get_val("y", &mem), Ok(i32::MAX));
    assert_eq!(get_val("x", &mem), Ok(-9));
    assert_eq!(mem.len(), 2);
}

#[test]
fn names_are_told_apart_exactly() {
    let mut mem = Memory::new();
    istore("x", &1, &mut mem);
    assert_eq!(get_val("X", &mem), Err(ErrorKind::UndefinedVariable));
    assert_eq!(get_val("x ", &mem), Err(ErrorKind::UndefinedVariable));
    assert_eq!(get_val("", &mem), Err(ErrorKind::UndefinedVariable));
    istore("", &5, &mut mem);
    assert_eq!(get_val("", &mem), Ok(5));
}

#[test]
fn free_removes_and_is_idempotent() {
    let mut mem = Memory::new();
    istore("x", &5, &mut mem);
    istore("y", &6, &mut mem);
    free("x", &mut mem);
    assert!(!mem.contains("x"));
    assert_eq!(get_val("x", &mem), Err(ErrorKind::UndefinedVariable));
    assert_eq!(get_val("y", &mem), Ok(6));
    assert_eq!(mem.len(), 1);
    free("x", &mut mem);
    assert_eq!(mem.len(), 1);
    assert_eq!(get_val("y", &mem), Ok(6));
    free("never", &mut mem);
    assert_eq!(mem.len(), 1);
}

#[test]
fn a_freed_name_can_be_stored_again() {
    let mut mem = Memory::new();
    istore("x", &5, &mut mem);
    free("x", &mut mem);
    istore("x", &8, &mut mem);
    assert_eq!(get_val("x", &mem), Ok(8));
}

#[test]
fn resolve_reads_literals_and_variables() {
    let mut mem = Memory::new();
    istore("x", &11, &mut mem);
    assert_eq!(resolve("3", &mem), Ok(3));
    assert_eq!(resolve("-3", &mem), Ok(-3));
    assert_eq!(resolve("x", &mem), Ok(11));
    assert_eq!(resolve("y", &mem), Err(ErrorKind::UndefinedVariable));
    assert_eq!(resolve("", &mem), Err(ErrorKind::UndefinedVariable));
}

#[test]
fn a_literal_wins_over_a_variable_spelled_alike() {
    let mut mem = Memory::new();
    istore("7", &100, &mut mem);
    assert_eq!(get_val("7", &mem), Ok(100));
    assert_eq!(resolve("7", &mem), Ok(7));
    assert_eq!(resolve("+7", &mem), Ok(7));
}

#[test]
fn an_oversized_number_is_a_variable_name() {
    let mut mem = Memory::new();
    assert_eq!(resolve("2147483648", &mem), Err(ErrorKind::UndefinedVariable));
    istore("2147483648", &1, &mut mem);
    assert_eq!(resolve("2147483648", &mem), Ok(1));
}
