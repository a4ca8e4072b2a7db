//! The arithmetic and comparison operations of the instruction set.
//!
//! Arithmetic traps: a result outside the 32-bit range is an
//! [`ErrorKind::ArithmeticOverflow`], never a wrapped or saturated value.
//! Comparisons yield `1` for true and `0` for false.
use vstd::prelude::*;
use crate::fault::ErrorKind;

verus! {

/// `v` as a 32-bit value, or the overflow fault when it does not fit.
pub open spec fn fit(v: int) -> Result<i32, ErrorKind> {
    if i32::MIN <= v <= i32::MAX {
        Ok(v as i32)
    } else {
        Err(ErrorKind::ArithmeticOverflow)
    }
}

/// The quotient of `a` by `b` rounded toward zero, for `b != 0`.
pub open spec fn quotient(a: int, b: int) -> int
    recommends
        b != 0,
{
    if a >= 0 && b > 0 {
        a / b
    } else if a >= 0 {
        -(a / (-b))
    } else if b > 0 {
        -((-a) / b)
    } else {
        (-a) / (-b)
    }
}

/// What `idiv` yields: a fault on a zero divisor, else the fitted quotient.
pub open spec fn divide(a: int, b: int) -> Result<i32, ErrorKind> {
    if b == 0 {
        Err(ErrorKind::DivideByZero)
    } else {
        fit(quotient(a, b))
    }
}

/// `1` for true, `0` for false.
pub open spec fn truth(b: bool) -> i32 {
    if b {
        1i32
    } else {
        0i32
    }
}

/// The sum of `a` and `b`.
pub fn iadd(a: &i32, b: &i32) -> (r: Result<i32, ErrorKind>)
    ensures
        r == fit(*a + *b),
{
    match a.checked_add(*b) {
        Some(v) => Ok(v),
        None => Err(ErrorKind::ArithmeticOverflow),
    }
}

/// The product of `a` and `b`.
pub fn imul(a: &i32, b: &i32) -> (r: Result<i32, ErrorKind>)
    ensures
        r == fit(*a * *b),
{
    match a.checked_mul(*b) {
        Some(v) => Ok(v),
        None => Err(ErrorKind::ArithmeticOverflow),
    }
}

/// The difference of `a` and `b`.
pub fn isub(a: &i32, b: &i32) -> (r: Result<i32, ErrorKind>)
    ensures
        r == fit(*a - *b),
{
    match a.checked_sub(*b) {
        Some(v) => Ok(v),
        None => Err(ErrorKind::ArithmeticOverflow),
    }
}

/// The quotient of `a` by `b`, rounded toward zero.  A zero divisor is a
/// [`ErrorKind::DivideByZero`]; the one quotient that does not fit, that of
/// the least value by `-1`, is an overflow.
pub fn idiv(a: &i32, b: &i32) -> (r: Result<i32, ErrorKind>)
    ensures
        r == divide(*a as int, *b as int),
{
    if *b == 0 {
        return Err(ErrorKind::DivideByZero);
    }
    match a.checked_div(*b) {
        Some(v) => Ok(v),
        None => Err(ErrorKind::ArithmeticOverflow),
    }
}

/// `1` if `a == b`, else `0`.
pub fn equ(a: &i32, b: &i32) -> (r: i32)
    ensures
        r == truth(*a == *b),
{
    if *a == *b {
        1
    } else {
        0
    }
}

/// `1` if `a < b`, else `0`.
pub fn le(a: &i32, b: &i32) -> (r: i32)
    ensures
        r == truth(*a < *b),
{
    if *a < *b {
        1
    } else {
        0
    }
}

/// `1` if `a > b`, else `0`.
pub fn gr(a: &i32, b: &i32) -> (r: i32)
    ensures
        r == truth(*a > *b),
{
    if *a > *b {
        1
    } else {
        0
    }
}

/// `1` if `a <= b`, else `0`.
pub fn leq(a: &i32, b: &i32) -> (r: i32)
    ensures
        r == truth(*a <= *b),
{
    if *a <= *b {
        1
    } else {
        0
    }
}

/// `1` if `a >= b`, else `0`.
pub fn geq(a: &i32, b: &i32) -> (r: i32)
    ensures
        r == truth(*a >= *b),
{
    if *a >= *b {
        1
    } else {
        0
    }
}

} // verus!
