//! Fatal conditions.
use vstd::prelude::*;

verus! {

/// Every way in which loading or running a program can fail.  Each is fatal:
/// nothing is retried and no value is defaulted.  Failures of the
/// surrounding tool, such as a source file that cannot be read, are not
/// among them: they arise before there is a program.
#[derive(Clone, Copy, Debug, PartialEq, Eq, Structural)]
pub enum ErrorKind {
    /// A statement's first token is not one of the fifteen opcodes.
    UnknownOpcode,
    /// An instruction is executed that has fewer operands than it reads.
    MissingOperand,
    /// A source operand is neither an integer literal nor a stored variable.
    UndefinedVariable,
    /// The divisor of `idiv` is zero.
    DivideByZero,
    /// An arithmetic result does not fit in 32 bits.
    ArithmeticOverflow,
    /// The condition of `jnz` is neither `0` nor `1`.
    NonBooleanCondition,
    /// A jump has a negative offset or a target that is not an instruction.
    JumpOutOfBounds,
}

/// The name of a kind of fatal condition, as diagnostics print it.
pub open spec fn label(kind: ErrorKind) -> Seq<char> {
    match kind {
        ErrorKind::UnknownOpcode => "UnknownOpcode"@,
        ErrorKind::MissingOperand => "MissingOperand"@,
        ErrorKind::UndefinedVariable => "UndefinedVariable"@,
        ErrorKind::DivideByZero => "DivideByZero"@,
        ErrorKind::ArithmeticOverflow => "ArithmeticOverflow"@,
        ErrorKind::NonBooleanCondition => "NonBooleanCondition"@,
        ErrorKind::JumpOutOfBounds => "JumpOutOfBounds"@,
    }
}

impl ErrorKind {
    /// The name of this kind, for a diagnostic.
    pub fn name(&self) -> (text: &'static str)
        ensures
            text@ == label(*self),
    {
        match self {
            ErrorKind::UnknownOpcode => "UnknownOpcode",
            ErrorKind::MissingOperand => "MissingOperand",
            ErrorKind::UndefinedVariable => "UndefinedVariable",
            ErrorKind::DivideByZero => "DivideByZero",
            ErrorKind::ArithmeticOverflow => "ArithmeticOverflow",
            ErrorKind::NonBooleanCondition => "NonBooleanCondition",
            ErrorKind::JumpOutOfBounds => "JumpOutOfBounds",
        }
    }
}

/// A fatal condition together with the place where it arose: the index of
/// the statement or instruction at fault.
#[derive(Clone, Copy, Debug, PartialEq, Eq, Structural)]
pub struct Fault {
    pub kind: ErrorKind,
    pub index: usize,
}

} // verus!
