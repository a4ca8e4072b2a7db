//! The execution engine: what one instruction does to the store, where the
//! program counter goes next, one step, and a bounded run.
//!
//! The program counter indexes the program and starts at `0`.  The machine
//! runs while the counter indexes an instruction and has halted once it
//! does not; there is no other way to stop short of a fault.
//!
//! Jumps are relative to the jumping instruction itself: `jmp 1` lands on
//! the next instruction and `jmp 0` on the jump again.  An offset must not
//! be negative and must land on an instruction; any other jump is an
//! [`ErrorKind::JumpOutOfBounds`], so that the counter leaves the program
//! only by stepping past its last instruction.
//!
//! A `jnz` whose condition is `0` leaves the counter where it is: it does
//! not fall through to the next instruction.  The machine then repeats that
//! instruction for as long as it is run (see
//! [`lemma_false_condition_never_advances`]), as it does on a jump by `0`.
//! [`step`] yields the same counter each time; [`run_lines`] reports such a
//! run as still running, whatever its budget.
use vstd::prelude::*;
use crate::arith::{divide, equ, fit, geq, gr, iadd, idiv, imul, isub, le, leq, truth};
use crate::fault::ErrorKind;
use crate::memory::{free, get_val, istore, lookup, resolve, resolved, Memory};
use crate::program::{Instruction, Line, Opcode};

verus! {

/// Operand `k` of an instruction as written, counted from `0` after the
/// opcode.
pub open spec fn operand(line: Line, k: int) -> Result<Seq<char>, ErrorKind> {
    if 0 <= k < line.operands.len() {
        Ok(line.operands[k])
    } else {
        Err(ErrorKind::MissingOperand)
    }
}

/// The value of source operand `k`.
pub open spec fn source(line: Line, k: int, store: Map<Seq<char>, i32>) -> Result<i32, ErrorKind> {
    match operand(line, k) {
        Ok(token) => resolved(store, token),
        Err(kind) => Err(kind),
    }
}

/// What an arithmetic or comparison opcode computes from two values.  The
/// last arm is that of `geq`; of the other opcodes nothing is said.
pub open spec fn computed(opcode: Opcode, a: i32, b: i32) -> Result<i32, ErrorKind>
    recommends
        opcode.is_binary(),
{
    match opcode {
        Opcode::Iadd => fit(a + b),
        Opcode::Imul => fit(a * b),
        Opcode::Isub => fit(a - b),
        Opcode::Idiv => divide(a as int, b as int),
        Opcode::Equ => Ok(truth(a == b)),
        Opcode::Le => Ok(truth(a < b)),
        Opcode::Gr => Ok(truth(a > b)),
        Opcode::Leq => Ok(truth(a <= b)),
        _ => Ok(truth(a >= b)),
    }
}

/// What an instruction does apart from moving the program counter: the
/// store that it leaves and the value that it emits, if any.
pub struct Effect {
    pub store: Map<Seq<char>, i32>,
    pub emitted: Option<i32>,
}

/// The effect of an arithmetic or comparison instruction: both sources are
/// resolved, the first then the second, the result is computed and stored
/// under the third operand, which is a name and never resolved.
pub open spec fn binary_effect(line: Line, store: Map<Seq<char>, i32>) -> Result<
    Effect,
    ErrorKind,
>
    recommends
        line.opcode.is_binary(),
{
    match source(line, 0, store) {
        Err(kind) => Err(kind),
        Ok(a) => match source(line, 1, store) {
            Err(kind) => Err(kind),
            Ok(b) => match computed(line.opcode, a, b) {
                Err(kind) => Err(kind),
                Ok(value) => match operand(line, 2) {
                    Err(kind) => Err(kind),
                    Ok(dest) => Ok(Effect { store: store.insert(dest, value), emitted: None }),
                },
            },
        },
    }
}

/// The effect of an instruction on a store, or the first fault that it
/// meets.  The jumps and the comment have none.
pub open spec fn effect(line: Line, store: Map<Seq<char>, i32>) -> Result<Effect, ErrorKind> {
    match line.opcode {
        Opcode::Out => match operand(line, 0) {
            Err(kind) => Err(kind),
            Ok(name) => match lookup(store, name) {
                Err(kind) => Err(kind),
                Ok(value) => Ok(Effect { store, emitted: Some(value) }),
            },
        },
        Opcode::Assign => match operand(line, 1) {
            Err(kind) => Err(kind),
            Ok(dest) => match source(line, 0, store) {
                Err(kind) => Err(kind),
                Ok(value) => Ok(Effect { store: store.insert(dest, value), emitted: None }),
            },
        },
        Opcode::Free => match operand(line, 0) {
            Err(kind) => Err(kind),
            Ok(name) => Ok(Effect { store: store.remove(name), emitted: None }),
        },
        Opcode::Comment | Opcode::Jnz | Opcode::Jmp => Ok(Effect { store, emitted: None }),
        _ => binary_effect(line, store),
    }
}

/// Where a jump by `offset` from `pc` lands in a program of `len`
/// instructions.
pub open spec fn landing(pc: int, offset: i32, len: int) -> Result<int, ErrorKind> {
    if 0 <= offset && pc + offset < len {
        Ok(pc + offset)
    } else {
        Err(ErrorKind::JumpOutOfBounds)
    }
}

/// The program counter after the instruction at `pc`.  Every instruction
/// but a jump moves it on by one.
pub open spec fn next_pc(line: Line, pc: int, len: int, store: Map<Seq<char>, i32>) -> Result<
    int,
    ErrorKind,
> {
    match line.opcode {
        Opcode::Jmp => match source(line, 0, store) {
            Err(kind) => Err(kind),
            Ok(offset) => landing(pc, offset, len),
        },
        Opcode::Jnz => match source(line, 0, store) {
            Err(kind) => Err(kind),
            Ok(condition) => if condition == 0 {
                Ok(pc)
            } else if condition == 1 {
                match source(line, 1, store) {
                    Err(kind) => Err(kind),
                    Ok(offset) => landing(pc, offset, len),
                }
            } else {
                Err(ErrorKind::NonBooleanCondition)
            },
        },
        _ => Ok(pc + 1),
    }
}

/// A machine after one step.
pub struct Stepped {
    pub pc: int,
    pub store: Map<Seq<char>, i32>,
    pub emitted: Option<i32>,
}

/// One step of a running machine: the instruction at `pc` takes effect and
/// the counter moves.
pub open spec fn stepped(program: Seq<Line>, pc: int, store: Map<Seq<char>, i32>) -> Result<
    Stepped,
    ErrorKind,
>
    recommends
        0 <= pc < program.len(),
{
    match effect(program[pc], store) {
        Err(kind) => Err(kind),
        Ok(done) => match next_pc(program[pc], pc, program.len() as int, done.store) {
            Err(kind) => Err(kind),
            Ok(next) => Ok(Stepped { pc: next, store: done.store, emitted: done.emitted }),
        },
    }
}

/// How a run ended.
#[derive(Clone, Copy, Debug, PartialEq, Eq, Structural)]
pub enum Status {
    /// The program counter left the program.
    Halted,
    /// An instruction met a fatal condition.
    Faulted(ErrorKind),
    /// The step budget ran out while the machine was still running.
    Running,
}

/// A run as a value: how it ended, where the counter stood and what the
/// store held at that time, and everything emitted until then, in order.
/// After a fault the counter is that of the instruction at fault and the
/// store is as that instruction found it.
pub struct Outcome {
    pub status: Status,
    pub pc: int,
    pub store: Map<Seq<char>, i32>,
    pub output: Seq<i32>,
}

/// The emitted value as a sequence of none or one.
pub open spec fn emission(emitted: Option<i32>) -> Seq<i32> {
    match emitted {
        Some(value) => seq![value],
        None => Seq::<i32>::empty(),
    }
}

/// The run of at most `budget` steps from a counter and a store.
pub open spec fn run(program: Seq<Line>, pc: int, store: Map<Seq<char>, i32>, budget: nat) -> Outcome
    decreases budget,
{
    if !(0 <= pc < program.len()) {
        Outcome { status: Status::Halted, pc, store, output: Seq::<i32>::empty() }
    } else if budget == 0 {
        Outcome { status: Status::Running, pc, store, output: Seq::<i32>::empty() }
    } else {
        match stepped(program, pc, store) {
            Err(kind) => Outcome {
                status: Status::Faulted(kind),
                pc,
                store,
                output: Seq::<i32>::empty(),
            },
            Ok(next) => {
                let rest = run(program, next.pc, next.store, (budget - 1) as nat);
                Outcome { output: emission(next.emitted) + rest.output, ..rest }
            },
        }
    }
}

/// Operand `k` of `line` as written.
fn fetch_operand(line: &Instruction, k: usize) -> (r: Result<&str, ErrorKind>)
    ensures
        match r {
            Ok(token) => operand(line@, k as int) == Ok::<Seq<char>, ErrorKind>(token@),
            Err(kind) => operand(line@, k as int) == Err::<Seq<char>, ErrorKind>(kind),
        },
{
    if k < line.operands.len() {
        Ok(line.operands[k].as_str())
    } else {
        Err(ErrorKind::MissingOperand)
    }
}

/// The value of source operand `k` of `line`.
fn fetch_source(line: &Instruction, k: usize, mem: &Memory) -> (r: Result<i32, ErrorKind>)
    ensures
        r == source(line@, k as int, mem@),
{
    let token: &str = fetch_operand(line, k)?;
    resolve(token, mem)
}

/// Applies an arithmetic or comparison opcode to two values.
fn compute(opcode: Opcode, a: i32, b: i32) -> (r: Result<i32, ErrorKind>)
    requires
        opcode.is_binary(),
    ensures
        r == computed(opcode, a, b),
{
    match opcode {
        Opcode::Iadd => iadd(&a, &b),
        Opcode::Imul => imul(&a, &b),
        Opcode::Isub => isub(&a, &b),
        Opcode::Idiv => idiv(&a, &b),
        Opcode::Equ => Ok(equ(&a, &b)),
        Opcode::Le => Ok(le(&a, &b)),
        Opcode::Gr => Ok(gr(&a, &b)),
        Opcode::Leq => Ok(leq(&a, &b)),
        _ => Ok(geq(&a, &b)),
    }
}

/// Lets one instruction take effect on the store, and returns the value
/// that it emits, if any.  The program counter is no part of this: a jump
/// or a comment does nothing here.
///
/// On a fault the store is left as it was.
pub fn run_line(line: &Instruction, mem: &mut Memory) -> (r: Result<Option<i32>, ErrorKind>)
    ensures
        match effect(line@, old(mem)@) {
            Ok(done) => r == Ok::<Option<i32>, ErrorKind>(done.emitted) && final(mem)@
                == done.store,
            Err(kind) => r == Err::<Option<i32>, ErrorKind>(kind) && final(mem)@ == old(mem)@,
        },
{
    match line.opcode {
        Opcode::Out => {
            let name: &str = fetch_operand(line, 0)?;
            let value: i32 = get_val(name, mem)?;
            Ok(Some(value))
        },
        Opcode::Assign => {
            let dest: &str = fetch_operand(line, 1)?;
            let value: i32 = fetch_source(line, 0, mem)?;
            istore(dest, &value, mem);
            Ok(None)
        },
        Opcode::Free => {
            let name: &str = fetch_operand(line, 0)?;
            free(name, mem);
            Ok(None)
        },
        Opcode::Comment | Opcode::Jnz | Opcode::Jmp => Ok(None),
        _ => {
            let a: i32 = fetch_source(line, 0, mem)?;
            let b: i32 = fetch_source(line, 1, mem)?;
            let value: i32 = compute(line.opcode, a, b)?;
            let dest: &str = fetch_operand(line, 2)?;
            istore(dest, &value, mem);
            Ok(None)
        },
    }
}

/// Where a jump by `offset` from `pc` lands.
fn land(pc: usize, offset: i32, len: usize) -> (r: Result<usize, ErrorKind>)
    requires
        pc < len,
    ensures
        match r {
            Ok(next) => landing(pc as int, offset, len as int) == Ok::<int, ErrorKind>(next as int),
            Err(kind) => landing(pc as int, offset, len as int) == Err::<int, ErrorKind>(kind),
        },
{
    if offset < 0 {
        return Err(ErrorKind::JumpOutOfBounds);
    }
    let room: usize = len - pc;
    let forward: u32 = offset as u32;
    if (forward as u64) < (room as u64) {
        Ok(pc + forward as usize)
    } else {
        Err(ErrorKind::JumpOutOfBounds)
    }
}

/// The program counter after the instruction `line`, which stands at `pc`
/// in a program of `len` instructions.
pub fn advance(line: &Instruction, pc: usize, len: usize, mem: &Memory) -> (r: Result<
    usize,
    ErrorKind,
>)
    requires
        pc < len,
    ensures
        match r {
            Ok(next) => next_pc(line@, pc as int, len as int, mem@) == Ok::<int, ErrorKind>(
                next as int,
            ),
            Err(kind) => next_pc(line@, pc as int, len as int, mem@) == Err::<int, ErrorKind>(
                kind,
            ),
        },
{
    match line.opcode {
        Opcode::Jmp => {
            let offset: i32 = fetch_source(line, 0, mem)?;
            land(pc, offset, len)
        },
        Opcode::Jnz => {
            let condition: i32 = fetch_source(line, 0, mem)?;
            if condition == 0 {
                Ok(pc)
            } else if condition == 1 {
                let offset: i32 = fetch_source(line, 1, mem)?;
                land(pc, offset, len)
            } else {
                Err(ErrorKind::NonBooleanCondition)
            }
        },
        _ => Ok(pc + 1),
    }
}

/// One step of a running machine: executes the instruction at `pc` and
/// returns the next program counter with the value emitted, if any.
///
/// On a fault the store is left as the instruction found it.
pub fn step(lines: &Vec<Instruction>, pc: usize, mem: &mut Memory) -> (r: Result<
    (usize, Option<i32>),
    ErrorKind,
>)
    requires
        pc < lines.len(),
    ensures
        match stepped(lines.deep_view(), pc as int, old(mem)@) {
            Ok(next) => r == Ok::<(usize, Option<i32>), ErrorKind>((next.pc as usize, next.emitted))
                && next.pc == next.pc as usize && final(mem)@ == next.store,
            Err(kind) => r == Err::<(usize, Option<i32>), ErrorKind>(kind) && final(mem)@ == old(
                mem,
            )@,
        },
{
    let line: &Instruction = &lines[pc];
    assert(lines.deep_view()[pc as int] == line@);
    let emitted: Option<i32> = run_line(line, mem)?;
    // Only a jump can fault after its effect, and a jump has none.
    let next: usize = advance(line, pc, lines.len(), mem)?;
    Ok((next, emitted))
}

/// What a bounded run reports: how it ended, where the program counter
/// stood then, and the values emitted, in order.  The store is left with
/// the caller.
#[derive(Clone, Debug, PartialEq, Eq)]
pub struct Report {
    pub status: Status,
    pub pc: usize,
    pub output: Vec<i32>,
}

/// Runs a program from its first instruction on the store `mem`, for at
/// most `max_steps` steps.
///
/// The run ends when the program counter leaves the program
/// ([`Status::Halted`]), at the first fault ([`Status::Faulted`]), or when
/// the steps are used up ([`Status::Running`]).  After a fault the counter
/// reported is that of the instruction at fault, the store is as that
/// instruction found it, and the output is what was emitted before it.
///
/// The call returns as soon as the outcome is known, which is after no
/// more steps than the program has instructions: an instruction that
/// repeats itself is not run again and again until the budget is spent.
/// So a budget of `lines.len()` or more tells of every program whether it
/// halts, faults, or never ends (see [`lemma_run_settles`]).
pub fn run_lines(lines: &Vec<Instruction>, mem: &mut Memory, max_steps: u64) -> (report: Report)
    ensures
        ({
            let whole = run(lines.deep_view(), 0, old(mem)@, max_steps as nat);
            &&& report.status == whole.status
            &&& report.pc == whole.pc
            &&& report.output@ == whole.output
            &&& final(mem)@ == whole.store
        }),
{
    let ghost program = lines.deep_view();
    let ghost whole = run(program, 0, mem@, max_steps as nat);
    let mut output: Vec<i32> = Vec::new();
    let mut pc: usize = 0;
    let mut left: u64 = max_steps;
    assert(output@ + whole.output =~= whole.output);
    while pc < lines.len() && left > 0
        invariant
            program == lines.deep_view(),
            whole == run(lines.deep_view(), 0, old(mem)@, max_steps as nat),
            whole.status == run(program, pc as int, mem@, left as nat).status,
            whole.pc == run(program, pc as int, mem@, left as nat).pc,
            whole.store == run(program, pc as int, mem@, left as nat).store,
            whole.output == output@ + run(program, pc as int, mem@, left as nat).output,
        decreases left,
    {
        let ghost before = output@;
        let ghost here = run(program, pc as int, mem@, left as nat);
        match step(lines, pc, mem) {
            Err(kind) => {
                assert(before + here.output =~= before);
                return Report { status: Status::Faulted(kind), pc, output };
            },
            Ok((next, emitted)) => {
                if next == pc {
                    // The instruction repeats itself: no budget ends this run.
                    proof {
                        lemma_idle_step_never_ends(program, pc as int, mem@, left as nat);
                        assert(before + here.output =~= before);
                    }
                    return Report { status: Status::Running, pc, output };
                }
                if let Some(value) = emitted {
                    output.push(value);
                }
                pc = next;
                left = left - 1;
                let ghost rest = run(program, pc as int, mem@, left as nat);
                assert(before + (emission(emitted) + rest.output) =~= output@ + rest.output);
            },
        }
    }
    let ghost here = run(program, pc as int, mem@, left as nat);
    assert(output@ + here.output =~= output@);
    let status: Status = if pc < lines.len() {
        Status::Running
    } else {
        Status::Halted
    };
    Report { status, pc, output }
}

/// A run that has ended, by halting or by a fault, is not changed by more
/// steps: with any larger budget it ends in the same way, at the same
/// counter, with the same store and the same output.
pub proof fn lemma_ended_run_is_final(
    program: Seq<Line>,
    pc: int,
    store: Map<Seq<char>, i32>,
    budget: nat,
    more: nat,
)
    requires
        run(program, pc, store, budget).status != Status::Running,
        budget <= more,
    ensures
        run(program, pc, store, more) == run(program, pc, store, budget),
    decreases budget,
{
    if 0 <= pc < program.len() && budget > 0 {
        match stepped(program, pc, store) {
            Err(kind) => {},
            Ok(next) => {
                lemma_ended_run_is_final(
                    program,
                    next.pc,
                    next.store,
                    (budget - 1) as nat,
                    (more - 1) as nat,
                );
            },
        }
    }
}

/// Halting is deterministic.  If the program counter leaves the program
/// within some number of steps and no instruction faults on the way, then
/// the run with any budget at least as large halts too, with the same
/// output and the same store: what a halting program emits depends on the
/// program and the initial store alone.
pub proof fn lemma_halting_is_deterministic(
    program: Seq<Line>,
    store: Map<Seq<char>, i32>,
    steps: nat,
    budget: nat,
)
    requires
        run(program, 0, store, steps).status == Status::Halted,
        steps <= budget,
    ensures
        run(program, 0, store, budget).status == Status::Halted,
        run(program, 0, store, budget).output == run(program, 0, store, steps).output,
        run(program, 0, store, budget).store == run(program, 0, store, steps).store,
        run(program, 0, store, budget).pc == program.len(),
{
    lemma_ended_run_is_final(program, 0, store, steps, budget);
    lemma_halted_past_the_end(program, 0, store, steps);
}

/// A machine halts exactly one past the last instruction, whenever it
/// started inside the program or at its end.
pub proof fn lemma_halted_past_the_end(
    program: Seq<Line>,
    pc: int,
    store: Map<Seq<char>, i32>,
    budget: nat,
)
    requires
        0 <= pc <= program.len(),
        run(program, pc, store, budget).status == Status::Halted,
    ensures
        run(program, pc, store, budget).pc == program.len(),
    decreases budget,
{
    if pc < program.len() && budget > 0 {
        match stepped(program, pc, store) {
            Err(kind) => {},
            Ok(next) => {
                lemma_halted_past_the_end(program, next.pc, next.store, (budget - 1) as nat);
            },
        }
    }
}

/// A step that changes nothing is repeated forever: if the instruction at
/// `pc` leaves the counter and the store as they were and emits nothing,
/// then every run from there, whatever its budget, is still running at
/// `pc` with that store and has emitted nothing.
pub proof fn lemma_idle_step_never_ends(
    program: Seq<Line>,
    pc: int,
    store: Map<Seq<char>, i32>,
    budget: nat,
)
    requires
        0 <= pc < program.len(),
        stepped(program, pc, store) == Ok::<Stepped, ErrorKind>(
            Stepped { pc, store, emitted: None },
        ),
    ensures
        run(program, pc, store, budget) == (Outcome {
            status: Status::Running,
            pc,
            store,
            output: Seq::<i32>::empty(),
        }),
    decreases budget,
{
    if budget > 0 {
        lemma_idle_step_never_ends(program, pc, store, (budget - 1) as nat);
        assert(emission(None) + Seq::<i32>::empty() =~= Seq::<i32>::empty());
    }
}

/// A `jnz` whose condition resolves to `0` does not advance: the machine
/// stays on that instruction for as long as it is run.
pub proof fn lemma_false_condition_never_advances(
    program: Seq<Line>,
    pc: int,
    store: Map<Seq<char>, i32>,
    budget: nat,
)
    requires
        0 <= pc < program.len(),
        program[pc].opcode == Opcode::Jnz,
        source(program[pc], 0, store) == Ok::<i32, ErrorKind>(0),
    ensures
        stepped(program, pc, store) == Ok::<Stepped, ErrorKind>(
            Stepped { pc, store, emitted: None },
        ),
        run(program, pc, store, budget).status == Status::Running,
        run(program, pc, store, budget).pc == pc,
        run(program, pc, store, budget).store == store,
        run(program, pc, store, budget).output == Seq::<i32>::empty(),
{
    lemma_idle_step_never_ends(program, pc, store, budget);
}

/// The program counter never moves backward: a step leaves it where it is
/// or moves it forward, and never past the end of the program by more than
/// the one step that halts.
pub proof fn lemma_counter_never_falls(program: Seq<Line>, pc: int, store: Map<Seq<char>, i32>)
    requires
        0 <= pc < program.len(),
        stepped(program, pc, store) is Ok,
    ensures
        pc <= stepped(program, pc, store).unwrap().pc <= program.len(),
{
}

/// Every run settles within as many steps as there are instructions left:
/// a larger budget changes nothing.  A run that is still running after so
/// many steps has met an instruction that repeats itself and never ends.
pub proof fn lemma_run_settles(
    program: Seq<Line>,
    pc: int,
    store: Map<Seq<char>, i32>,
    budget: nat,
)
    requires
        0 <= pc <= program.len(),
        budget >= program.len() - pc,
    ensures
        run(program, pc, store, budget) == run(program, pc, store, (program.len() - pc) as nat),
    decreases program.len() - pc,
{
    let enough = (program.len() - pc) as nat;
    if pc < program.len() {
        match stepped(program, pc, store) {
            Err(kind) => {},
            Ok(next) => {
                if next.pc == pc {
                    lemma_idle_step_never_ends(program, pc, store, budget);
                    lemma_idle_step_never_ends(program, pc, store, enough);
                } else {
                    lemma_run_settles(program, next.pc, next.store, (budget - 1) as nat);
                    lemma_run_settles(program, next.pc, next.store, (enough - 1) as nat);
                }
            },
        }
    }
}

} // verus!
