//! An interpreter for a small line-oriented assembly dialect.
//!
//! A program is a sequence of statements separated by `;`.  Each statement is
//! an opcode followed by operand tokens, and runs against one store that maps
//! variable names to signed 32-bit integers.  The pieces, leaves first:
//!
//! * [`fault`]: the kinds of fatal condition;
//! * [`arith`]: the nine arithmetic and comparison operations;
//! * [`literal`]: the grammar of integer literals;
//! * [`memory`]: the store and the operand resolver;
//! * [`text`]: cutting source text into statements and tokens;
//! * [`program`]: opcodes, instructions and the loader that builds them from text;
//! * [`engine`]: the program counter, one step, and a bounded run.
pub mod arith;
pub mod engine;
pub mod fault;
pub mod literal;
pub mod memory;
pub mod program;
pub mod text;
