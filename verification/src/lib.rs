//! A virtual machine for the bytecode of a PL/0 compiler, with a disassembler.
use vstd::prelude::*;

pub mod data;
pub mod disasm;
pub mod laws;
pub mod machine;
pub mod opcodes;
pub mod stack;
pub mod text;
pub mod vm;

verus! {

/// Number of bytes of an instruction argument in the bytecode.
pub const ARG_SIZE: usize = 2;

} // verus!
