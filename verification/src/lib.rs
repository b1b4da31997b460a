//! A small tape-machine language toolchain: a tokenizer, a folding
//! optimizer that resolves loop brackets into direct jump targets, a
//! fueled interpreter for the optimized instruction stream, and a
//! native-code lowering of the same stream through the Cranelift
//! code-generation framework.

pub mod command;
pub mod command_opt;
pub mod jit;
pub mod roundtrip;
pub mod vm;
