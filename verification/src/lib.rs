//! A Core War virtual machine and assembler.
//!
//! Champions written in a small assembly language are compiled to byte code
//! and executed concurrently inside a shared circular memory arena. Processes
//! must periodically prove they are alive; those that fail to do so within a
//! shrinking window are culled.

pub mod assembler;
pub mod be;
pub mod ext;
pub mod instructions;
pub mod language;
pub mod decoder;
pub mod defs;
pub mod encoder;
pub mod lexer;
pub mod memory;
pub mod parser;
pub mod process;
pub mod pc;
pub mod types;
pub mod vm;

use vstd::prelude::*;

verus! {

} // verus!
