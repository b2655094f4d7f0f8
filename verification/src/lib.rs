//! A compiler from a small Rust-like language through an assembly language
//! (SAM) down to Brainfuck, with a Brainfuck interpreter, optimizer and
//! translation to WebAssembly text.

use vstd::prelude::*;

pub mod bf;
pub mod bf2wasm;
pub mod cpu;
pub mod cpu_decimal;
pub mod cpu_flow;
pub mod cpu_runs;
pub mod hir;
pub mod hir2sam;
pub mod linker;
pub mod lir;
pub mod lir2bf;
pub mod opt_equiv;
pub mod sam;
pub mod sam_ops;
pub mod sam2lir;
pub mod semantics;

verus! {
}
