//! A small C-like language toolchain: a lexer, a recursive-descent parser,
//! a bytecode generator with two-phase call resolution, and a stack-based
//! virtual machine that executes the generated programs.

pub mod codegen;
pub mod correctness;
pub mod lexer;
pub mod parser;
pub mod vm;
