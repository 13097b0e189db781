//! Backend of a small compiler for an 8-bit, accumulator-and-register-pair
//! machine: it lowers a typed expression tree into textual assembly.
//!
//! The code generator walks top-level function declarations, lays out a
//! stack frame for each function's locals, allocates registers from a fixed
//! pool of three windows, and emits byte-exact instruction sequences into an
//! ordered instruction buffer that renders to assembly text.

pub mod asm_writer;
pub mod ast;
pub mod backend;
pub mod compiler;
pub mod emit;
pub mod lexer;
pub mod numtext;
pub mod parser;
pub mod reports;
pub mod sourcemap;
pub mod strutil;
