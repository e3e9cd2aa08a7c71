//! A small compiler from a C-like source language to RISC-V assembly.
//!
//! A program passes through four forms: the bytes of its source text, the
//! syntax tree of `c_ast`, the instruction graph of `ir`, and the assembly
//! lines of `riscv`. `lexer` and `parser` read the first as the second,
//! `koopa_ast` lowers the second into the third, and `codegen` writes the
//! third as the fourth. Each form has a meaning as a spec function, and each
//! step is proved to keep it; `compile` puts the steps together.
//!
//! `export` rebuilds the instruction graph as a program of the `koopa`
//! crate, which prints it as Koopa IR.

pub mod c_ast;
pub mod codegen;
pub mod compile;
pub mod export;
pub mod ir;
pub mod koopa_ast;
pub mod lexer;
pub mod numeral;
pub mod parser;
pub mod riscv;
