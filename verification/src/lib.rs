//! A small ahead-of-time compiler from a C-like language to x86-64 assembly
//! (System V, AT&T syntax), organised as a pipeline of four passes:
//! lexer, parser, resolver and code generator.
//!
//! Every pass is a function on plain data; what it yields is stated by a
//! function on the mathematical view of its input.
pub mod text;
pub mod errors;
pub mod tokenize;
pub mod parse;
pub mod tree;
pub mod intermediate_process;
pub mod scoping;
pub mod codegen;
