//! Arithmetic expressions evaluated through a four-stage pipeline: lexing,
//! recursive-descent parsing, post-order code generation and a stack machine.
pub mod codegen;
pub mod error;
pub mod interpreter;
pub mod lexer;
pub mod parser;
pub mod runtime;
