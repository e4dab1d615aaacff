//! A compiler for the Esh language: lexer, parser, code generation and
//! optimisation of code lines.
pub mod text;
pub mod code;
pub mod table;
pub mod lexer;
pub mod parser;
pub mod codegen;
pub mod optimizer;
