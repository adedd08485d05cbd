//! A tree-walking interpreter for Filipe, a small statically-typed scripting
//! language: tokens, lexer, syntax tree, Pratt parser, runtime values and
//! types, lexically scoped contexts and the evaluator.

pub mod text;
pub mod token;
pub mod lexer;
pub mod ast;
pub mod type_system;
pub mod runtime_error;
pub mod parser_error;
pub mod host;
pub mod object;
pub mod context;
pub mod flstdlib;
pub mod natives;
pub mod operators;
pub mod binding;
pub mod semantics;
pub mod runtime;
pub mod grammar;
pub mod notation;
pub mod spelling;
pub mod writer;
pub mod legible;
pub mod parser;
pub mod repl;
