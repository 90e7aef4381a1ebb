//! A small expression language: lexer, parser, name resolution, type checking
//! and evaluation, each specified by a mathematical model and proved against it.

pub mod text;
pub mod diagnostics;
pub mod token;
pub mod lexer;
pub mod spacing;
pub mod ast;
pub mod grammar;
pub mod parser;
pub mod env;
pub mod resolver;
pub mod type_checker;
pub mod interpreter;
pub mod soundness;
pub mod pipeline;
