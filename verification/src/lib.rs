//! A small interpreter for a parenthesised expression language, with each
//! stage (lexer, parser, scopes, evaluator) specified over a mathematical
//! model and proved against it.

pub mod object;
pub mod lexer;
pub mod parser;
pub mod env;
pub mod semantics;
pub mod eval;
