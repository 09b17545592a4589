pub mod error;
pub mod expr;
pub mod function;
pub mod grammar;
pub mod grammar_laws;
pub mod parser;
pub mod scanner;
pub mod sexpr;
pub mod stmt;
pub mod text;
pub mod token;
