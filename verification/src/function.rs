use vstd::prelude::*;

use crate::stmt::Stmt;
use crate::token::Token;

verus! {

/// Whether a callable was declared as a free function or as a method.
#[derive(Debug, Clone)]
pub enum FunctionKind {
    Function,
    Method,
}

/// What a function declaration defines: its parameters and the statements of
/// its body.
#[derive(Debug, Clone)]
pub struct FunctionDef {
    pub params: Vec<Token>,
    pub statements: Vec<Stmt>,
}

impl FunctionDef {
    /// The number of arguments a call of this function takes: one per parameter.
    pub fn arity(&self) -> (r: usize)
        ensures
            r == self.params@.len(),
    {
        self.params.len()
    }
}

/// A function value: its name (none for an anonymous function) and its
/// definition, shared by every copy of the value.
#[derive(Debug, Clone)]
pub struct Function {
    pub name: Option<String>,
    pub def: std::rc::Rc<FunctionDef>,
}

impl Function {
    /// The number of arguments a call of this function takes.
    pub fn arity(&self) -> (r: usize)
        ensures
            r == self.def.params@.len(),
    {
        self.def.arity()
    }
}

} // verus!
