use vstd::prelude::*;

verus! {

/// One expression of the source language.
#[derive(PartialEq, Eq, Debug)]
pub enum Expr {
    /// A parenthesised form: a definition or a call.
    List(Vec<Expr>),
    /// A reference to a name.
    Symbol(String),
    /// A 32-bit signed integer constant.
    IntLiteral(i32),
}

/// A program: its top-level forms, in execution order.
pub type Program = Vec<Expr>;

} // verus!
