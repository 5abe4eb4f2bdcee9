//! A compiler from a small S-expression language to native code.
//!
//! The verified core turns a parsed program into declarative backend
//! instructions while resolving names through a lexically scoped symbol table.

pub mod ast;
pub mod code;
pub mod scope;
pub mod compiler;
pub mod laws;
pub mod gc;
pub mod jit;
pub mod lex;
pub mod parse;
