//! The tree data model handed to the code generator by the front end.
//!
//! The generator accepts only a subset of the shapes below; everything else
//! is reported as an unsupported value, never silently skipped.

use vstd::prelude::*;

verus! {

/// A value paired with the half-open range of source positions it came from.
#[derive(Debug, PartialEq, Hash)]
pub struct Spanned<T>(pub core::ops::Range<usize>, pub T);

impl<T> Spanned<T> {
    /// Apply `f` to the carried value, keeping the span.
    pub fn map<B, F: FnOnce(T) -> B>(self, f: F) -> (r: Spanned<B>)
        requires
            f.requires((self.1,)),
        ensures
            r.0 == self.0,
            f.ensures((self.1,), r.1),
    {
        let Spanned(span, value) = self;
        Spanned(span, f(value))
    }
}

/// One node of the expression/statement tree.
///
/// Statements and expressions share this one shape; the code generator
/// dispatches on the node kind and fails on the kinds it does not support.
#[derive(Debug)]
pub enum Expr {
    Number(i32),
    Var(String),
    Add(Box<Expr>, Box<Expr>),
    Sub(Box<Expr>, Box<Expr>),
    Mul(Box<Expr>, Box<Expr>),
    Div(Box<Expr>, Box<Expr>),
    Pow(Box<Expr>, Box<Expr>),
    Neg(Box<Expr>),
    /// Declaration of a new local: name, type name, initializer.
    Decl(String, String, Box<Expr>),
    Assign(String, Box<Expr>),
    Call(String, Vec<Expr>),
    Block(Vec<Expr>),
    If(Box<Expr>, Box<Expr>, Box<Expr>),
    While(Box<Expr>, Box<Expr>),
    For(Box<Expr>, Box<Expr>, Box<Expr>, Box<Expr>),
    Return(Box<Expr>),
    Break,
    Continue,
    /// Function declaration: name, return type name, parameters
    /// (name, type name), body.
    Function(String, String, Vec<(String, String)>, Box<Expr>),
    Empty,
}

/// A resolved type, as the front end classifies type annotations.
#[derive(Debug, Clone)]
pub enum Type {
    Int,
    Float,
    Other(String),
}

/// A whole compilation unit: the ordered top-level declarations.
#[derive(Debug)]
pub struct Ast {
    pub root: Vec<Expr>,
}

} // verus!
