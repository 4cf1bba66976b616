//! The abstract-syntax-tree fragment the parser produces.
//!
//! Only function declarations are recognized today; expressions exist in the
//! data model for the productions still to come, and `Import` and `Module`
//! are placeholders with no behavior.

use vstd::prelude::*;

verus! {

/// An expression: an integer literal, or the sum of two sub-expressions.
/// The tree owns its children; there is no sharing.
#[derive(Debug, PartialEq, Eq)]
pub enum Expression {
    IntegerLiteral(usize),
    Add(Box<Expression>, Box<Expression>),
}

impl Clone for Expression {
    /// A deep copy of the expression tree, equal to the original.
    fn clone(&self) -> (r: Self)
        ensures
            r == *self,
        decreases *self,
    {
        match self {
            Expression::IntegerLiteral(n) => Expression::IntegerLiteral(*n),
            Expression::Add(a, b) => Expression::Add(
                Box::new((**a).clone()),
                Box::new((**b).clone()),
            ),
        }
    }
}

/// A placeholder for imports; module resolution is not part of this core.
/// The verifier refuses an enum with no variants, so one inert variant
/// stands in until imports exist.
#[derive(Debug, Clone, PartialEq, Eq)]
pub enum Import {
    Unresolved,
}

/// An ordered sequence of top-level expressions.
#[derive(Debug, Clone, PartialEq, Eq)]
pub struct Script {
    pub expressions: Vec<Expression>,
}

/// A parsed function declaration. The body stays empty in the current
/// grammar, and the parameter is consumed but not retained.
#[derive(Debug, Clone, PartialEq, Eq)]
pub struct FunctionDeclaration {
    pub name: String,
    pub body: Vec<Expression>,
}

/// A placeholder for modules; they carry nothing yet.
#[derive(Debug, Clone, PartialEq, Eq)]
pub struct Module {}

/// A source file holds either a script or a module.
#[derive(Debug, Clone, PartialEq, Eq)]
pub enum SourceFile {
    Script(Script),
    Module(Module),
}

} // verus!
