use vstd::prelude::*;
use crate::token::Span;

verus! {

/// A lowered pattern fragment: a literal to match, a wildcard, or a
/// variable binding identified by its term handle.
#[derive(Debug)]
pub enum LHSPart {
    Literal(String),
    Any,
    Variable(usize),
}

/// A lowered expression, tagged with a primitive runtime type and a
/// source span for the external evaluator.
#[derive(Debug)]
pub struct Expression {
    pub op: ExprOp,
    pub dtype: String,
    pub span: Span,
}

/// The operation of a lowered expression.
#[derive(Debug)]
pub enum ExprOp {
    Unit,
    Literal(String),
    Variable(usize),
    Apply(String, Vec<Expression>),
    PatternMatch(Box<Expression>, Vec<(LHSPart, Expression)>),
}

/// A lowered function definition: its mangled name, its parameters as
/// bound-term identities with primitive type tags, and its body as an
/// ordered list of expressions ending in the returned value.
#[derive(Debug)]
pub struct FunctionDefinition {
    pub name: String,
    pub args: Vec<(usize, String)>,
    pub body: Vec<Expression>,
}

/// A lowered program: function definitions and a top-level expression
/// list, as the external evaluator consumes them.
#[derive(Debug)]
pub struct Program {
    pub functions: Vec<FunctionDefinition>,
    pub expressions: Vec<Expression>,
}

} // verus!
