use vstd::prelude::*;

verus! {

/// A raw expression as the front end hands it over, before scope
/// resolution builds the term arena.
pub enum TlcExpr {
    Nil,
    Ident(String),
    App(Box<TlcExpr>, Box<TlcExpr>),
    Let(Box<TlcExpr>, Box<TlcExpr>, Box<TlcExpr>),
    Tuple(Vec<TlcExpr>),
    Block(Vec<TlcExpr>),
    Ascript(Box<TlcExpr>, Box<TlcExpr>),
    TypNil,
    TypAny,
    TypIdent(String),
    TypOr(Vec<TlcExpr>),
    TypAnd(Vec<TlcExpr>),
    TypArrow(Box<TlcExpr>, Box<TlcExpr>),
    TypCompound(Box<TlcExpr>, Vec<TlcExpr>),
    TypTuple(Vec<TlcExpr>),
    TypAngle(Vec<TlcExpr>),
    TypBrack(Vec<TlcExpr>),
}

/// A diagnostic of the front end: its category, the expected rule, the
/// file, the start and end positions, and a source snippet.
#[derive(Debug)]
pub struct TlcError {
    pub error_type: String,
    pub rule: String,
    pub filename: String,
    pub start: (usize, usize),
    pub end: (usize, usize),
    pub snippet: String,
}

} // verus!
