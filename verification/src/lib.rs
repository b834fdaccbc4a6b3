//! Type-checking core of a small statically typed language.
//!
//! The center of the crate is the [`typ::Type`] algebra: conjunctive types,
//! arrows, tuples, unordered products with ratio simplification, and
//! constant-indexed types, together with two unification algorithms (a
//! symmetric most-general unifier and an asymmetric implication unifier).
//! Around it sit [`kind::Kind`] capability tags, closed-form
//! [`constant::Constant`] values, and a term arena with scoped name
//! resolution, constant-folding reduction, and lowering to a small
//! functional intermediate representation.

pub mod constant;
pub mod debug;
pub mod ir;
pub mod kind;
pub mod laws;
pub mod maps;
pub mod model;
pub mod order;
pub mod render;
pub mod scope;
pub mod syntax;
pub mod term;
pub mod tlc;
pub mod token;
pub mod typ;
