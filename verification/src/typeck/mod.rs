//! Type checking: errors, type classes and the shared vocabulary of types
//! and symbols.

pub mod error;
pub mod typeclass;
pub mod ty;
pub mod sym;
pub mod check;
pub mod infer;
