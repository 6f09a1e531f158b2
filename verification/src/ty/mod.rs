//! Conversions between written types, the type checker's types and C.

pub mod conversion;
