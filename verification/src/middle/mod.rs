//! Middle end: MIR, borrow checking, async lowering and queries.

pub mod mir;
pub mod borrowck;
pub mod query;
pub mod async_transform;
