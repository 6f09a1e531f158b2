//! Verified core of the BoxLang compiler: module graph, MIR vocabulary,
//! borrow bookkeeping, type classes, runtime data structures and allocator
//! accounting.

pub mod util;
pub mod ast;
pub mod middle;
pub mod module;
pub mod runtime;
pub mod ty;
pub mod typeck;
pub mod ui;
