//! The execution engine.

pub mod built_ins;
pub mod heap;
pub mod interpreter;
pub mod mark_sweep;
pub mod operators;
pub mod scope;
pub mod table;
pub mod value;
