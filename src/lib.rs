//! Execution core of an interpreter for a small SSA-style IR: a simulated
//! word-addressed heap with a copying collector, and a small-step block
//! executor with cycle statistics.
//!
//! Identifiers (blocks, variables, globals) are interned by the front end:
//! each distinct identifier is a distinct `Name`.

pub mod value;
pub mod ir;
pub mod stats;
pub mod locals;
pub mod memory;
pub mod eval;
pub mod exec;
pub mod laws;
