//! A verified execution engine for the classic minimal eight-instruction
//! pointer-and-tape language.
//!
//! `dtypes` holds the instruction set and the error taxonomy, `parsing` the
//! byte classifier, `machine` the mathematical small-step semantics that the
//! contracts speak of, `interpreter` the executable engine proved against
//! that semantics, and `laws` the general properties of the semantics.

pub mod dtypes;
pub mod interpreter;
pub mod laws;
pub mod machine;
pub mod parsing;
