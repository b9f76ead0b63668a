//! Dispatch functions for tagged unions, generated from a table of per-variant
//! bindings: accessors that project an instance to a slot's value, and lookups
//! that select or build instances from input values.

pub mod model;
pub mod case;
pub mod validate;
pub mod generate;
pub mod parse;
pub mod derive;
pub mod semantics;
