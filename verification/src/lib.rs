//! A boolean-algebra engine: truth-table values, canonical row enumeration,
//! full-DNF/KNF synthesis, and a brute-force equivalence checker for
//! user-supplied normal-form expressions.

pub mod bits;
pub mod table;
pub mod check;
pub mod expr;
pub mod laws;
pub mod parse;
pub mod synth;
