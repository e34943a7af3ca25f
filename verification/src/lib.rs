//! A sequence-expansion engine over token trees.
//!
//! An invocation names a variable and an integer range, and carries a body of
//! tokens. The engine stamps out the body once per value of the range, putting
//! the value in place of the variable and gluing it onto neighbouring
//! identifiers where the body asks for it with `~`.

pub mod token;
pub mod range;
pub mod substitute;
pub mod repeat;
pub mod parse;
pub mod expand;
