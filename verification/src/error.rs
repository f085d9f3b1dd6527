//! The single construction-time error.

use vstd::prelude::*;

verus! {

/// Construction of a template failed: unterminated or stray brace,
/// consecutive placeholders with no separating literal, an illegal
/// placeholder identifier, or a duplicate placeholder name.
#[derive(Debug, PartialEq, Eq, Structural)]
pub struct ParseError {}

} // verus!
