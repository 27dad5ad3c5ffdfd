//! The dependency record: one discovered import/export target.

use vstd::prelude::*;

use crate::token::Token;

verus! {

/// One discovered module reference. `path` is always a token whose kind is
/// `TokenKind::Str`, carrying the module specifier.
#[derive(Debug, PartialEq)]
pub struct Dependency {
    pub path: Token,
}

} // verus!
