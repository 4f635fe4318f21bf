//! The closed set of lexical errors the filter can report.

use vstd::prelude::*;

verus! {

/// A lexical fault in the input stream.
///
/// Every error is detected at the exact byte (or at the end-of-stream check)
/// that violates the grammar and is reported immediately.
#[derive(Clone, Copy, Debug, PartialEq, Eq, Structural)]
pub enum StripError {
    /// The input ended while inside an open string: no closing quote found.
    IncompleteString,
    /// The input ended while inside a block comment: no closing `*/` found.
    IncompleteComment,
    /// A `/` at top level was not immediately followed by `*` or `/`.
    UnexpectedForwardSlash,
}

} // verus!
