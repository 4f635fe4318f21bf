//! A streaming filter for JSON-like text that replaces comments with spaces.
//!
//! The input is JSON extended with three comment forms: C-style block
//! comments (`/* ... */`), C-style line comments (`// ...`), and shell-style
//! line comments (`# ...`). Every byte that belongs to a comment is replaced
//! by a space, byte for byte, so the output has exactly the length of the
//! input and a strict JSON decoder can consume it unmodified. String
//! literals (double-quoted, backslash-escaped) pass through verbatim, even
//! when their contents look like comment syntax.
//!
//! The work is split over three modules:
//! - [`transducer`]: the per-byte state machine that classifies each byte by
//!   lexical context and decides whether to emit it unchanged or blank it.
//! - [`adapter`]: [`StripComments`], which holds the lexical state across
//!   chunks so that comments and strings may span chunk boundaries.
//! - [`errors`]: the closed set of lexical errors.

pub mod adapter;
pub mod errors;
pub mod transducer;

pub use adapter::StripComments;
pub use errors::StripError;
pub use transducer::State;
