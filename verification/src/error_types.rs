use vstd::prelude::*;

verus! {

/// Why a tokenize call failed: the input ended inside a quoted region, or
/// immediately after a backslash with no character left to escape.
#[derive(Debug, Clone, Copy, PartialEq, Eq, Structural)]
pub enum ParseError {
    UnterminatedQuote,
    UnterminatedEscape,
}

/// Tokenization succeeded but produced no tokens, so no command name exists.
#[derive(Debug, Clone, Copy, PartialEq, Eq, Structural)]
pub struct EmptyCommandError;

/// No input remains despite requiring input.
#[derive(Debug, Clone, Copy, PartialEq, Eq, Structural)]
pub struct OutOfInputError;

} // verus!
