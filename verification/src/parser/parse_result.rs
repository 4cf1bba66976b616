//! The parser's error type and the exact messages it carries.

use vstd::prelude::*;
use vstd::string::StringExecFns;

use crate::token::{token_text, Token, TokenModel};

verus! {

/// A grammar mismatch: names the construct that was expected and the token
/// actually observed, or `EOF` where the input ran out. Raised on the first
/// point of failure; no recovery is attempted.
#[derive(Debug, Clone, PartialEq, Eq)]
pub struct ParseError {
    pub message: String,
}

/// The message raised when the token stream ran out while `label` was
/// expected.
pub open spec fn expected_eof_message(label: Seq<char>) -> Seq<char> {
    "Expected "@ + label + ", but got EOF"@
}

/// The message raised when `label` was expected but the token `got` stood
/// there.
pub open spec fn expected_got_message(label: Seq<char>, got: TokenModel) -> Seq<char> {
    "Expected "@ + label + ", but got "@ + token_text(got)
}

/// Builds the out-of-tokens error for `label`.
pub(crate) fn eof_error(label: &str) -> (e: ParseError)
    ensures
        e.message@ == expected_eof_message(label@),
{
    let message = String::from_str("Expected ").concat(label).concat(", but got EOF");
    ParseError { message }
}

/// Builds the mismatch error for `label` and the token observed.
pub(crate) fn mismatch_error(label: &str, got: &Token) -> (e: ParseError)
    ensures
        e.message@ == expected_got_message(label@, got@),
{
    let described = got.describe();
    let message = String::from_str("Expected ").concat(label).concat(", but got ").concat(
        described.as_str(),
    );
    ParseError { message }
}

} // verus!
