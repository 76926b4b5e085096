//! A JSON-RPC tool-invocation server library: a JSON codec, an envelope
//! dispatcher, a tool registry, and the decision logic of the transports.

use vstd::prelude::*;

pub mod codec;
pub mod json;
pub mod parse;
pub mod schema;
pub mod server;
pub mod tools;
pub mod transport;
pub(crate) mod trusted_str;

verus! {

/// True when the character is one of the four JSON whitespace characters.
pub open spec fn is_ws_char(c: char) -> bool {
    c == ' ' || c == '\t' || c == '\n' || c == '\r'
}

/// True when the character is a decimal digit.
pub open spec fn is_digit_char(c: char) -> bool {
    '0' <= c && c <= '9'
}

} // verus!
