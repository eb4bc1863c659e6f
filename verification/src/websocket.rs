//! Messages that come in over a websocket.

use vstd::prelude::*;

verus! {

/// A message as the transport delivers it.
#[derive(Debug, Clone)]
pub enum WsMessage {
    Text(String),
    Binary(Vec<u8>),
    /// The peer closes the connection, with a code where it gives one.
    Close { code: Option<u16>, reason: String },
    /// A ping, a pong or a raw frame.
    Control,
}

/// Reads bytes as UTF-8 with `String::from_utf8`: it succeeds where the bytes are valid UTF-8, and
/// gives the characters that they encode.
#[verifier::external_body]
pub(crate) fn text_from_utf8(bytes: Vec<u8>) -> (text: Option<String>)
    ensures
        text is Some <==> vstd::utf8::valid_utf8(bytes@),
        text matches Some(s) ==> s@ == vstd::utf8::decode_utf8(bytes@),
{
    String::from_utf8(bytes).ok()
}

} // verus!
