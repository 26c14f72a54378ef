//! Messages read off a socket connection.

use vstd::prelude::*;
use vstd::utf8::{decode_utf8, valid_utf8};
use crate::text::{trim_end, trim_end_char, trim_end_char_then_space};

verus! {

/// `String::from_utf8`: the text the bytes encode in UTF-8, or `None` when
/// they are not valid UTF-8.
#[verifier::external_body]
fn utf8_to_string(bytes: Vec<u8>) -> (r: Option<String>)
    ensures
        r is Some <==> valid_utf8(bytes@),
        r matches Some(s) ==> s@ == decode_utf8(bytes@),
{
    String::from_utf8(bytes).ok()
}

/// The text of a message read off a connection: its bytes as UTF-8,
/// without the trailing NUL characters the read buffers leave and then
/// without trailing white space; `None` when the bytes are not UTF-8.
pub fn decode_message(bytes: Vec<u8>) -> (r: Option<String>)
    ensures
        valid_utf8(bytes@) ==> (r matches Some(s) && s@ == trim_end(trim_end_char(decode_utf8(bytes@), '\0'))),
        !valid_utf8(bytes@) ==> r is None,
{
    match utf8_to_string(bytes) {
        Some(text) => Some(trim_end_char_then_space(text.as_str(), '\0')),
        None => None,
    }
}

} // verus!
