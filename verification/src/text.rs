//! Conversions between strings, character vectors, and UTF-8 bytes.
//!
//! The engine's container format stores text as UTF-8 bytes while all
//! parsing and serialising works over characters; these helpers bridge the
//! two. The byte side is modelled with vstd's UTF-8 specification, so the
//! encode/decode round trip is available to callers as a proved fact.

use vstd::prelude::*;
use vstd::utf8::{decode_utf8, valid_utf8};

verus! {

/// Relies on `str::chars`: yields the characters of the string in order.
#[verifier::external_body]
pub fn string_to_chars(s: &str) -> (r: Vec<char>)
    ensures
        r@ == s@,
{
    s.chars().collect()
}

/// Relies on `String`'s `FromIterator<char>`: collecting characters in order
/// builds the string of exactly those characters.
#[verifier::external_body]
pub fn chars_to_string(v: &Vec<char>) -> (r: String)
    ensures
        r@ == v@,
{
    v.iter().collect()
}

/// Relies on `char::from_u32`: every non-surrogate value up to the last
/// code point names exactly the scalar with that value.
#[verifier::external_body]
pub fn char_from_scalar(v: u32) -> (r: char)
    requires
        v < 0xD800 || (0xE000 <= v && v <= 0x10FFFF),
    ensures
        r == (v as char),
        (r as u32) == v,
{
    char::from_u32(v).unwrap_or(' ')
}

/// Relies on `String::from_utf8`: succeeds exactly on valid UTF-8 input and
/// decodes it to the characters the bytes encode.
#[verifier::external_body]
pub fn bytes_to_string(v: Vec<u8>) -> (r: Option<String>)
    ensures
        r is Some <==> valid_utf8(v@),
        r is Some ==> r.unwrap()@ == decode_utf8(v@),
{
    match String::from_utf8(v) {
        Ok(s) => Some(s),
        Err(_) => None,
    }
}

} // verus!
