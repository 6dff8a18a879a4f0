//! JSON bodies written by `serde_json`: the bytes it produces for a
//! one-entry object such as the error body `{"error": <message>}`.
use crate::text::utf8_of;
use vstd::prelude::*;

verus! {

/// The lowercase hexadecimal digit for a value below 16.
pub open spec fn hex_lower(d: u8) -> u8 {
    if d < 10 {
        (0x30 + d) as u8
    } else {
        (0x61 + d - 10) as u8
    }
}

/// How one byte of a string's UTF-8 encoding is written inside a JSON
/// string: `"` and `\` and the control bytes below 0x20 are escaped (the
/// short forms `\b \t \n \f \r` where they exist, `\u00XX` in lowercase hex
/// otherwise); every other byte is written as it is.
pub open spec fn escaped_byte(b: u8) -> Seq<u8> {
    if b == 0x22 {
        seq![0x5cu8, 0x22]
    } else if b == 0x5c {
        seq![0x5cu8, 0x5c]
    } else if b == 0x08 {
        seq![0x5cu8, 0x62]
    } else if b == 0x09 {
        seq![0x5cu8, 0x74]
    } else if b == 0x0a {
        seq![0x5cu8, 0x6e]
    } else if b == 0x0c {
        seq![0x5cu8, 0x66]
    } else if b == 0x0d {
        seq![0x5cu8, 0x72]
    } else if b < 0x20 {
        seq![0x5cu8, 0x75, 0x30, 0x30, hex_lower(b / 16), hex_lower(b % 16)]
    } else {
        seq![b]
    }
}

/// The bytes escaped one after the other.
pub open spec fn escaped_bytes(b: Seq<u8>) -> Seq<u8>
    decreases b.len(),
{
    if b.len() == 0 {
        Seq::<u8>::empty()
    } else {
        escaped_bytes(b.drop_last()) + escaped_byte(b.last())
    }
}

/// A text as a JSON string literal: quoted, its UTF-8 bytes escaped.
pub open spec fn json_string(text: Seq<char>) -> Seq<u8> {
    seq![0x22u8] + escaped_bytes(utf8_of(text)) + seq![0x22u8]
}

/// A JSON object with one entry, written compactly: `{`, the key and the
/// value as JSON strings separated by `:`, then `}`.
pub open spec fn json_object_1(key: Seq<char>, value: Seq<char>) -> Seq<u8> {
    seq![0x7bu8] + json_string(key) + seq![0x3au8] + json_string(value) + seq![0x7du8]
}

/// The JSON body `{"error":"<message>"}` for a message.
pub open spec fn error_body(message: Seq<char>) -> Seq<u8> {
    json_object_1("error"@, message)
}

/// `serde_json::to_vec` on a map with the single entry `key` -> `value`.
/// The compact formatter writes `{`, the key and the value as JSON strings
/// (through its escape table) separated by `:`, then `}`; the writer is a
/// `Vec`, which takes every write, and string keys are accepted, so the
/// call does not fail.
#[verifier::external_body]
pub(crate) fn json_object_bytes(key: &str, value: &str) -> (r: Option<Vec<u8>>)
    ensures
        match r {
            Some(v) => v@ == json_object_1(key@, value@),
            None => false,
        },
{
    serde_json::to_vec(&std::collections::BTreeMap::from([(key, value)])).ok()
}

} // verus!
