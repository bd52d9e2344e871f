//! The payload adapter and the message envelope.
//!
//! A uProtocol payload is either a plain byte value or a shared-memory
//! reference; the adapter only carries values. Outbound, the bytes become
//! the substrate value and the format becomes the decimal suffix of the
//! substrate encoding; inbound, the suffix is parsed back into the format
//! and the sample bytes become the value.

use vstd::prelude::*;
use crate::codec::UAttributes;
use crate::numfmt::{dec_i32_of, i32_to_dec, is_digit, lemma_dec_of_digits, parse_i32, parse_i32_spec};
use crate::text::{chars_of, string_from_ascii};
use crate::uri::UUri;

verus! {

/// The content of a payload: plain bytes, or a reference into shared
/// memory that the adapter does not follow.
#[derive(Clone, PartialEq, Eq, Debug)]
pub enum Data {
    Reference(u64),
    Value(Vec<u8>),
}

/// A uProtocol payload: content, format code and optional length hint.
#[derive(Clone, PartialEq, Eq, Debug)]
pub struct UPayload {
    pub length: Option<i32>,
    pub format: i32,
    pub data: Option<Data>,
}

/// A delivered message: the topic it arrived on, its attributes and its
/// payload.
#[derive(Clone, PartialEq, Eq, Debug)]
pub struct UMessage {
    pub source: Option<UUri>,
    pub attributes: Option<UAttributes>,
    pub payload: Option<UPayload>,
}

/// The bytes of a payload whose data is a plain value.
pub open spec fn payload_value_bytes(p: UPayload) -> Option<Seq<u8>> {
    match p.data {
        Some(Data::Value(b)) => Some(b@),
        _ => None,
    }
}

/// Takes the value bytes out of a payload; `None` when the payload holds no
/// data or a shared-memory reference.
pub fn payload_bytes(p: UPayload) -> (r: Option<Vec<u8>>)
    ensures
        match r {
            Some(v) => payload_value_bytes(p) == Some(v@),
            None => payload_value_bytes(p) is None,
        },
{
    match p.data {
        Some(Data::Value(b)) => Some(b),
        _ => None,
    }
}

/// The decimal suffix under which a payload format travels.
pub open spec fn format_suffix_of(format: i32) -> Seq<u8> {
    dec_i32_of(format as int)
}

/// A signed decimal rendering is ASCII.
pub proof fn lemma_dec_i32_ascii(n: i32)
    ensures
        crate::text::ascii_bytes(dec_i32_of(n as int)),
{
    let s = dec_i32_of(n as int);
    if n < 0 {
        let m = dec_of_mag(n);
        lemma_dec_of_digits(((-(n as int))) as nat);
        assert forall|i: int| 0 <= i < s.len() implies #[trigger] s[i] < 128 by {
            if i >= 1 {
                assert(s[i] == m[i - 1]);
                assert(is_digit(m[i - 1]));
            }
        }
    } else {
        lemma_dec_of_digits(n as nat);
        assert forall|i: int| 0 <= i < s.len() implies #[trigger] s[i] < 128 by {
            assert(is_digit(s[i]));
        }
    }
}

/// The digit part of a negative value's rendering.
spec fn dec_of_mag(n: i32) -> Seq<u8> {
    crate::numfmt::dec_of((-(n as int)) as nat)
}

/// Renders the format of an outbound payload as its encoding suffix.
pub fn format_suffix(format: i32) -> (s: String)
    ensures
        s@ == chars_of(format_suffix_of(format)),
{
    let bytes: Vec<u8> = i32_to_dec(format);
    proof {
        lemma_dec_i32_ascii(format);
    }
    string_from_ascii(bytes)
}

/// Builds the inbound payload from a sample's encoding suffix and bytes;
/// fails exactly when the suffix does not parse as a signed 32-bit value.
pub fn payload_from_value(suffix: &[u8], data: Vec<u8>) -> (r: Option<UPayload>)
    ensures
        match r {
            Some(p) => {
                &&& parse_i32_spec(suffix@) == Some(p.format)
                &&& p.data == Some(Data::Value(data))
                &&& p.length == Some(0i32)
            },
            None => parse_i32_spec(suffix@) is None,
        },
{
    match parse_i32(suffix) {
        Some(format) => Some(UPayload { length: Some(0), format, data: Some(Data::Value(data)) }),
        None => None,
    }
}

/// An inbound payload for a query that carried no value: unspecified
/// format and no data.
pub fn empty_payload() -> (p: UPayload)
    ensures
        p.length == Some(0i32),
        p.format == 0i32,
        p.data is None,
{
    UPayload { length: Some(0), format: 0, data: None }
}

/// Law: a payload format survives the trip through the encoding suffix —
/// parsing the rendered suffix returns exactly the format.
pub proof fn lemma_format_suffix_roundtrip(format: i32)
    ensures
        parse_i32_spec(format_suffix_of(format)) == Some(format),
{
    crate::numfmt::lemma_parse_dec_i32(format);
}

} // verus!
