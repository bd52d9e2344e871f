//! Bridging between byte-level text (the form the adapter computes on) and
//! Rust strings (the form callers see).
//!
//! The adapter's key strings, listener tokens and request identifiers are all
//! ASCII. The core routines therefore work on byte vectors, whose contents are
//! easy to state exactly, and the public operations convert the finished bytes
//! into a `String` once, through `string_from_ascii`.

use vstd::prelude::*;

verus! {

/// The characters that a sequence of ASCII bytes spells.
pub open spec fn chars_of(b: Seq<u8>) -> Seq<char> {
    Seq::new(b.len(), |i: int| b[i] as char)
}

/// Every byte is ASCII (fits in seven bits).
pub open spec fn ascii_bytes(b: Seq<u8>) -> bool {
    forall|i: int| 0 <= i < b.len() ==> b[i] < 128
}

/// The bytes that a sequence of ASCII characters spells.
pub open spec fn bytes_of(s: Seq<char>) -> Seq<u8> {
    Seq::new(s.len(), |i: int| s[i] as u8)
}

/// Spelling bytes as characters and back returns the same bytes.
pub proof fn lemma_bytes_chars_roundtrip(b: Seq<u8>)
    requires
        ascii_bytes(b),
    ensures
        bytes_of(chars_of(b)) =~= b,
{
}

/// Spelling ASCII bytes as characters gives ASCII characters, and
/// UTF-8-encoding those characters gives back exactly the bytes.
pub proof fn lemma_encode_chars_of(b: Seq<u8>)
    requires
        ascii_bytes(b),
    ensures
        vstd::utf8::is_ascii_chars(chars_of(b)),
        vstd::utf8::encode_utf8(chars_of(b)) == b,
{
    let cs = chars_of(b);
    assert forall|i: int| 0 <= i < cs.len() implies '\0' <= #[trigger] cs[i] <= '\u{7f}' by {
        assert(cs[i] == b[i] as char);
    }
    vstd::utf8::is_ascii_chars_encode_utf8(cs);
    assert(vstd::utf8::encode_utf8(cs) =~= b);
}

/// The bytes spelled by ASCII characters are ASCII bytes.
pub proof fn lemma_ascii_field_bytes(s: Seq<char>)
    requires
        vstd::utf8::is_ascii_chars(s),
    ensures
        ascii_bytes(bytes_of(s)),
{
    vstd::utf8::is_ascii_chars_nat_bound(s);
    assert forall|i: int| 0 <= i < bytes_of(s).len() implies #[trigger] bytes_of(s)[i] < 128 by {
        assert((s[i] as nat) < 128);
    }
}

/// ASCII bytes stay ASCII under concatenation.
pub proof fn lemma_ascii_concat(x: Seq<u8>, y: Seq<u8>)
    requires
        ascii_bytes(x),
        ascii_bytes(y),
    ensures
        ascii_bytes(x + y),
{
    assert forall|i: int| 0 <= i < (x + y).len() implies #[trigger] (x + y)[i] < 128 by {
        if i < x.len() {
            assert((x + y)[i] == x[i]);
        } else {
            assert((x + y)[i] == y[i - x.len()]);
        }
    }
}

/// Appends all of `src` to `dst`.
pub fn push_bytes(dst: &mut Vec<u8>, src: &[u8])
    ensures
        final(dst)@ == old(dst)@ + src@,
{
    let mut i: usize = 0;
    while i < src.len()
        invariant
            0 <= i <= src@.len(),
            dst@ == old(dst)@ + src@.take(i as int),
        decreases src@.len() - i,
    {
        dst.push(src[i]);
        assert(dst@ =~= old(dst)@ + src@.take(i + 1 as int));
        i = i + 1;
    }
    assert(dst@ =~= old(dst)@ + src@);
}

/// Relies on `String::from_utf8`: ASCII bytes decode to exactly the
/// characters they spell, one character per byte.
#[verifier::external_body]
pub fn string_from_ascii(v: Vec<u8>) -> (r: String)
    requires
        ascii_bytes(v@),
    ensures
        r@ == chars_of(v@),
{
    match String::from_utf8(v) {
        Ok(s) => s,
        Err(_) => String::new(),
    }
}

} // verus!
