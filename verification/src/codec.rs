//! The attribute codec: uProtocol message attributes and their binary form.
//!
//! Attributes travel beside each sample as a substrate attachment entry whose
//! key is the literal byte string `uattributes`. The value is a compact
//! field-tagged binary rendering in the protobuf wire format: each present
//! field is a single-byte tag (field number and wire type) followed by a
//! base-128 varint or a length-delimited payload. Fields are emitted in
//! ascending field order and absent or zero-valued fields are omitted, so
//! every attribute record has exactly one encoding, and decoding an encoding
//! returns the record it came from.
//!
//! The record carries what the adapter itself reads — the message kind and
//! the request identifier — together with the identifier, priority,
//! time-to-live, token, permission level and communication status that
//! uProtocol attributes hold; their meaning is opaque here.

use vstd::prelude::*;
use crate::numfmt::{dec_of, is_digit, lemma_dec_of_digits, u64_to_dec};
use crate::text::{ascii_bytes, chars_of, push_bytes, string_from_ascii};

verus! {

/// A 128-bit uProtocol identifier, split into its two halves.
#[derive(Clone, Copy, PartialEq, Eq, Structural, Debug)]
pub struct Uuid {
    pub msb: u64,
    pub lsb: u64,
}

/// The canonical request-id string `<msb-decimal>:<lsb-decimal>`.
pub open spec fn uuid_str_of(u: Uuid) -> Seq<u8> {
    dec_of(u.msb as nat) + seq![58u8] + dec_of(u.lsb as nat)
}

/// A request-id string is ASCII: decimal digits around one colon.
pub proof fn lemma_uuid_str_ascii(u: Uuid)
    ensures
        ascii_bytes(uuid_str_of(u)),
{
    lemma_dec_of_digits(u.msb as nat);
    lemma_dec_of_digits(u.lsb as nat);
    let s = uuid_str_of(u);
    let hi = dec_of(u.msb as nat);
    let lo = dec_of(u.lsb as nat);
    assert forall|i: int| 0 <= i < s.len() implies #[trigger] s[i] < 128 by {
        if i < hi.len() {
            assert(s[i] == hi[i]);
            assert(is_digit(hi[i]));
        } else if i == hi.len() {
            assert(s[i] == 58);
        } else {
            assert(s[i] == lo[i - hi.len() - 1]);
            assert(is_digit(lo[i - hi.len() - 1]));
        }
    }
}

/// Renders the canonical request-id string of a UUID.
pub fn uuid_to_string(uuid: &Uuid) -> (r: String)
    ensures
        r@ == chars_of(uuid_str_of(*uuid)),
{
    let mut out: Vec<u8> = u64_to_dec(uuid.msb);
    out.push(58);
    let low: Vec<u8> = u64_to_dec(uuid.lsb);
    push_bytes(&mut out, low.as_slice());
    proof {
        lemma_dec_of_digits(uuid.msb as nat);
        lemma_dec_of_digits(uuid.lsb as nat);
        assert(out@ =~= uuid_str_of(*uuid));
        lemma_uuid_str_ascii(*uuid);
    }
    string_from_ascii(out)
}

/// Law: the request-id string is injective — distinct UUIDs always render
/// to distinct strings, so the pending-query table never confuses two
/// requests.
pub proof fn lemma_uuid_str_injective(a: Uuid, b: Uuid)
    requires
        uuid_str_of(a) == uuid_str_of(b),
    ensures
        a == b,
{
    let s = uuid_str_of(a);
    let ha = dec_of(a.msb as nat);
    let la = dec_of(a.lsb as nat);
    let hb = dec_of(b.msb as nat);
    let lb = dec_of(b.lsb as nat);
    lemma_dec_of_digits(a.msb as nat);
    lemma_dec_of_digits(a.lsb as nat);
    lemma_dec_of_digits(b.msb as nat);
    lemma_dec_of_digits(b.lsb as nat);
    assert(s[ha.len() as int] == 58);
    assert(uuid_str_of(b)[hb.len() as int] == 58);
    if ha.len() < hb.len() {
        assert(uuid_str_of(b)[ha.len() as int] == hb[ha.len() as int]);
        assert(is_digit(hb[ha.len() as int]));
        assert(false);
    }
    if hb.len() < ha.len() {
        assert(s[hb.len() as int] == ha[hb.len() as int]);
        assert(is_digit(ha[hb.len() as int]));
        assert(false);
    }
    assert(ha.len() == hb.len());
    assert(ha =~= hb) by {
        assert forall|i: int| 0 <= i < ha.len() implies ha[i] == hb[i] by {
            assert(s[i] == ha[i]);
            assert(uuid_str_of(b)[i] == hb[i]);
        }
    }
    crate::numfmt::lemma_dec_of_injective(a.msb as nat, b.msb as nat);
    assert(s.len() == uuid_str_of(b).len());
    assert(la.len() == lb.len());
    assert(la =~= lb) by {
        assert forall|i: int| 0 <= i < la.len() implies la[i] == lb[i] by {
            assert(s[ha.len() + 1 + i] == la[i]);
            assert(uuid_str_of(b)[hb.len() + 1 + i] == lb[i]);
        }
    }
    crate::numfmt::lemma_dec_of_injective(a.lsb as nat, b.lsb as nat);
}

/// The uProtocol message attributes the adapter carries.
#[derive(Clone, PartialEq, Eq, Debug)]
pub struct UAttributes {
    pub id: Option<Uuid>,
    pub type_: i32,
    pub priority: i32,
    pub ttl: Option<i32>,
    pub token: Option<Vec<u8>>,
    pub permission_level: Option<i32>,
    pub commstatus: Option<i32>,
    pub reqid: Option<Uuid>,
}

impl Default for UAttributes {
    fn default() -> (d: Self)
        ensures
            d == (UAttributes {
                id: None,
                type_: 0,
                priority: 0,
                ttl: None,
                token: None,
                permission_level: None,
                commstatus: None,
                reqid: None,
            }),
    {
        UAttributes {
            id: None,
            type_: 0,
            priority: 0,
            ttl: None,
            token: None,
            permission_level: None,
            commstatus: None,
            reqid: None,
        }
    }
}


/// The mathematical image of an attribute record: the same fields with the
/// token as a byte sequence.
pub struct AttrsView {
    pub id: Option<Uuid>,
    pub type_: i32,
    pub priority: i32,
    pub ttl: Option<i32>,
    pub token: Option<Seq<u8>>,
    pub permission_level: Option<i32>,
    pub commstatus: Option<i32>,
    pub reqid: Option<Uuid>,
}

impl View for UAttributes {
    type V = AttrsView;

    open spec fn view(&self) -> AttrsView {
        AttrsView {
            id: self.id,
            type_: self.type_,
            priority: self.priority,
            ttl: self.ttl,
            token: match self.token {
                Some(t) => Some(t@),
                None => None,
            },
            permission_level: self.permission_level,
            commstatus: self.commstatus,
            reqid: self.reqid,
        }
    }
}

/// Base-128 varint of `n`, least significant group first, minimal length.
pub open spec fn varint(n: u64) -> Seq<u8>
    decreases n,
{
    if n < 128 {
        seq![n as u8]
    } else {
        seq![(n % 128 + 128) as u8] + varint(n / 128)
    }
}

/// The 64-bit two's-complement image of a signed 32-bit value, as protobuf
/// carries `int32` fields on the wire.
pub open spec fn wire64_of_i32(v: i32) -> u64 {
    (v as i64) as u64
}

/// The body of an encoded UUID submessage: `msb` under field 1 and `lsb`
/// under field 2, zero halves omitted.
pub open spec fn uuid_body(u: Uuid) -> Seq<u8> {
    (if u.msb != 0 {
        seq![8u8] + varint(u.msb)
    } else {
        Seq::<u8>::empty()
    }) + (if u.lsb != 0 {
        seq![16u8] + varint(u.lsb)
    } else {
        Seq::<u8>::empty()
    })
}

/// A length-delimited field holding `body`, under the given tag byte.
pub open spec fn len_field(tag: u8, body: Seq<u8>) -> Seq<u8> {
    seq![tag] + varint(body.len() as u64) + body
}

/// A varint field holding `v`, under the given tag byte.
pub open spec fn varint_field(tag: u8, v: u64) -> Seq<u8> {
    seq![tag] + varint(v)
}

/// The encoding of an optional UUID field.
pub open spec fn opt_uuid_bytes(tag: u8, u: Option<Uuid>) -> Seq<u8> {
    match u {
        Some(x) => len_field(tag, uuid_body(x)),
        None => Seq::<u8>::empty(),
    }
}

/// The encoding of an optional signed 32-bit field.
pub open spec fn opt_i32_bytes(tag: u8, v: Option<i32>) -> Seq<u8> {
    match v {
        Some(x) => varint_field(tag, wire64_of_i32(x)),
        None => Seq::<u8>::empty(),
    }
}

/// The encoding of a plain enum-valued field, omitted when zero.
pub open spec fn enum_bytes(tag: u8, v: i32) -> Seq<u8> {
    if v != 0 {
        varint_field(tag, wire64_of_i32(v))
    } else {
        Seq::<u8>::empty()
    }
}

/// The complete encoding of an attribute record: fields 1 through 8 in
/// order, absent and zero-valued fields omitted.
pub open spec fn attrs_bytes(a: AttrsView) -> Seq<u8> {
    opt_uuid_bytes(10, a.id) + enum_bytes(16, a.type_) + enum_bytes(24, a.priority) + opt_i32_bytes(
        32,
        a.ttl,
    ) + (match a.token {
        Some(t) => len_field(42, t),
        None => Seq::<u8>::empty(),
    }) + opt_i32_bytes(48, a.permission_level) + opt_i32_bytes(56, a.commstatus) + opt_uuid_bytes(
        66,
        a.reqid,
    )
}

/// Appends the varint of `n` to `out`.
pub fn write_varint(out: &mut Vec<u8>, n: u64)
    ensures
        final(out)@ == old(out)@ + varint(n),
    decreases n,
{
    if n < 128 {
        out.push(n as u8);
        assert(final(out)@ =~= old(out)@ + varint(n));
    } else {
        out.push((n % 128 + 128) as u8);
        let ghost mid: Seq<u8> = out@;
        write_varint(out, n / 128);
        assert(final(out)@ =~= old(out)@ + varint(n));
    }
}

/// Appends the encoding of a UUID submessage body to `out`.
fn write_uuid_body(out: &mut Vec<u8>, u: &Uuid)
    ensures
        final(out)@ == old(out)@ + uuid_body(*u),
{
    let ghost base: Seq<u8> = out@;
    if u.msb != 0 {
        out.push(8);
        write_varint(out, u.msb);
    }
    if u.lsb != 0 {
        out.push(16);
        write_varint(out, u.lsb);
    }
    assert(final(out)@ =~= old(out)@ + uuid_body(*u));
}

/// Appends an optional UUID field.
fn write_opt_uuid(out: &mut Vec<u8>, tag: u8, u: &Option<Uuid>)
    ensures
        final(out)@ == old(out)@ + opt_uuid_bytes(tag, *u),
{
    match u {
        Some(x) => {
            let mut body: Vec<u8> = Vec::new();
            write_uuid_body(&mut body, x);
            out.push(tag);
            write_varint(out, body.len() as u64);
            push_bytes(out, body.as_slice());
            assert(final(out)@ =~= old(out)@ + opt_uuid_bytes(tag, *u));
        },
        None => {
            assert(final(out)@ =~= old(out)@ + opt_uuid_bytes(tag, *u));
        },
    }
}

/// Appends an enum-valued field, omitted when zero.
fn write_enum_field(out: &mut Vec<u8>, tag: u8, v: i32)
    ensures
        final(out)@ == old(out)@ + enum_bytes(tag, v),
{
    if v != 0 {
        out.push(tag);
        write_varint(out, i32_to_wire64(v));
        assert(final(out)@ =~= old(out)@ + enum_bytes(tag, v));
    } else {
        assert(final(out)@ =~= old(out)@ + enum_bytes(tag, v));
    }
}

/// Appends an optional signed 32-bit field.
fn write_opt_i32(out: &mut Vec<u8>, tag: u8, v: &Option<i32>)
    ensures
        final(out)@ == old(out)@ + opt_i32_bytes(tag, *v),
{
    match v {
        Some(x) => {
            out.push(tag);
            write_varint(out, i32_to_wire64(*x));
            assert(final(out)@ =~= old(out)@ + opt_i32_bytes(tag, *v));
        },
        None => {
            assert(final(out)@ =~= old(out)@ + opt_i32_bytes(tag, *v));
        },
    }
}

/// Appends the optional token field.
fn write_opt_token(out: &mut Vec<u8>, tag: u8, t: &Option<Vec<u8>>)
    ensures
        final(out)@ == old(out)@ + (match *t {
            Some(tk) => len_field(tag, tk@),
            None => Seq::<u8>::empty(),
        }),
{
    match t {
        Some(tk) => {
            out.push(tag);
            write_varint(out, tk.len() as u64);
            push_bytes(out, tk.as_slice());
            assert(final(out)@ =~= old(out)@ + len_field(tag, tk@));
        },
        None => {
            assert(final(out)@ =~= old(out)@ + Seq::<u8>::empty());
        },
    }
}

/// Encodes an attribute record into its binary attachment form.
pub fn encode_attributes(a: &UAttributes) -> (r: Vec<u8>)
    ensures
        r@ == attrs_bytes(a@),
{
    let mut out: Vec<u8> = Vec::new();
    write_opt_uuid(&mut out, 10, &a.id);
    write_enum_field(&mut out, 16, a.type_);
    write_enum_field(&mut out, 24, a.priority);
    write_opt_i32(&mut out, 32, &a.ttl);
    write_opt_token(&mut out, 42, &a.token);
    write_opt_i32(&mut out, 48, &a.permission_level);
    write_opt_i32(&mut out, 56, &a.commstatus);
    write_opt_uuid(&mut out, 66, &a.reqid);
    assert(out@ =~= attrs_bytes(a@));
    out
}

/// The 64-bit wire image of a signed 32-bit value, computed executably.
pub fn i32_to_wire64(v: i32) -> (r: u64)
    ensures
        r == wire64_of_i32(v),
{
    (v as i64) as u64
}


/// The unbounded value and remainder of a varint parse, or `None` when the
/// input ends inside a varint.
pub open spec fn parse_varint_rec(s: Seq<u8>) -> Option<(nat, Seq<u8>)>
    decreases s.len(),
{
    if s.len() == 0 {
        None
    } else if s[0] < 128 {
        Some(((s[0] as nat), s.skip(1)))
    } else {
        match parse_varint_rec(s.skip(1)) {
            Some((v, r)) => Some((v * 128 + (s[0] - 128) as nat, r)),
            None => None,
        }
    }
}

/// Parses a varint that fits in 64 bits, returning value and remainder.
pub open spec fn parse_varint(s: Seq<u8>) -> Option<(u64, Seq<u8>)> {
    match parse_varint_rec(s) {
        Some((v, r)) => if v <= u64::MAX as nat {
            Some((v as u64, r))
        } else {
            None
        },
        None => None,
    }
}

/// Parsing an encoded varint returns the encoded value and the rest.
pub proof fn lemma_parse_varint(n: u64, rest: Seq<u8>)
    ensures
        parse_varint(varint(n) + rest) == Some((n, rest)),
    decreases n,
{
    let s = varint(n) + rest;
    if n < 128 {
        assert(s[0] == n as u8);
        assert(s.skip(1) =~= rest);
    } else {
        lemma_parse_varint(n / 128, rest);
        assert(s[0] == (n % 128 + 128) as u8);
        assert(s.skip(1) =~= varint(n / 128) + rest);
        vstd::arithmetic::div_mod::lemma_fundamental_div_mod(n as int, 128);
        assert(parse_varint_rec(varint(n / 128) + rest) == Some((((n / 128) as nat), rest)));
        assert((n / 128) as nat * 128 + ((n % 128 + 128) as u8 - 128) as nat == n as nat);
    }
}

/// An optional varint-valued field under `tag`: absent when the input is
/// empty or starts with a different tag.
pub open spec fn parse_opt_varint_field(s: Seq<u8>, tag: u8) -> Option<(Option<u64>, Seq<u8>)> {
    if s.len() > 0 && s[0] == tag {
        match parse_varint(s.skip(1)) {
            Some((v, r)) => Some((Some(v), r)),
            None => None,
        }
    } else {
        Some((None, s))
    }
}

/// An optional length-delimited field under `tag`.
pub open spec fn parse_len_field(s: Seq<u8>, tag: u8) -> Option<(Option<Seq<u8>>, Seq<u8>)> {
    if s.len() > 0 && s[0] == tag {
        match parse_varint(s.skip(1)) {
            Some((l, r)) => if l as int <= r.len() {
                Some((Some(r.take(l as int)), r.skip(l as int)))
            } else {
                None
            },
            None => None,
        }
    } else {
        Some((None, s))
    }
}

/// The value of an optional varint, with protobuf's zero default.
pub open spec fn or_zero(v: Option<u64>) -> u64 {
    match v {
        Some(x) => x,
        None => 0,
    }
}

/// The signed 32-bit value carried by a 64-bit wire image: its low 32 bits.
pub open spec fn i32_of_wire64(v: u64) -> i32 {
    (v as u32) as i32
}

/// The optional signed 32-bit value of an optional wire image.
pub open spec fn opt_i32_of(v: Option<u64>) -> Option<i32> {
    match v {
        Some(x) => Some(i32_of_wire64(x)),
        None => None,
    }
}

/// Decodes a UUID submessage body: both halves optional, nothing after.
pub open spec fn parse_uuid_body(b: Seq<u8>) -> Option<Uuid> {
    match parse_opt_varint_field(b, 8) {
        Some((m, r1)) => match parse_opt_varint_field(r1, 16) {
            Some((l, r2)) => if r2.len() == 0 {
                Some(Uuid { msb: or_zero(m), lsb: or_zero(l) })
            } else {
                None
            },
            None => None,
        },
        None => None,
    }
}

/// An optional UUID-valued field under `tag`.
pub open spec fn parse_opt_uuid_field(s: Seq<u8>, tag: u8) -> Option<(Option<Uuid>, Seq<u8>)> {
    match parse_len_field(s, tag) {
        Some((Some(bb), r)) => match parse_uuid_body(bb) {
            Some(u) => Some((Some(u), r)),
            None => None,
        },
        Some((None, r)) => Some((None, r)),
        None => None,
    }
}

/// Decodes the trailing four fields: token, permission level,
/// communication status and request id, then nothing.
pub open spec fn decode_attrs_tail(b: Seq<u8>) -> Option<
    (Option<Seq<u8>>, Option<u64>, Option<u64>, Option<Uuid>),
> {
    match parse_len_field(b, 42) {
        Some((tok, r5)) => match parse_opt_varint_field(r5, 48) {
            Some((pl, r6)) => match parse_opt_varint_field(r6, 56) {
                Some((cs, r7)) => match parse_opt_uuid_field(r7, 66) {
                    Some((rq, r8)) => if r8.len() == 0 {
                        Some((tok, pl, cs, rq))
                    } else {
                        None
                    },
                    None => None,
                },
                None => None,
            },
            None => None,
        },
        None => None,
    }
}

/// Decodes the middle and trailing fields: priority, time-to-live, then
/// the tail.
pub open spec fn decode_attrs_mid(b: Seq<u8>) -> Option<
    (Option<u64>, Option<u64>, Option<Seq<u8>>, Option<u64>, Option<u64>, Option<Uuid>),
> {
    match parse_opt_varint_field(b, 24) {
        Some((pr, r3)) => match parse_opt_varint_field(r3, 32) {
            Some((ttl, r4)) => match decode_attrs_tail(r4) {
                Some((tok, pl, cs, rq)) => Some((pr, ttl, tok, pl, cs, rq)),
                None => None,
            },
            None => None,
        },
        None => None,
    }
}

/// Decodes an attribute record from its binary attachment form: the eight
/// fields in ascending order, then nothing.
pub open spec fn decode_attrs(b: Seq<u8>) -> Option<AttrsView> {
    match parse_opt_uuid_field(b, 10) {
        Some((id, r1)) => match parse_opt_varint_field(r1, 16) {
            Some((ty, r2)) => match decode_attrs_mid(r2) {
                Some((pr, ttl, tok, pl, cs, rq)) => Some(
                    AttrsView {
                        id: id,
                        type_: i32_of_wire64(or_zero(ty)),
                        priority: i32_of_wire64(or_zero(pr)),
                        ttl: opt_i32_of(ttl),
                        token: tok,
                        permission_level: opt_i32_of(pl),
                        commstatus: opt_i32_of(cs),
                        reqid: rq,
                    },
                ),
                None => None,
            },
            None => None,
        },
        None => None,
    }
}

/// A record whose token, if any, fits the wire's length prefix.
pub open spec fn attrs_wf(a: AttrsView) -> bool {
    match a.token {
        Some(t) => t.len() <= u64::MAX,
        None => true,
    }
}

/// A present varint field parses back to its value and leaves the rest.
proof fn lemma_parse_field_present(tag: u8, v: u64, rest: Seq<u8>)
    ensures
        parse_opt_varint_field(varint_field(tag, v) + rest, tag) == Some((Some(v), rest)),
{
    let s = varint_field(tag, v) + rest;
    assert(s[0] == tag);
    assert(s.skip(1) =~= varint(v) + rest);
    lemma_parse_varint(v, rest);
}

/// An absent field leaves the input alone when the head is another tag.
proof fn lemma_parse_field_absent(tag: u8, s: Seq<u8>)
    requires
        s.len() == 0 || s[0] != tag,
    ensures
        parse_opt_varint_field(s, tag) == Some((None::<u64>, s)),
{
}

/// A present length-delimited field parses back to its body.
proof fn lemma_parse_len_present(tag: u8, body: Seq<u8>, rest: Seq<u8>)
    requires
        body.len() <= u64::MAX,
    ensures
        parse_len_field(len_field(tag, body) + rest, tag) == Some((Some(body), rest)),
{
    let s = len_field(tag, body) + rest;
    assert(s[0] == tag);
    assert(s.skip(1) =~= varint(body.len() as u64) + (body + rest));
    lemma_parse_varint(body.len() as u64, body + rest);
    assert((body + rest).take(body.len() as int) =~= body);
    assert((body + rest).skip(body.len() as int) =~= rest);
}

/// An absent length-delimited field leaves the input alone.
proof fn lemma_parse_len_absent(tag: u8, s: Seq<u8>)
    requires
        s.len() == 0 || s[0] != tag,
    ensures
        parse_len_field(s, tag) == Some((None::<Seq<u8>>, s)),
{
}

/// A UUID body decodes back to its UUID.
proof fn lemma_uuid_body_roundtrip(u: Uuid)
    ensures
        parse_uuid_body(uuid_body(u)) == Some(u),
{
    let b = uuid_body(u);
    if u.msb != 0 {
        if u.lsb != 0 {
            assert(b =~= varint_field(8, u.msb) + (varint_field(16, u.lsb) + Seq::<u8>::empty()));
            lemma_parse_field_present(8, u.msb, varint_field(16, u.lsb) + Seq::<u8>::empty());
            lemma_parse_field_present(16, u.lsb, Seq::<u8>::empty());
            assert(varint_field(16, u.lsb) + Seq::<u8>::empty() =~= varint_field(16, u.lsb));
            lemma_parse_field_present(16, u.lsb, Seq::<u8>::empty());
            assert(varint_field(16, u.lsb) =~= varint_field(16, u.lsb) + Seq::<u8>::empty());
        } else {
            assert(b =~= varint_field(8, u.msb) + Seq::<u8>::empty());
            lemma_parse_field_present(8, u.msb, Seq::<u8>::empty());
        }
    } else {
        if u.lsb != 0 {
            assert(b =~= varint_field(16, u.lsb) + Seq::<u8>::empty());
            lemma_parse_field_present(16, u.lsb, Seq::<u8>::empty());
            assert(b[0] == 16);
            lemma_parse_field_absent(8, b);
        } else {
            assert(b =~= Seq::<u8>::empty());
        }
    }
}

/// A present UUID field parses back to its UUID.
proof fn lemma_parse_uuid_present(tag: u8, u: Uuid, rest: Seq<u8>)
    ensures
        parse_opt_uuid_field(opt_uuid_bytes(tag, Some(u)) + rest, tag) == Some((Some(u), rest)),
{
    lemma_uuid_body_len_bound(u);
    lemma_parse_len_present(tag, uuid_body(u), rest);
    lemma_uuid_body_roundtrip(u);
}

/// A UUID body always fits its length prefix.
proof fn lemma_uuid_body_len_bound(u: Uuid)
    ensures
        uuid_body(u).len() <= u64::MAX,
    decreases u,
{
    lemma_varint_len_le(u.msb);
    lemma_varint_len_le(u.lsb);
}

/// One hundred twenty-eight to the `k`-th power.
spec fn p128(k: nat) -> nat
    decreases k,
{
    if k == 0 {
        1
    } else {
        128 * p128((k - 1) as nat)
    }
}

/// A value below `128^k` encodes in at most `k` varint bytes.
proof fn lemma_varint_len_bnd(n: u64, k: nat)
    requires
        1 <= k,
        (n as nat) < p128(k),
    ensures
        varint(n).len() <= k,
    decreases k,
{
    if n >= 128 {
        if k == 1 {
            assert(p128(1) == 128) by {
                reveal_with_fuel(p128, 3);
            }
            assert(false);
        }
        assert(p128(k) == 128 * p128((k - 1) as nat));
        vstd::arithmetic::div_mod::lemma_fundamental_div_mod(n as int, 128);
        let p: nat = p128((k - 1) as nat);
        assert(((n / 128) as nat) < p) by (nonlinear_arith)
            requires
                n as int == 128 * (n as int / 128) + n as int % 128,
                n as int % 128 >= 0,
                (n as nat) < 128 * p,
        ;
        lemma_varint_len_bnd(n / 128, (k - 1) as nat);
    }
}

/// A sixty-four-bit varint is at most ten bytes.
proof fn lemma_varint_len_le(n: u64)
    ensures
        varint(n).len() <= 10,
{
    assert(p128(10) == 1180591620717411303424) by {
        reveal_with_fuel(p128, 12);
    }
    lemma_varint_len_bnd(n, 10);
}


/// The wire image of a signed 32-bit value decodes back to it.
proof fn lemma_wire_i32_roundtrip(v: i32)
    ensures
        i32_of_wire64(wire64_of_i32(v)) == v,
{
    assert((((v as i64) as u64) as u32) as i32 == v) by (bit_vector);
}

/// The 64-bit wire image of an optional signed 32-bit value.
pub open spec fn opt_wire_of(v: Option<i32>) -> Option<u64> {
    match v {
        Some(x) => Some(wire64_of_i32(x)),
        None => None,
    }
}

/// The trailing four fields decode back to their values.
proof fn lemma_attrs_tail_roundtrip(a: AttrsView)
    requires
        attrs_wf(a),
    ensures
        decode_attrs_tail(
            (match a.token {
                Some(t) => len_field(42, t),
                None => Seq::<u8>::empty(),
            }) + (opt_i32_bytes(48, a.permission_level) + (opt_i32_bytes(56, a.commstatus)
                + opt_uuid_bytes(66, a.reqid))),
        ) == Some(
            (
                a.token,
                opt_wire_of(a.permission_level),
                opt_wire_of(a.commstatus),
                a.reqid,
            ),
        ),
{
    let f5 = match a.token {
        Some(t) => len_field(42, t),
        None => Seq::<u8>::empty(),
    };
    let f6 = opt_i32_bytes(48, a.permission_level);
    let f7 = opt_i32_bytes(56, a.commstatus);
    let f8 = opt_uuid_bytes(66, a.reqid);
    let s9 = Seq::<u8>::empty();
    let s8 = f8;
    let s7 = f7 + s8;
    let s6 = f6 + s7;
    let s5 = f5 + s6;
    assert(s5 =~= f5 + (f6 + (f7 + f8)));
    assert(s8.len() == 0 || s8[0] == 66);
    assert(s7.len() == 0 || s7[0] == 56 || s7[0] == 66) by {
        if s7.len() > 0 && f7.len() > 0 {
            assert(s7[0] == f7[0]);
        }
    }
    assert(s6.len() == 0 || s6[0] == 48 || s6[0] == 56 || s6[0] == 66) by {
        if s6.len() > 0 && f6.len() > 0 {
            assert(s6[0] == f6[0]);
        }
    }
    match a.token {
        Some(t) => {
            lemma_parse_len_present(42, t, s6);
        },
        None => {
            assert(s5 =~= s6);
            lemma_parse_len_absent(42, s5);
        },
    }
    assert(parse_len_field(s5, 42) == Some((a.token, s6)));
    match a.permission_level {
        Some(v) => {
            lemma_parse_field_present(48, wire64_of_i32(v), s7);
            assert(varint_field(48, wire64_of_i32(v)) + s7 =~= s6);
        },
        None => {
            assert(s6 =~= s7);
            lemma_parse_field_absent(48, s6);
        },
    }
    assert(parse_opt_varint_field(s6, 48) == Some((opt_wire_of(a.permission_level), s7)));
    match a.commstatus {
        Some(v) => {
            lemma_parse_field_present(56, wire64_of_i32(v), s8);
            assert(varint_field(56, wire64_of_i32(v)) + s8 =~= s7);
        },
        None => {
            assert(s7 =~= s8);
            lemma_parse_field_absent(56, s7);
        },
    }
    assert(parse_opt_varint_field(s7, 56) == Some((opt_wire_of(a.commstatus), s8)));
    match a.reqid {
        Some(u) => {
            lemma_parse_uuid_present(66, u, s9);
            assert(opt_uuid_bytes(66, Some(u)) + s9 =~= s8);
        },
        None => {
            assert(s8 =~= s9);
            lemma_parse_len_absent(66, s8);
        },
    }
    assert(parse_opt_uuid_field(s8, 66) == Some((a.reqid, s9)));
}

/// Optional wire images decode back to their signed values.
proof fn lemma_opt_wire_roundtrip(v: Option<i32>)
    ensures
        opt_i32_of(opt_wire_of(v)) == v,
{
    match v {
        Some(x) => {
            lemma_wire_i32_roundtrip(x);
        },
        None => {},
    }
}

/// The middle and trailing fields decode back to their values.
proof fn lemma_attrs_mid_roundtrip(a: AttrsView)
    requires
        attrs_wf(a),
    ensures
        decode_attrs_mid(
            enum_bytes(24, a.priority) + (opt_i32_bytes(32, a.ttl) + ((match a.token {
                Some(t) => len_field(42, t),
                None => Seq::<u8>::empty(),
            }) + (opt_i32_bytes(48, a.permission_level) + (opt_i32_bytes(56, a.commstatus)
                + opt_uuid_bytes(66, a.reqid))))),
        ) == Some(
            (
                (if a.priority != 0 {
                    Some(wire64_of_i32(a.priority))
                } else {
                    None
                }),
                opt_wire_of(a.ttl),
                a.token,
                opt_wire_of(a.permission_level),
                opt_wire_of(a.commstatus),
                a.reqid,
            ),
        ),
{
    let f3 = enum_bytes(24, a.priority);
    let f4 = opt_i32_bytes(32, a.ttl);
    let f5 = match a.token {
        Some(t) => len_field(42, t),
        None => Seq::<u8>::empty(),
    };
    let f6 = opt_i32_bytes(48, a.permission_level);
    let f7 = opt_i32_bytes(56, a.commstatus);
    let f8 = opt_uuid_bytes(66, a.reqid);
    let s5 = f5 + (f6 + (f7 + f8));
    let s4 = f4 + s5;
    let s3 = f3 + s4;
    assert(s5.len() == 0 || s5[0] == 42 || s5[0] == 48 || s5[0] == 56 || s5[0] == 66) by {
        if s5.len() > 0 {
            if f5.len() > 0 {
                assert(s5[0] == f5[0]);
            } else if f6.len() > 0 {
                assert(s5[0] == f6[0]);
            } else if f7.len() > 0 {
                assert(s5[0] == f7[0]);
            } else {
                assert(s5[0] == f8[0]);
            }
        }
    }
    assert(s4.len() == 0 || s4[0] == 32 || s4[0] == 42 || s4[0] == 48 || s4[0] == 56 || s4[0]
        == 66) by {
        if s4.len() > 0 && f4.len() > 0 {
            assert(s4[0] == f4[0]);
        }
    }
    if a.priority != 0 {
        lemma_parse_field_present(24, wire64_of_i32(a.priority), s4);
        assert(varint_field(24, wire64_of_i32(a.priority)) + s4 =~= s3);
    } else {
        assert(s3 =~= s4);
        lemma_parse_field_absent(24, s3);
    }
    match a.ttl {
        Some(v) => {
            lemma_parse_field_present(32, wire64_of_i32(v), s5);
            assert(varint_field(32, wire64_of_i32(v)) + s5 =~= s4);
        },
        None => {
            assert(s4 =~= s5);
            lemma_parse_field_absent(32, s4);
        },
    }
    assert(parse_opt_varint_field(s4, 32) == Some((opt_wire_of(a.ttl), s5)));
    lemma_attrs_tail_roundtrip(a);
    assert(decode_attrs_tail(s5) == Some(
        (a.token, opt_wire_of(a.permission_level), opt_wire_of(a.commstatus), a.reqid),
    ));
}

/// The encoding reassociated around the first two fields, and the head
/// bytes that the first two parses can meet.
#[verifier::rlimit(100)]
proof fn lemma_attrs_bytes_shape(a: AttrsView)
    ensures
        attrs_bytes(a) == opt_uuid_bytes(10, a.id) + (enum_bytes(16, a.type_) + (enum_bytes(
            24,
            a.priority,
        ) + (opt_i32_bytes(32, a.ttl) + ((match a.token {
            Some(t) => len_field(42, t),
            None => Seq::<u8>::empty(),
        }) + (opt_i32_bytes(48, a.permission_level) + (opt_i32_bytes(56, a.commstatus)
            + opt_uuid_bytes(66, a.reqid))))))),
        ({
            let s3 = enum_bytes(24, a.priority) + (opt_i32_bytes(32, a.ttl) + ((match a.token {
                Some(t) => len_field(42, t),
                None => Seq::<u8>::empty(),
            }) + (opt_i32_bytes(48, a.permission_level) + (opt_i32_bytes(56, a.commstatus)
                + opt_uuid_bytes(66, a.reqid)))));
            s3.len() == 0 || s3[0] == 24 || s3[0] == 32 || s3[0] == 42 || s3[0] == 48 || s3[0]
                == 56 || s3[0] == 66
        }),
{
    let f1 = opt_uuid_bytes(10, a.id);
    let f2 = enum_bytes(16, a.type_);
    let f3 = enum_bytes(24, a.priority);
    let f4 = opt_i32_bytes(32, a.ttl);
    let f5 = match a.token {
        Some(t) => len_field(42, t),
        None => Seq::<u8>::empty(),
    };
    let f6 = opt_i32_bytes(48, a.permission_level);
    let f7 = opt_i32_bytes(56, a.commstatus);
    let f8 = opt_uuid_bytes(66, a.reqid);
    let s3 = f3 + (f4 + (f5 + (f6 + (f7 + f8))));
    let s2 = f2 + s3;
    let s1 = f1 + s2;
    assert(attrs_bytes(a) =~= s1);
    assert(s3.len() == 0 || s3[0] == 24 || s3[0] == 32 || s3[0] == 42 || s3[0] == 48 || s3[0] == 56
        || s3[0] == 66) by {
        if s3.len() > 0 {
            if f3.len() > 0 {
                assert(s3[0] == f3[0]);
            } else if f4.len() > 0 {
                assert(s3[0] == f4[0]);
            } else if f5.len() > 0 {
                assert(s3[0] == f5[0]);
            } else if f6.len() > 0 {
                assert(s3[0] == f6[0]);
            } else if f7.len() > 0 {
                assert(s3[0] == f7[0]);
            } else {
                assert(s3[0] == f8[0]);
            }
        }
    }
}

/// Law: decoding an encoded attribute record returns the record unchanged —
/// attributes survive their trip through the attachment bytes.
#[verifier::rlimit(100)]
pub proof fn lemma_attrs_roundtrip(a: AttrsView)
    requires
        attrs_wf(a),
    ensures
        decode_attrs(attrs_bytes(a)) == Some(a),
{
    let f1 = opt_uuid_bytes(10, a.id);
    let f2 = enum_bytes(16, a.type_);
    let s3 = enum_bytes(24, a.priority) + (opt_i32_bytes(32, a.ttl) + ((match a.token {
        Some(t) => len_field(42, t),
        None => Seq::<u8>::empty(),
    }) + (opt_i32_bytes(48, a.permission_level) + (opt_i32_bytes(56, a.commstatus)
        + opt_uuid_bytes(66, a.reqid)))));
    let s2 = f2 + s3;
    let s1 = f1 + s2;
    lemma_attrs_bytes_shape(a);
    assert(attrs_bytes(a) == s1);
    assert(s2.len() == 0 || s2[0] == 16 || s2[0] == 24 || s2[0] == 32 || s2[0] == 42 || s2[0] == 48
        || s2[0] == 56 || s2[0] == 66) by {
        if s2.len() > 0 && f2.len() > 0 {
            assert(s2[0] == f2[0]);
        }
    }
    match a.id {
        Some(u) => {
            lemma_parse_uuid_present(10, u, s2);
            assert(opt_uuid_bytes(10, Some(u)) + s2 =~= s1);
        },
        None => {
            assert(s1 =~= s2);
            lemma_parse_len_absent(10, s1);
        },
    }
    assert(parse_opt_uuid_field(s1, 10) == Some((a.id, s2)));
    if a.type_ != 0 {
        lemma_parse_field_present(16, wire64_of_i32(a.type_), s3);
        assert(varint_field(16, wire64_of_i32(a.type_)) + s3 =~= s2);
    } else {
        assert(s2 =~= s3);
        lemma_parse_field_absent(16, s2);
    }
    lemma_wire_i32_roundtrip(a.type_);
    lemma_wire_i32_roundtrip(a.priority);
    assert(i32_of_wire64(0) == 0) by (bit_vector);
    lemma_opt_wire_roundtrip(a.ttl);
    lemma_opt_wire_roundtrip(a.permission_level);
    lemma_opt_wire_roundtrip(a.commstatus);
    lemma_attrs_mid_roundtrip(a);
    assert(decode_attrs_mid(s3) == Some(
        (
            (if a.priority != 0 {
                Some(wire64_of_i32(a.priority))
            } else {
                None
            }),
            opt_wire_of(a.ttl),
            a.token,
            opt_wire_of(a.permission_level),
            opt_wire_of(a.commstatus),
            a.reqid,
        ),
    ));
}


/// Reads one varint starting at `pos`, returning its value and the position
/// after it.
fn read_varint(s: &[u8], pos: usize) -> (r: Option<(u64, usize)>)
    requires
        pos <= s@.len(),
    ensures
        match r {
            Some(vp) => pos < vp.1 <= s@.len() && parse_varint(s@.skip(pos as int)) == Some(
                (vp.0, s@.skip(vp.1 as int)),
            ),
            None => parse_varint(s@.skip(pos as int)) is None,
        },
    decreases s@.len() - pos,
{
    let ghost tail: Seq<u8> = s@.skip(pos as int);
    if pos == s.len() {
        assert(tail.len() == 0);
        return None;
    }
    let b: u8 = s[pos];
    assert(tail[0] == b);
    if b < 128 {
        assert(tail.skip(1) =~= s@.skip(pos + 1 as int));
        Some((b as u64, pos + 1))
    } else {
        let low: u64 = (b - 128) as u64;
        assert(tail.skip(1) =~= s@.skip(pos + 1 as int));
        match read_varint(s, pos + 1) {
            Some(vp) => {
                let (v, p): (u64, usize) = vp;
                proof {
                    assert(parse_varint_rec(tail.skip(1)) == Some(
                        ((v as nat), s@.skip(p as int)),
                    ));
                }
                let limit: u64 = (u64::MAX - low) / 128;
                if v <= limit {
                    proof {
                        vstd::arithmetic::div_mod::lemma_fundamental_div_mod(
                            (u64::MAX - low) as int,
                            128,
                        );
                        assert((v as int) * 128 <= (u64::MAX - low) as int) by (nonlinear_arith)
                            requires
                                0 <= (v as int) && (v as int) <= ((u64::MAX - low) as int) / 128,
                                (u64::MAX - low) as int == 128 * (((u64::MAX - low) as int) / 128)
                                    + ((u64::MAX - low) as int) % 128,
                                ((u64::MAX - low) as int) % 128 >= 0,
                        ;
                    }
                    let value: u64 = v * 128 + low;
                    assert(parse_varint_rec(tail) == Some(
                        ((value as nat), s@.skip(p as int)),
                    ));
                    Some((value, p))
                } else {
                    proof {
                        vstd::arithmetic::div_mod::lemma_fundamental_div_mod(
                            (u64::MAX - low) as int,
                            128,
                        );
                        assert((v as int) * 128 + low as int > u64::MAX as int)
                            by (nonlinear_arith)
                            requires
                                (v as int) > ((u64::MAX - low) as int) / 128,
                                (u64::MAX - low) as int == 128 * (((u64::MAX - low) as int) / 128)
                                    + ((u64::MAX - low) as int) % 128,
                                0 <= ((u64::MAX - low) as int) % 128 < 128,
                                0 <= (low as int) && (low as int) < 128,
                                0 <= (v as int),
                        ;
                    }
                    None
                }
            },
            None => {
                proof {
                    match parse_varint_rec(tail.skip(1)) {
                        Some(vr) => {
                            assert(vr.0 > u64::MAX as nat);
                            assert(vr.0 * 128 >= vr.0) by (nonlinear_arith)
                                requires
                                    vr.0 >= 0,
                            ;
                        },
                        None => {},
                    }
                }
                None
            },
        }
    }
}

/// Reads an optional varint field under `tag` at `pos`.
fn read_opt_varint_field(s: &[u8], pos: usize, tag: u8) -> (r: Option<(Option<u64>, usize)>)
    requires
        pos <= s@.len(),
    ensures
        match r {
            Some(vp) => vp.1 <= s@.len() && pos <= vp.1 && parse_opt_varint_field(
                s@.skip(pos as int),
                tag,
            ) == Some((vp.0, s@.skip(vp.1 as int))),
            None => parse_opt_varint_field(s@.skip(pos as int), tag) is None,
        },
{
    let ghost tail: Seq<u8> = s@.skip(pos as int);
    if pos < s.len() && s[pos] == tag {
        assert(tail[0] == tag);
        assert(tail.skip(1) =~= s@.skip(pos + 1 as int));
        match read_varint(s, pos + 1) {
            Some(vp) => Some((Some(vp.0), vp.1)),
            None => None,
        }
    } else {
        assert(tail.len() == 0 || tail[0] != tag);
        Some((None, pos))
    }
}

/// Reads an optional length-delimited field under `tag` at `pos`, copying
/// its body out.
fn read_len_field(s: &[u8], pos: usize, tag: u8) -> (r: Option<(Option<Vec<u8>>, usize)>)
    requires
        pos <= s@.len(),
    ensures
        match r {
            Some(vp) => vp.1 <= s@.len() && pos <= vp.1 && parse_len_field(
                s@.skip(pos as int),
                tag,
            ) == Some(
                (
                    match vp.0 {
                        Some(bv) => Some(bv@),
                        None => None,
                    },
                    s@.skip(vp.1 as int),
                ),
            ),
            None => parse_len_field(s@.skip(pos as int), tag) is None,
        },
{
    let ghost tail: Seq<u8> = s@.skip(pos as int);
    if pos < s.len() && s[pos] == tag {
        assert(tail[0] == tag);
        assert(tail.skip(1) =~= s@.skip(pos + 1 as int));
        match read_varint(s, pos + 1) {
            Some(vp) => {
                let (l, p0): (u64, usize) = vp;
                let remaining: usize = s.len() - p0;
                if l <= remaining as u64 {
                    let lu: usize = l as usize;
                    let body: Vec<u8> = vstd::slice::slice_to_vec(
                        vstd::slice::slice_subrange(s, p0, p0 + lu),
                    );
                    proof {
                        let rest = s@.skip(p0 as int);
                        assert(rest.take(l as int) =~= s@.subrange(p0 as int, p0 + lu));
                        assert(rest.skip(l as int) =~= s@.skip((p0 + lu) as int));
                    }
                    Some((Some(body), p0 + lu))
                } else {
                    None
                }
            },
            None => None,
        }
    } else {
        assert(tail.len() == 0 || tail[0] != tag);
        Some((None, pos))
    }
}

/// Decodes a UUID submessage body.
fn uuid_from_body(b: &[u8]) -> (r: Option<Uuid>)
    ensures
        r == parse_uuid_body(b@),
{
    assert(b@.skip(0) =~= b@);
    match read_opt_varint_field(b, 0, 8) {
        Some(mp) => {
            match read_opt_varint_field(b, mp.1, 16) {
                Some(lp) => {
                    if lp.1 == b.len() {
                        assert(b@.skip(lp.1 as int).len() == 0);
                        let msb: u64 = match mp.0 {
                            Some(x) => x,
                            None => 0,
                        };
                        let lsb: u64 = match lp.0 {
                            Some(x) => x,
                            None => 0,
                        };
                        Some(Uuid { msb, lsb })
                    } else {
                        None
                    }
                },
                None => None,
            }
        },
        None => None,
    }
}

/// Reads an optional UUID field under `tag` at `pos`.
fn read_uuid_field(s: &[u8], pos: usize, tag: u8) -> (r: Option<(Option<Uuid>, usize)>)
    requires
        pos <= s@.len(),
    ensures
        match r {
            Some(vp) => vp.1 <= s@.len() && pos <= vp.1 && parse_opt_uuid_field(
                s@.skip(pos as int),
                tag,
            ) == Some((vp.0, s@.skip(vp.1 as int))),
            None => parse_opt_uuid_field(s@.skip(pos as int), tag) is None,
        },
{
    match read_len_field(s, pos, tag) {
        Some(vp) => {
            match vp.0 {
                Some(body) => {
                    match uuid_from_body(body.as_slice()) {
                        Some(u) => Some((Some(u), vp.1)),
                        None => None,
                    }
                },
                None => Some((None, vp.1)),
            }
        },
        None => None,
    }
}

/// Converts a 64-bit wire image to the signed 32-bit value it carries.
fn wire64_to_i32(v: u64) -> (r: i32)
    ensures
        r == i32_of_wire64(v),
{
    #[verifier::truncate] ((#[verifier::truncate] (v as u32)) as i32)
}

/// Decodes an attribute record from its binary attachment form; returns
/// `None` exactly when the bytes do not parse as the eight fields in order.
#[verifier::rlimit(100)]
pub fn decode_attributes(b: &[u8]) -> (r: Option<UAttributes>)
    ensures
        match r {
            Some(a) => decode_attrs(b@) == Some(a@),
            None => decode_attrs(b@) is None,
        },
{
    assert(b@.skip(0) =~= b@);
    let r1 = match read_uuid_field(b, 0, 10) {
        Some(x) => x,
        None => {
            return None;
        },
    };
    let r2 = match read_opt_varint_field(b, r1.1, 16) {
        Some(x) => x,
        None => {
            return None;
        },
    };
    let r3 = match read_opt_varint_field(b, r2.1, 24) {
        Some(x) => x,
        None => {
            return None;
        },
    };
    let r4 = match read_opt_varint_field(b, r3.1, 32) {
        Some(x) => x,
        None => {
            return None;
        },
    };
    let r5 = match read_len_field(b, r4.1, 42) {
        Some(x) => x,
        None => {
            return None;
        },
    };
    let r6 = match read_opt_varint_field(b, r5.1, 48) {
        Some(x) => x,
        None => {
            return None;
        },
    };
    let r7 = match read_opt_varint_field(b, r6.1, 56) {
        Some(x) => x,
        None => {
            return None;
        },
    };
    let r8 = match read_uuid_field(b, r7.1, 66) {
        Some(x) => x,
        None => {
            return None;
        },
    };
    if r8.1 != b.len() {
        return None;
    }
    assert(b@.skip(r8.1 as int).len() == 0);
    proof {
        assert(decode_attrs_tail(b@.skip(r4.1 as int)) == Some(
            (
                match r5.0 {
                    Some(bv) => Some(bv@),
                    None => None,
                },
                r6.0,
                r7.0,
                r8.0,
            ),
        ));
        assert(decode_attrs_mid(b@.skip(r2.1 as int)) == Some(
            (
                r3.0,
                r4.0,
                match r5.0 {
                    Some(bv) => Some(bv@),
                    None => None,
                },
                r6.0,
                r7.0,
                r8.0,
            ),
        ));
    }
    let type_: i32 = match r2.0 {
        Some(v) => wire64_to_i32(v),
        None => 0,
    };
    let priority: i32 = match r3.0 {
        Some(v) => wire64_to_i32(v),
        None => 0,
    };
    let ttl: Option<i32> = match r4.0 {
        Some(v) => Some(wire64_to_i32(v)),
        None => None,
    };
    let permission_level: Option<i32> = match r6.0 {
        Some(v) => Some(wire64_to_i32(v)),
        None => None,
    };
    let commstatus: Option<i32> = match r7.0 {
        Some(v) => Some(wire64_to_i32(v)),
        None => None,
    };
    proof {
        assert(i32_of_wire64(0) == 0) by (bit_vector);
    }
    Some(
        UAttributes {
            id: r1.0,
            type_,
            priority,
            ttl,
            token: r5.0,
            permission_level,
            commstatus,
            reqid: r8.0,
        },
    )
}

} // verus!

