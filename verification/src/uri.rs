//! The uProtocol URI model and its long textual form.
//!
//! The adapter reads four things from a URI: the remote authority name, the
//! entity name and major version, and the resource with its optional instance
//! and message. They are held here as plain values. `serialize_long_uri`
//! renders the long form `[/ | //authority/]entity/version[/resource[.instance][#message]]`,
//! the shape the key mapper escapes into a substrate key.

use vstd::prelude::*;
use crate::keys::{zenoh_key_of, escape_uri_bytes};
use crate::numfmt::{dec_of, u64_to_dec, lemma_dec_of_digits, is_digit};
use crate::status::{UCode, UStatus};
use crate::text::{ascii_bytes, bytes_of, chars_of, push_bytes, string_from_ascii};
use vstd::string::StrSliceExecFns;
use vstd::string::StringExecFnsIsAscii;
use vstd::utf8::is_ascii_chars;

verus! {

/// The remote authority of a URI; a local URI has none.
#[derive(Clone, PartialEq, Eq, Debug)]
pub struct UAuthority {
    pub name: Option<String>,
}

/// The software entity a URI addresses.
#[derive(Clone, PartialEq, Eq, Debug)]
pub struct UEntity {
    pub name: String,
    pub version_major: Option<u32>,
}

/// The resource within an entity, with optional instance and message names.
#[derive(Clone, PartialEq, Eq, Debug)]
pub struct UResource {
    pub name: String,
    pub instance: Option<String>,
    pub message: Option<String>,
}

/// A uProtocol URI: authority, entity and resource.
#[derive(Clone, PartialEq, Eq, Debug)]
pub struct UUri {
    pub authority: Option<UAuthority>,
    pub entity: Option<UEntity>,
    pub resource: Option<UResource>,
}

impl Default for UAuthority {
    fn default() -> (d: Self)
        ensures
            d.name is None,
    {
        UAuthority { name: None }
    }
}

impl Default for UEntity {
    fn default() -> (d: Self)
        ensures
            d.name@ == Seq::<char>::empty(),
            d.version_major is None,
    {
        UEntity { name: String::new(), version_major: None }
    }
}

impl Default for UResource {
    fn default() -> (d: Self)
        ensures
            d.name@ == Seq::<char>::empty(),
            d.instance is None,
            d.message is None,
    {
        UResource { name: String::new(), instance: None, message: None }
    }
}

impl Default for UUri {
    fn default() -> (d: Self)
        ensures
            d.authority is None,
            d.entity is None,
            d.resource is None,
    {
        UUri { authority: None, entity: None, resource: None }
    }
}

/// No byte of `s` is a slash.
pub open spec fn slash_free(s: Seq<u8>) -> bool {
    forall|i: int| 0 <= i < s.len() ==> #[trigger] s[i] != 47
}

/// A name field usable in the long form: ASCII text without slashes.
pub open spec fn field_ok(s: Seq<char>) -> bool {
    is_ascii_chars(s) && slash_free(bytes_of(s))
}

/// The URIs the adapter accepts: an entity with a non-empty name, an
/// authority (when present) with a non-empty name, and every name field
/// ASCII and slash-free.
pub open spec fn uri_valid(u: UUri) -> bool {
    &&& match u.entity {
        Some(e) => field_ok(e.name@) && e.name@.len() > 0,
        None => false,
    }
    &&& match u.authority {
        Some(a) => match a.name {
            Some(n) => field_ok(n@) && n@.len() > 0,
            None => false,
        },
        None => true,
    }
    &&& match u.resource {
        Some(r) => {
            &&& field_ok(r.name@)
            &&& match r.instance {
                Some(i) => field_ok(i@),
                None => true,
            }
            &&& match r.message {
                Some(m) => field_ok(m@),
                None => true,
            }
        },
        None => true,
    }
}

/// The authority segment of the long form: `/` for a local URI,
/// `//name/` for a remote one.
pub open spec fn authority_part(u: UUri) -> Seq<u8> {
    match u.authority {
        None => seq![47u8],
        Some(a) => seq![47u8, 47u8] + (match a.name {
            Some(n) => bytes_of(n@),
            None => Seq::<u8>::empty(),
        }) + seq![47u8],
    }
}

/// The entity segment of the long form: `name/version`, with an empty
/// version when no major version is set.
pub open spec fn entity_part(u: UUri) -> Seq<u8> {
    (match u.entity {
        Some(e) => bytes_of(e.name@),
        None => Seq::<u8>::empty(),
    }) + seq![47u8] + (match u.entity {
        Some(e) => match e.version_major {
            Some(v) => dec_of(v as nat),
            None => Seq::<u8>::empty(),
        },
        None => Seq::<u8>::empty(),
    })
}

/// The resource segment of the long form: `/name[.instance][#message]`, or
/// nothing when the URI carries no resource.
pub open spec fn resource_part(u: UUri) -> Seq<u8> {
    match u.resource {
        None => Seq::<u8>::empty(),
        Some(r) => seq![47u8] + bytes_of(r.name@) + (match r.instance {
            Some(i) => seq![46u8] + bytes_of(i@),
            None => Seq::<u8>::empty(),
        }) + (match r.message {
            Some(m) => seq![35u8] + bytes_of(m@),
            None => Seq::<u8>::empty(),
        }),
    }
}

/// The long textual form of a URI, as bytes.
pub open spec fn long_uri_of(u: UUri) -> Seq<u8> {
    authority_part(u) + entity_part(u) + resource_part(u)
}

/// A deep copy of a URI, equal to the original.
pub fn clone_uuri(u: &UUri) -> (r: UUri)
    ensures
        r == *u,
{
    UUri {
        authority: match &u.authority {
            Some(a) => Some(
                UAuthority {
                    name: match &a.name {
                        Some(n) => Some(n.clone()),
                        None => None,
                    },
                },
            ),
            None => None,
        },
        entity: match &u.entity {
            Some(e) => Some(UEntity { name: e.name.clone(), version_major: e.version_major }),
            None => None,
        },
        resource: match &u.resource {
            Some(res) => Some(
                UResource {
                    name: res.name.clone(),
                    instance: match &res.instance {
                        Some(i) => Some(i.clone()),
                        None => None,
                    },
                    message: match &res.message {
                        Some(m) => Some(m.clone()),
                        None => None,
                    },
                },
            ),
            None => None,
        },
    }
}

/// Checks that a name field is ASCII and slash-free.
fn check_field(s: &String) -> (b: bool)
    ensures
        b == field_ok(s@),
{
    if !s.is_ascii() {
        return false;
    }
    proof {
        vstd::utf8::is_ascii_chars_encode_utf8(s@);
    }
    let bs: &[u8] = s.as_str().as_bytes();
    assert(bs@ =~= bytes_of(s@));
    let mut i: usize = 0;
    while i < bs.len()
        invariant
            0 <= i <= bs@.len(),
            bs@ == bytes_of(s@),
            is_ascii_chars(s@),
            forall|k: int| 0 <= k < i ==> #[trigger] bs@[k] != 47,
        decreases bs@.len() - i,
    {
        if bs[i] == 47 {
            assert(bytes_of(s@)[i as int] == 47);
            return false;
        }
        i = i + 1;
    }
    true
}

/// Checks whether the adapter accepts this URI.
pub fn is_valid_uri(u: &UUri) -> (b: bool)
    ensures
        b == uri_valid(*u),
{
    let entity_ok: bool = match &u.entity {
        Some(e) => {
            check_field(&e.name) && !e.name.as_str().is_empty()
        },
        None => false,
    };
    if !entity_ok {
        return false;
    }
    let authority_ok: bool = match &u.authority {
        Some(a) => match &a.name {
            Some(n) => {
                check_field(n) && !n.as_str().is_empty()
            },
            None => false,
        },
        None => true,
    };
    if !authority_ok {
        return false;
    }
    match &u.resource {
        Some(r) => {
            let name_ok: bool = check_field(&r.name);
            let instance_ok: bool = match &r.instance {
                Some(i) => check_field(i),
                None => true,
            };
            let message_ok: bool = match &r.message {
                Some(m) => check_field(m),
                None => true,
            };
            name_ok && instance_ok && message_ok
        },
        None => true,
    }
}

/// Appends an ASCII name field to the output bytes.
fn push_field(dst: &mut Vec<u8>, s: &String)
    requires
        is_ascii_chars(s@),
    ensures
        final(dst)@ == old(dst)@ + bytes_of(s@),
{
    proof {
        vstd::utf8::is_ascii_chars_encode_utf8(s@);
    }
    let bs: &[u8] = s.as_str().as_bytes();
    assert(bs@ =~= bytes_of(s@));
    push_bytes(dst, bs);
}

/// Renders the long textual form of a valid URI.
#[verifier::rlimit(50)]
pub fn serialize_long_uri(u: &UUri) -> (r: Vec<u8>)
    requires
        uri_valid(*u),
    ensures
        r@ == long_uri_of(*u),
{
    let mut out: Vec<u8> = Vec::new();
    match &u.authority {
        None => {
            out.push(47);
        },
        Some(a) => {
            out.push(47);
            out.push(47);
            match &a.name {
                Some(n) => push_field(&mut out, n),
                None => (),
            }
            out.push(47);
        },
    }
    assert(out@ =~= authority_part(*u));
    let ghost after_authority: Seq<u8> = out@;
    match &u.entity {
        Some(e) => push_field(&mut out, &e.name),
        None => (),
    }
    out.push(47);
    match &u.entity {
        Some(e) => match e.version_major {
            Some(v) => {
                let digits: Vec<u8> = u64_to_dec(v as u64);
                push_bytes(&mut out, digits.as_slice());
            },
            None => (),
        },
        None => (),
    }
    assert(out@ =~= after_authority + entity_part(*u));
    let ghost after_entity: Seq<u8> = out@;
    match &u.resource {
        Some(r) => {
            out.push(47);
            push_field(&mut out, &r.name);
            match &r.instance {
                Some(i) => {
                    out.push(46);
                    push_field(&mut out, i);
                },
                None => (),
            }
            match &r.message {
                Some(m) => {
                    out.push(35);
                    push_field(&mut out, m);
                },
                None => (),
            }
        },
        None => (),
    }
    assert(out@ =~= after_entity + resource_part(*u));
    assert(out@ =~= long_uri_of(*u));
    out
}


/// The authority segment never holds a `///` run and never ends in `//`.
proof fn lemma_authority_part_shape(u: UUri)
    requires
        uri_valid(u),
    ensures
        crate::keys::triple_slash_free(authority_part(u)),
        authority_part(u).len() >= 1,
        authority_part(u).len() >= 2 ==> !(authority_part(u)[authority_part(u).len() - 2] == 47
            && authority_part(u)[authority_part(u).len() - 1] == 47),
{
    let p = authority_part(u);
    match u.authority {
        None => {
            assert(p =~= seq![47u8]);
        },
        Some(a) => {
            match a.name {
                Some(n) => {
                    let nm = bytes_of(n@);
                    assert(p.len() == nm.len() + 3);
                    assert(p[0] == 47 && p[1] == 47);
                    assert(forall|j: int|
                        2 <= j < nm.len() + 2 ==> p[j] == #[trigger] nm[j - 2]);
                    assert(p[nm.len() as int + 2] == 47);
                    assert(nm.len() > 0);
                    assert forall|i: int| 0 <= i && i + 2 < p.len() implies !(#[trigger] p[i] == 47
                        && p[i + 1] == 47 && p[i + 2] == 47) by {
                        if i == 0 || i == 1 {
                            assert(p[2] == nm[0]);
                            assert(nm[0] != 47);
                        } else {
                            assert(p[i] == nm[i - 2]);
                            assert(nm[i - 2] != 47);
                        }
                    }
                    assert(p[p.len() - 2] == nm[nm.len() - 1]);
                    assert(nm[nm.len() - 1] != 47);
                },
                None => {
                    assert(false);
                },
            }
        },
    }
}

/// The entity segment holds no `//` pair at all and never starts with a
/// slash.
proof fn lemma_entity_part_shape(u: UUri)
    requires
        uri_valid(u),
    ensures
        crate::keys::double_slash_free(entity_part(u)),
        crate::keys::triple_slash_free(entity_part(u)),
        entity_part(u).len() >= 2,
        entity_part(u)[0] != 47,
{
    let p = entity_part(u);
    match u.entity {
        Some(e) => {
            let nm = bytes_of(e.name@);
            let vd = match e.version_major {
                Some(v) => dec_of(v as nat),
                None => Seq::<u8>::empty(),
            };
            assert(p.len() == nm.len() + 1 + vd.len());
            assert(forall|j: int| 0 <= j < nm.len() ==> p[j] == #[trigger] nm[j]);
            assert(p[nm.len() as int] == 47);
            assert(forall|j: int|
                nm.len() + 1 <= j < p.len() ==> p[j] == #[trigger] vd[j - nm.len() - 1]);
            match e.version_major {
                Some(v) => {
                    lemma_dec_of_digits(v as nat);
                },
                None => {},
            }
            assert(nm.len() > 0);
            assert forall|i: int| 0 <= i && i + 1 < p.len() implies !(#[trigger] p[i] == 47 && p[i
                + 1] == 47) by {
                if p[i] == 47 && p[i + 1] == 47 {
                    if i < nm.len() {
                        assert(p[i] == nm[i]);
                        assert(nm[i] != 47);
                    } else if i + 1 > nm.len() + 1 {
                        assert(p[i + 1] == vd[i - nm.len()]);
                        assert(is_digit(vd[i - nm.len()]));
                    } else {
                        assert(i == nm.len() && i + 1 == nm.len() + 1);
                        assert(p[i + 1] == vd[0]);
                        assert(is_digit(vd[0]));
                    }
                }
            }
            crate::keys::lemma_double_free_triple_free(p);
            assert(p[0] == nm[0]);
        },
        None => {
            assert(false);
        },
    }
}

/// The resource segment is empty or a single leading slash followed by
/// slash-free text.
proof fn lemma_resource_part_shape(u: UUri)
    requires
        uri_valid(u),
    ensures
        crate::keys::triple_slash_free(resource_part(u)),
        resource_part(u).len() >= 1 ==> resource_part(u)[0] == 47,
        resource_part(u).len() >= 2 ==> resource_part(u)[1] != 47,
{
    let p = resource_part(u);
    match u.resource {
        None => {},
        Some(r) => {
            let nb = bytes_of(r.name@);
            let ib = match r.instance {
                Some(i) => seq![46u8] + bytes_of(i@),
                None => Seq::<u8>::empty(),
            };
            let mb = match r.message {
                Some(m) => seq![35u8] + bytes_of(m@),
                None => Seq::<u8>::empty(),
            };
            assert(p.len() == 1 + nb.len() + ib.len() + mb.len());
            assert(p[0] == 47);
            assert(forall|j: int| 0 <= j < nb.len() ==> p[j + 1] == #[trigger] nb[j]);
            assert(forall|j: int| 0 <= j < ib.len() ==> p[j + 1 + nb.len()] == #[trigger] ib[j]);
            assert(forall|j: int|
                0 <= j < mb.len() ==> p[j + 1 + nb.len() + ib.len()] == #[trigger] mb[j]);
            assert forall|j: int| 0 <= j < ib.len() implies #[trigger] ib[j] != 47 by {
                match r.instance {
                    Some(i) => {
                        if j >= 1 {
                            assert(ib[j] == bytes_of(i@)[j - 1]);
                        }
                    },
                    None => {},
                }
            }
            assert forall|j: int| 0 <= j < mb.len() implies #[trigger] mb[j] != 47 by {
                match r.message {
                    Some(m) => {
                        if j >= 1 {
                            assert(mb[j] == bytes_of(m@)[j - 1]);
                        }
                    },
                    None => {},
                }
            }
            assert forall|j: int| 1 <= j < p.len() implies #[trigger] p[j] != 47 by {
                if j - 1 < nb.len() {
                    assert(p[j] == nb[j - 1]);
                } else if j - 1 < nb.len() + ib.len() {
                    assert(p[j] == ib[j - 1 - nb.len()]);
                } else {
                    assert(p[j] == mb[j - 1 - nb.len() - ib.len()]);
                }
            }
            assert forall|i: int| 0 <= i && i + 2 < p.len() implies !(#[trigger] p[i] == 47 && p[i
                + 1] == 47 && p[i + 2] == 47) by {
                assert(p[i + 1] != 47);
            }
        },
    }
}

/// The long form of a valid URI holds no `///` run.
pub proof fn lemma_long_uri_triple_free(u: UUri)
    requires
        uri_valid(u),
    ensures
        crate::keys::triple_slash_free(long_uri_of(u)),
{
    let ap = authority_part(u);
    let ep = entity_part(u);
    let rp = resource_part(u);
    lemma_authority_part_shape(u);
    lemma_entity_part_shape(u);
    lemma_resource_part_shape(u);
    crate::keys::lemma_concat_triple_free(ap, ep);
    let x = ap + ep;
    assert(x[x.len() - 1] == ep[ep.len() - 1]);
    assert(x[x.len() - 2] == ep[ep.len() - 2]);
    assert(!(ep[ep.len() - 2] == 47 && ep[ep.len() - 1] == 47));
    crate::keys::lemma_concat_triple_free(x, rp);
}

/// The long form of a valid URI is ASCII.
pub proof fn lemma_long_uri_ascii(u: UUri)
    requires
        uri_valid(u),
    ensures
        ascii_bytes(long_uri_of(u)),
{
    let ap = authority_part(u);
    let ep = entity_part(u);
    let rp = resource_part(u);
    assert forall|i: int| 0 <= i < ap.len() implies #[trigger] ap[i] < 128 by {
        match u.authority {
            None => {},
            Some(a) => {
                match a.name {
                    Some(n) => {
                        crate::text::lemma_ascii_field_bytes(n@);
                        let nm = bytes_of(n@);
                        if 2 <= i < nm.len() + 2 {
                            assert(ap[i] == nm[i - 2]);
                        }
                    },
                    None => {},
                }
            },
        }
    }
    assert forall|i: int| 0 <= i < ep.len() implies #[trigger] ep[i] < 128 by {
        match u.entity {
            Some(e) => {
                crate::text::lemma_ascii_field_bytes(e.name@);
                let nm = bytes_of(e.name@);
                if i < nm.len() {
                    assert(ep[i] == nm[i]);
                } else if i > nm.len() {
                    match e.version_major {
                        Some(v) => {
                            lemma_dec_of_digits(v as nat);
                            let vd = dec_of(v as nat);
                            assert(ep[i] == vd[i - nm.len() - 1]);
                            assert(is_digit(vd[i - nm.len() - 1]));
                        },
                        None => {},
                    }
                }
            },
            None => {},
        }
    }
    assert forall|i: int| 0 <= i < rp.len() implies #[trigger] rp[i] < 128 by {
        match u.resource {
            Some(r) => {
                crate::text::lemma_ascii_field_bytes(r.name@);
                let nb = bytes_of(r.name@);
                let ib = match r.instance {
                    Some(inst) => seq![46u8] + bytes_of(inst@),
                    None => Seq::<u8>::empty(),
                };
                let mb = match r.message {
                    Some(m) => seq![35u8] + bytes_of(m@),
                    None => Seq::<u8>::empty(),
                };
                match r.instance {
                    Some(inst) => {
                        crate::text::lemma_ascii_field_bytes(inst@);
                    },
                    None => {},
                }
                match r.message {
                    Some(m) => {
                        crate::text::lemma_ascii_field_bytes(m@);
                    },
                    None => {},
                }
                if i >= 1 {
                    if i - 1 < nb.len() {
                        assert(rp[i] == nb[i - 1]);
                    } else if i - 1 < nb.len() + ib.len() {
                        assert(rp[i] == ib[i - 1 - nb.len()]);
                        match r.instance {
                            Some(inst) => {
                                if i - 1 - nb.len() >= 1 {
                                    assert(ib[i - 1 - nb.len()] == bytes_of(inst@)[i - 2
                                        - nb.len()]);
                                }
                            },
                            None => {},
                        }
                    } else {
                        assert(rp[i] == mb[i - 1 - nb.len() - ib.len()]);
                        match r.message {
                            Some(m) => {
                                if i - 1 - nb.len() - ib.len() >= 1 {
                                    assert(mb[i - 1 - nb.len() - ib.len()] == bytes_of(m@)[i - 2
                                        - nb.len() - ib.len()]);
                                }
                            },
                            None => {},
                        }
                    }
                }
            },
            None => {},
        }
    }
    crate::text::lemma_ascii_concat(ap, ep);
    crate::text::lemma_ascii_concat(ap + ep, rp);
}

/// Law: the substrate key of every valid URI holds none of the reserved
/// characters `*`, `$`, `?`, `#` and no `//` substring.
pub proof fn lemma_valid_uri_key_legal(u: UUri)
    requires
        uri_valid(u),
    ensures
        crate::keys::reserved_free(zenoh_key_of(long_uri_of(u))),
        crate::keys::double_slash_free(zenoh_key_of(long_uri_of(u))),
{
    lemma_long_uri_triple_free(u);
    crate::keys::lemma_zenoh_key_legal(long_uri_of(u));
}

/// Maps a URI to its substrate key string: the long form, stripped of its
/// leading slash, with the substrate's reserved characters escaped. Fails
/// exactly on URIs the adapter does not accept.
pub fn to_zenoh_key_string(uri: &UUri) -> (r: Result<String, UStatus>)
    ensures
        match r {
            Ok(k) => {
                &&& uri_valid(*uri)
                &&& k@ == chars_of(zenoh_key_of(long_uri_of(*uri)))
                &&& crate::keys::reserved_free(bytes_of(k@))
                &&& crate::keys::double_slash_free(bytes_of(k@))
            },
            Err(e) => {
                &&& !uri_valid(*uri)
                &&& e.code == UCode::Internal
                &&& e.message@ == "Unable to transform to Zenoh key"@
            },
        },
{
    if !is_valid_uri(uri) {
        return Err(UStatus::fail_with_code(UCode::Internal, "Unable to transform to Zenoh key"));
    }
    let ser: Vec<u8> = serialize_long_uri(uri);
    let key: Vec<u8> = escape_uri_bytes(ser.as_slice());
    proof {
        lemma_long_uri_ascii(*uri);
        crate::keys::lemma_zenoh_key_ascii(long_uri_of(*uri));
        lemma_valid_uri_key_legal(*uri);
        crate::text::lemma_bytes_chars_roundtrip(zenoh_key_of(long_uri_of(*uri)));
    }
    Ok(string_from_ascii(key))
}

} // verus!
