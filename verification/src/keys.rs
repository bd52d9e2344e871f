//! Mapping a serialized uProtocol URI onto a substrate key string.
//!
//! The substrate reserves `*`, `$`, `?` and `#` in its key syntax and treats
//! `//` specially, so the mapper escapes each of them: a reserved character
//! becomes a backslash followed by a fixed digit, and every `//` pair becomes
//! `\/`. A single leading slash of the serialized form is dropped first.

use vstd::prelude::*;

verus! {

/// What a single byte of the serialized URI becomes in the key: reserved
/// characters turn into a backslash-digit pair, everything else stays.
pub open spec fn map_reserved(b: u8) -> Seq<u8> {
    if b == 42 {  // '*'
        seq![92u8, 56u8]  // "\8"
    } else if b == 36 {  // '$'
        seq![92u8, 52u8]  // "\4"
    } else if b == 63 {  // '?'
        seq![92u8, 48u8]  // "\0"
    } else if b == 35 {  // '#'
        seq![92u8, 51u8]  // "\3"
    } else {
        seq![b]
    }
}

/// Every byte of `s`, escaped.
pub open spec fn escape_reserved(s: Seq<u8>) -> Seq<u8>
    decreases s.len(),
{
    if s.len() == 0 {
        Seq::empty()
    } else {
        map_reserved(s[0]) + escape_reserved(s.skip(1))
    }
}

/// Every `//` pair of `s` folded into `\/`, scanning left to right without
/// overlap, exactly as `str::replace` does.
pub open spec fn fold_double_slash(s: Seq<u8>) -> Seq<u8>
    decreases s.len(),
{
    if s.len() >= 2 && s[0] == 47 && s[1] == 47 {
        seq![92u8, 47u8] + fold_double_slash(s.skip(2))
    } else if s.len() >= 1 {
        seq![s[0]] + fold_double_slash(s.skip(1))
    } else {
        Seq::empty()
    }
}

/// The serialized URI with a single leading slash removed, if one is there.
pub open spec fn strip_leading_slash(s: Seq<u8>) -> Seq<u8> {
    if s.len() > 0 && s[0] == 47 {
        s.skip(1)
    } else {
        s
    }
}

/// The substrate key that a serialized URI maps to.
pub open spec fn zenoh_key_of(s: Seq<u8>) -> Seq<u8> {
    fold_double_slash(escape_reserved(strip_leading_slash(s)))
}

/// `b` is one of the characters the substrate key syntax reserves.
pub open spec fn is_reserved_byte(b: u8) -> bool {
    b == 42 || b == 36 || b == 63 || b == 35
}

/// No byte of `s` is a reserved character.
pub open spec fn reserved_free(s: Seq<u8>) -> bool {
    forall|i: int| 0 <= i < s.len() ==> !is_reserved_byte(#[trigger] s[i])
}

/// `s` holds no `//` pair.
pub open spec fn double_slash_free(s: Seq<u8>) -> bool {
    forall|i: int| 0 <= i && i + 1 < s.len() ==> !(#[trigger] s[i] == 47 && s[i + 1] == 47)
}

/// `s` holds no `///` run.
pub open spec fn triple_slash_free(s: Seq<u8>) -> bool {
    forall|i: int|
        0 <= i && i + 2 < s.len() ==> !(#[trigger] s[i] == 47 && s[i + 1] == 47 && s[i + 2] == 47)
}

/// Dropping a prefix cannot create a `///` run.
pub proof fn lemma_skip_triple_free(s: Seq<u8>, k: int)
    requires
        triple_slash_free(s),
        0 <= k <= s.len(),
    ensures
        triple_slash_free(s.skip(k)),
{
    assert forall|i: int| 0 <= i && i + 2 < s.skip(k).len() implies !(#[trigger] s.skip(k)[i] == 47
        && s.skip(k)[i + 1] == 47 && s.skip(k)[i + 2] == 47) by {
        assert(s.skip(k)[i] == s[i + k]);
        assert(s.skip(k)[i + 1] == s[i + k + 1]);
        assert(s.skip(k)[i + 2] == s[i + k + 2]);
    }
}

/// Escaping removes every reserved character.
pub proof fn lemma_escape_reserved_free(s: Seq<u8>)
    ensures
        reserved_free(escape_reserved(s)),
    decreases s.len(),
{
    if s.len() > 0 {
        lemma_escape_reserved_free(s.skip(1));
        let m = map_reserved(s[0]);
        let e = escape_reserved(s);
        let g = escape_reserved(s.skip(1));
        assert forall|i: int| 0 <= i < e.len() implies !is_reserved_byte(#[trigger] e[i]) by {
            if i < m.len() {
                assert(e[i] == m[i]);
            } else {
                assert(e[i] == g[i - m.len()]);
            }
        }
    }
}

/// Folding `//` pairs introduces no reserved character.
pub proof fn lemma_fold_reserved_free(t: Seq<u8>)
    requires
        reserved_free(t),
    ensures
        reserved_free(fold_double_slash(t)),
    decreases t.len(),
{
    let f = fold_double_slash(t);
    if t.len() >= 2 && t[0] == 47 && t[1] == 47 {
        assert forall|i: int| 0 <= i && i + 2 < t.skip(2).len() + 2 && 0 <= i < t.skip(2).len()
            implies !is_reserved_byte(#[trigger] t.skip(2)[i]) by {
            assert(t.skip(2)[i] == t[i + 2]);
        }
        lemma_fold_reserved_free(t.skip(2));
        let g = fold_double_slash(t.skip(2));
        assert forall|i: int| 0 <= i < f.len() implies !is_reserved_byte(#[trigger] f[i]) by {
            if i >= 2 {
                assert(f[i] == g[i - 2]);
            }
        }
    } else if t.len() >= 1 {
        assert forall|i: int| 0 <= i < t.skip(1).len() implies !is_reserved_byte(
            #[trigger] t.skip(1)[i],
        ) by {
            assert(t.skip(1)[i] == t[i + 1]);
        }
        lemma_fold_reserved_free(t.skip(1));
        let g = fold_double_slash(t.skip(1));
        assert forall|i: int| 0 <= i < f.len() implies !is_reserved_byte(#[trigger] f[i]) by {
            if i >= 1 {
                assert(f[i] == g[i - 1]);
            }
        }
    }
}

/// If a folded string starts with a slash, so did its input, and not with two.
proof fn lemma_fold_head(u: Seq<u8>)
    requires
        fold_double_slash(u).len() > 0,
        fold_double_slash(u)[0] == 47,
    ensures
        u.len() > 0,
        u[0] == 47,
        u.len() >= 2 ==> u[1] != 47,
{
}

/// If an escaped string starts with a slash, its input did, and the rest of
/// the escaped string is the escape of the rest of the input.
proof fn lemma_escape_head_slash(s: Seq<u8>)
    requires
        escape_reserved(s).len() > 0,
        escape_reserved(s)[0] == 47,
    ensures
        s.len() > 0,
        s[0] == 47,
        escape_reserved(s) == seq![47u8] + escape_reserved(s.skip(1)),
{
    assert(s.len() > 0);
    assert(map_reserved(s[0])[0] == escape_reserved(s)[0]);
    assert(!is_reserved_byte(s[0]));
}

/// Escaping cannot create a `///` run where the input had none.
proof fn lemma_escape_triple_free(s: Seq<u8>)
    requires
        triple_slash_free(s),
    ensures
        triple_slash_free(escape_reserved(s)),
    decreases s.len(),
{
    if s.len() > 0 {
        lemma_skip_triple_free(s, 1);
        lemma_escape_triple_free(s.skip(1));
        let m = map_reserved(s[0]);
        let e = escape_reserved(s);
        let g = escape_reserved(s.skip(1));
        assert forall|i: int| 0 <= i && i + 2 < e.len() implies !(#[trigger] e[i] == 47 && e[i + 1]
            == 47 && e[i + 2] == 47) by {
            if is_reserved_byte(s[0]) {
                if i == 0 {
                    assert(e[0] == m[0]);
                    assert(m[0] == 92);
                } else if i == 1 {
                    assert(e[1] == m[1]);
                    assert(m[1] != 47);
                } else {
                    assert(e[i] == g[i - 2]);
                    assert(e[i + 1] == g[i - 1]);
                    assert(e[i + 2] == g[i]);
                }
            } else {
                if i == 0 {
                    if e[0] == 47 && e[1] == 47 && e[2] == 47 {
                        assert(e[0] == s[0]);
                        assert(e[1] == g[0]);
                        assert(e[2] == g[1]);
                        lemma_escape_head_slash(s.skip(1));
                        let g2 = escape_reserved(s.skip(1).skip(1));
                        assert(g[1] == (seq![47u8] + g2)[1]);
                        assert(g2.len() > 0 && g2[0] == 47);
                        lemma_escape_head_slash(s.skip(1).skip(1));
                        assert(s.skip(1).skip(1)[0] == 47);
                        assert(s[0] == 47 && s[1] == 47 && s[2] == 47);
                        assert(false);
                    }
                } else {
                    assert(e[i] == g[i - 1]);
                    assert(e[i + 1] == g[i]);
                    assert(e[i + 2] == g[i + 1]);
                }
            }
        }
    }
}

/// Folding removes every `//` pair, provided the input had no `///` run.
proof fn lemma_fold_double_free(t: Seq<u8>)
    requires
        triple_slash_free(t),
    ensures
        double_slash_free(fold_double_slash(t)),
    decreases t.len(),
{
    let f = fold_double_slash(t);
    if t.len() >= 2 && t[0] == 47 && t[1] == 47 {
        lemma_skip_triple_free(t, 2);
        lemma_fold_double_free(t.skip(2));
        let g = fold_double_slash(t.skip(2));
        assert forall|i: int| 0 <= i && i + 1 < f.len() implies !(#[trigger] f[i] == 47 && f[i + 1]
            == 47) by {
            if i == 0 {
                assert(f[0] == 92);
            } else if i == 1 {
                if f[2] == 47 {
                    assert(f[2] == g[0]);
                    lemma_fold_head(t.skip(2));
                    assert(t.skip(2)[0] == 47);
                    assert(t[2] == 47);
                    assert(false);
                }
            } else {
                assert(f[i] == g[i - 2]);
                assert(f[i + 1] == g[i - 1]);
            }
        }
    } else if t.len() >= 1 {
        lemma_skip_triple_free(t, 1);
        lemma_fold_double_free(t.skip(1));
        let g = fold_double_slash(t.skip(1));
        assert forall|i: int| 0 <= i && i + 1 < f.len() implies !(#[trigger] f[i] == 47 && f[i + 1]
            == 47) by {
            if i == 0 {
                if f[0] == 47 && f[1] == 47 {
                    assert(f[0] == t[0]);
                    assert(f[1] == g[0]);
                    lemma_fold_head(t.skip(1));
                    assert(t.skip(1)[0] == 47);
                    assert(t[1] == 47);
                    assert(false);
                }
            } else {
                assert(f[i] == g[i - 1]);
                assert(f[i + 1] == g[i]);
            }
        }
    }
}

/// A string without `//` pairs has no `///` runs either.
pub proof fn lemma_double_free_triple_free(s: Seq<u8>)
    requires
        double_slash_free(s),
    ensures
        triple_slash_free(s),
{
}

/// Escaping keeps the bytes ASCII.
pub proof fn lemma_escape_ascii(s: Seq<u8>)
    requires
        crate::text::ascii_bytes(s),
    ensures
        crate::text::ascii_bytes(escape_reserved(s)),
    decreases s.len(),
{
    if s.len() > 0 {
        assert forall|i: int| 0 <= i < s.skip(1).len() implies #[trigger] s.skip(1)[i] < 128 by {
            assert(s.skip(1)[i] == s[i + 1]);
        }
        lemma_escape_ascii(s.skip(1));
        let m = map_reserved(s[0]);
        let e = escape_reserved(s);
        let g = escape_reserved(s.skip(1));
        assert forall|i: int| 0 <= i < e.len() implies #[trigger] e[i] < 128 by {
            if i < m.len() {
                assert(e[i] == m[i]);
            } else {
                assert(e[i] == g[i - m.len()]);
            }
        }
    }
}

/// Folding `//` pairs keeps the bytes ASCII.
pub proof fn lemma_fold_ascii(t: Seq<u8>)
    requires
        crate::text::ascii_bytes(t),
    ensures
        crate::text::ascii_bytes(fold_double_slash(t)),
    decreases t.len(),
{
    let f = fold_double_slash(t);
    if t.len() >= 2 && t[0] == 47 && t[1] == 47 {
        assert forall|i: int| 0 <= i < t.skip(2).len() implies #[trigger] t.skip(2)[i] < 128 by {
            assert(t.skip(2)[i] == t[i + 2]);
        }
        lemma_fold_ascii(t.skip(2));
        let g = fold_double_slash(t.skip(2));
        assert forall|i: int| 0 <= i < f.len() implies #[trigger] f[i] < 128 by {
            if i >= 2 {
                assert(f[i] == g[i - 2]);
            }
        }
    } else if t.len() >= 1 {
        assert forall|i: int| 0 <= i < t.skip(1).len() implies #[trigger] t.skip(1)[i] < 128 by {
            assert(t.skip(1)[i] == t[i + 1]);
        }
        lemma_fold_ascii(t.skip(1));
        let g = fold_double_slash(t.skip(1));
        assert forall|i: int| 0 <= i < f.len() implies #[trigger] f[i] < 128 by {
            if i >= 1 {
                assert(f[i] == g[i - 1]);
            }
        }
    }
}

/// The whole key mapping keeps ASCII input ASCII.
pub proof fn lemma_zenoh_key_ascii(s: Seq<u8>)
    requires
        crate::text::ascii_bytes(s),
    ensures
        crate::text::ascii_bytes(zenoh_key_of(s)),
{
    let stripped = strip_leading_slash(s);
    assert forall|i: int| 0 <= i < stripped.len() implies #[trigger] stripped[i] < 128 by {
        if s.len() > 0 && s[0] == 47 {
            assert(stripped[i] == s[i + 1]);
        }
    }
    lemma_escape_ascii(stripped);
    lemma_fold_ascii(escape_reserved(stripped));
}

/// Concatenation keeps strings `///`-free when no run can form across the
/// boundary.
pub proof fn lemma_concat_triple_free(x: Seq<u8>, y: Seq<u8>)
    requires
        triple_slash_free(x),
        triple_slash_free(y),
        x.len() >= 2 && y.len() >= 1 ==> !(x[x.len() - 2] == 47 && x[x.len() - 1] == 47 && y[0]
            == 47),
        x.len() >= 1 && y.len() >= 2 ==> !(x[x.len() - 1] == 47 && y[0] == 47 && y[1] == 47),
    ensures
        triple_slash_free(x + y),
{
    let z = x + y;
    assert forall|i: int| 0 <= i && i + 2 < z.len() implies !(#[trigger] z[i] == 47 && z[i + 1]
        == 47 && z[i + 2] == 47) by {
        if i + 2 < x.len() {
            assert(z[i] == x[i] && z[i + 1] == x[i + 1] && z[i + 2] == x[i + 2]);
        } else if i >= x.len() {
            assert(z[i] == y[i - x.len()] && z[i + 1] == y[i + 1 - x.len()] && z[i + 2] == y[i + 2
                - x.len()]);
        } else if i + 2 == x.len() {
            assert(z[i] == x[i] && z[i + 1] == x[i + 1] && z[i + 2] == y[0]);
        } else {
            assert(i + 1 == x.len());
            assert(z[i] == x[i] && z[i + 1] == y[0] && z[i + 2] == y[1]);
        }
    }
}

/// Law: the key mapped from any serialized URI without a `///` run holds none
/// of the substrate's reserved characters and no `//` substring.
pub proof fn lemma_zenoh_key_legal(s: Seq<u8>)
    requires
        triple_slash_free(s),
    ensures
        reserved_free(zenoh_key_of(s)),
        double_slash_free(zenoh_key_of(s)),
{
    let stripped = strip_leading_slash(s);
    if s.len() > 0 && s[0] == 47 {
        lemma_skip_triple_free(s, 1);
    }
    lemma_escape_reserved_free(stripped);
    lemma_escape_triple_free(stripped);
    lemma_fold_reserved_free(escape_reserved(stripped));
    lemma_fold_double_free(escape_reserved(stripped));
}

/// Escapes the byte content of a serialized URI into a substrate key.
pub fn escape_uri_bytes(s: &[u8]) -> (r: Vec<u8>)
    ensures
        r@ == zenoh_key_of(s@),
{
    let start: usize = if s.len() > 0 && s[0] == 47 {
        1
    } else {
        0
    };
    let ghost stripped: Seq<u8> = strip_leading_slash(s@);
    assert(stripped =~= s@.subrange(start as int, s@.len() as int));
    let mut escaped: Vec<u8> = Vec::new();
    let mut i: usize = start;
    while i < s.len()
        invariant
            start <= i <= s@.len(),
            stripped == s@.subrange(start as int, s@.len() as int),
            escape_reserved(stripped) == escaped@ + escape_reserved(
                s@.subrange(i as int, s@.len() as int),
            ),
        decreases s@.len() - i,
    {
        let ghost rest: Seq<u8> = s@.subrange(i as int, s@.len() as int);
        assert(rest.skip(1) =~= s@.subrange(i + 1 as int, s@.len() as int));
        let ghost prev: Seq<u8> = escaped@;
        let b: u8 = s[i];
        if b == 42 {
            escaped.push(92);
            escaped.push(56);
        } else if b == 36 {
            escaped.push(92);
            escaped.push(52);
        } else if b == 63 {
            escaped.push(92);
            escaped.push(48);
        } else if b == 35 {
            escaped.push(92);
            escaped.push(51);
        } else {
            escaped.push(b);
        }
        assert(escaped@ =~= prev + map_reserved(b));
        i = i + 1;
    }
    assert(s@.subrange(s@.len() as int, s@.len() as int) =~= Seq::<u8>::empty());
    assert(escaped@ == escape_reserved(stripped));
    let mid: Vec<u8> = escaped;
    let mut out: Vec<u8> = Vec::new();
    let mut j: usize = 0;
    assert(mid@.subrange(0, mid@.len() as int) =~= mid@);
    while j < mid.len()
        invariant
            0 <= j <= mid@.len(),
            mid@ == escape_reserved(stripped),
            fold_double_slash(mid@) == out@ + fold_double_slash(
                mid@.subrange(j as int, mid@.len() as int),
            ),
        decreases mid@.len() - j,
    {
        let ghost rest: Seq<u8> = mid@.subrange(j as int, mid@.len() as int);
        if j + 1 < mid.len() && mid[j] == 47 && mid[j + 1] == 47 {
            assert(rest.skip(2) =~= mid@.subrange(j + 2 as int, mid@.len() as int));
            out.push(92);
            out.push(47);
            j = j + 2;
        } else {
            assert(rest.skip(1) =~= mid@.subrange(j + 1 as int, mid@.len() as int));
            out.push(mid[j]);
            j = j + 1;
        }
    }
    assert(mid@.subrange(mid@.len() as int, mid@.len() as int) =~= Seq::<u8>::empty());
    out
}

} // verus!
