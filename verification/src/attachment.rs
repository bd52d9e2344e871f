//! The out-of-band attachment that travels beside each substrate sample.
//!
//! An attachment is a small list of key/value byte-string entries. The
//! adapter writes exactly one entry, `uattributes`, holding the encoded
//! message attributes, and looks the same entry up on arrival.

use vstd::prelude::*;

verus! {

/// The attachment key under which encoded attributes travel.
pub open spec fn uattributes_key() -> Seq<u8> {
    seq![117u8, 97u8, 116u8, 116u8, 114u8, 105u8, 98u8, 117u8, 116u8, 101u8, 115u8]
}

/// Returns the literal attachment key `uattributes`.
pub fn uattributes_key_bytes() -> (r: Vec<u8>)
    ensures
        r@ == uattributes_key(),
{
    let mut v: Vec<u8> = Vec::new();
    v.push(117);
    v.push(97);
    v.push(116);
    v.push(116);
    v.push(114);
    v.push(105);
    v.push(98);
    v.push(117);
    v.push(116);
    v.push(101);
    v.push(115);
    assert(v@ =~= uattributes_key());
    v
}

/// Compares two byte strings.
pub fn bytes_eq(a: &[u8], b: &[u8]) -> (r: bool)
    ensures
        r == (a@ == b@),
{
    if a.len() != b.len() {
        assert(a@.len() != b@.len());
        return false;
    }
    let mut i: usize = 0;
    while i < a.len()
        invariant
            0 <= i <= a@.len(),
            a@.len() == b@.len(),
            forall|k: int| 0 <= k < i ==> a@[k] == #[trigger] b@[k],
        decreases a@.len() - i,
    {
        if a[i] != b[i] {
            assert(a@[i as int] != b@[i as int]);
            return false;
        }
        i = i + 1;
    }
    assert(a@ =~= b@);
    true
}

/// An attachment: key/value byte-string entries in insertion order.
#[derive(Clone, PartialEq, Eq, Debug)]
pub struct Attachment {
    pub entries: Vec<(Vec<u8>, Vec<u8>)>,
}

/// The value under the first entry of `s` whose key is `k`.
pub open spec fn lookup_entries(s: Seq<(Vec<u8>, Vec<u8>)>, k: Seq<u8>) -> Option<Seq<u8>>
    decreases s.len(),
{
    if s.len() == 0 {
        None
    } else if s[0].0@ == k {
        Some(s[0].1@)
    } else {
        lookup_entries(s.skip(1), k)
    }
}

impl Attachment {
    /// The value stored under `k`, if any.
    pub open spec fn spec_get(&self, k: Seq<u8>) -> Option<Seq<u8>> {
        lookup_entries(self.entries@, k)
    }

    /// An empty attachment.
    pub fn new() -> (a: Attachment)
        ensures
            a.entries@.len() == 0,
            forall|k: Seq<u8>| a.spec_get(k) is None,
    {
        let a = Attachment { entries: Vec::new() };
        proof {
            assert forall|k: Seq<u8>| a.spec_get(k) is None by {
                assert(a.entries@.len() == 0);
            }
        }
        a
    }

    /// Appends an entry.
    pub fn insert(&mut self, k: Vec<u8>, v: Vec<u8>)
        ensures
            final(self).entries@ == old(self).entries@ + seq![(k, v)],
    {
        self.entries.push((k, v));
    }

    /// Looks up the first entry under `k`, returning a copy of its value.
    pub fn get(&self, k: &[u8]) -> (r: Option<Vec<u8>>)
        ensures
            match r {
                Some(v) => self.spec_get(k@) == Some(v@),
                None => self.spec_get(k@) is None,
            },
    {
        let mut i: usize = 0;
        assert(self.entries@.skip(0) =~= self.entries@);
        while i < self.entries.len()
            invariant
                0 <= i <= self.entries@.len(),
                lookup_entries(self.entries@, k@) == lookup_entries(
                    self.entries@.skip(i as int),
                    k@,
                ),
            decreases self.entries@.len() - i,
        {
            let ghost rest: Seq<(Vec<u8>, Vec<u8>)> = self.entries@.skip(i as int);
            assert(rest[0] == self.entries@[i as int]);
            assert(rest.skip(1) =~= self.entries@.skip(i + 1 as int));
            let pair: &(Vec<u8>, Vec<u8>) = &self.entries[i];
            if bytes_eq(pair.0.as_slice(), k) {
                let out: Vec<u8> = vstd::slice::slice_to_vec(pair.1.as_slice());
                return Some(out);
            }
            i = i + 1;
        }
        assert(self.entries@.skip(self.entries@.len() as int).len() == 0);
        None
    }

    /// The attachment carrying exactly the encoded attributes under the
    /// `uattributes` key.
    pub fn for_uattributes(attr_bytes: Vec<u8>) -> (a: Attachment)
        ensures
            a.spec_get(uattributes_key()) == Some(attr_bytes@),
            a.entries@.len() == 1,
    {
        let mut a = Attachment::new();
        let key: Vec<u8> = uattributes_key_bytes();
        a.insert(key, attr_bytes);
        assert(a.entries@[0].0@ == uattributes_key());
        a
    }
}

} // verus!
