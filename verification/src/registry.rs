//! Registries: live handles stored under opaque string tokens.
//!
//! The link keeps three of these — subscriber handles, queryable handles and
//! pending queries — each keyed by a byte-string token. Keys are unique, an
//! entry is reachable only through its exact token, and removing the entry
//! is what releases the handle to the caller.

use vstd::prelude::*;
use vstd::map::*;
use crate::attachment::bytes_eq;

verus! {

/// A registry of handles keyed by byte-string tokens.
pub struct Registry<V> {
    entries: Vec<(Vec<u8>, V)>,
}

impl<V> Registry<V> {
    /// Tokens are pairwise distinct.
    pub closed spec fn wf(&self) -> bool {
        forall|i: int, j: int|
            0 <= i < j < self.entries@.len() ==> (#[trigger] self.entries@[i]).0@ != (
            #[trigger] self.entries@[j]).0@
    }

    /// The map this registry holds: token to handle.
    pub closed spec fn view(&self) -> Map<Seq<u8>, V> {
        Map::new(
            |k: Seq<u8>|
                exists|i: int|
                    0 <= i < self.entries@.len() && (#[trigger] self.entries@[i]).0@ == k,
            |k: Seq<u8>|
                self.entries@[choose|i: int|
                    0 <= i < self.entries@.len() && (#[trigger] self.entries@[i]).0@ == k].1,
        )
    }

    /// An empty registry.
    pub fn new() -> (r: Registry<V>)
        ensures
            r.wf(),
            r@ == Map::<Seq<u8>, V>::empty(),
    {
        let r = Registry { entries: Vec::new() };
        proof {
            assert(r@ =~= Map::<Seq<u8>, V>::empty());
        }
        r
    }

    /// Whether a handle lives under this token.
    pub fn contains_key(&self, k: &[u8]) -> (b: bool)
        ensures
            b == self@.contains_key(k@),
    {
        let mut i: usize = 0;
        while i < self.entries.len()
            invariant
                0 <= i <= self.entries@.len(),
                forall|j: int| 0 <= j < i ==> (#[trigger] self.entries@[j]).0@ != k@,
            decreases self.entries@.len() - i,
        {
            if bytes_eq(self.entries[i].0.as_slice(), k) {
                assert((self.entries@[i as int]).0@ == k@);
                return true;
            }
            i = i + 1;
        }
        assert(!self@.contains_key(k@));
        false
    }

    /// Stores a handle under a token not yet in use.
    pub fn insert(&mut self, k: Vec<u8>, v: V)
        requires
            old(self).wf(),
            !old(self)@.contains_key(k@),
        ensures
            final(self).wf(),
            final(self)@ == old(self)@.insert(k@, v),
    {
        proof {
            assert forall|i: int|
                0 <= i < self.entries@.len() implies (#[trigger] self.entries@[i]).0@ != k@ by {
                if self.entries@[i].0@ == k@ {
                    assert(old(self)@.contains_key(k@));
                }
            }
        }
        let ghost olds: Seq<(Vec<u8>, V)> = self.entries@;
        self.entries.push((k, v));
        proof {
            let news = self.entries@;
            let n = olds.len() as int;
            assert(news.len() == n + 1);
            assert(news[n] == (k, v));
            assert forall|i: int, j: int|
                0 <= i < j < news.len() implies (#[trigger] news[i]).0@ != (
            #[trigger] news[j]).0@ by {
                if j < n {
                    assert(news[i] == olds[i] && news[j] == olds[j]);
                } else {
                    assert(news[j] == (k, v));
                    if i < n {
                        assert(news[i] == olds[i]);
                        assert(olds[i].0@ != k@);
                    }
                }
            }
            assert(final(self)@ =~= old(self)@.insert(k@, v)) by {
                assert forall|q: Seq<u8>| true implies #[trigger] final(self)@.contains_key(q)
                    == old(self)@.insert(k@, v).contains_key(q) && (final(self)@.contains_key(q)
                    ==> final(self)@[q] == old(self)@.insert(k@, v)[q]) by {
                    if q == k@ {
                        assert(news[n].0@ == q);
                        assert(final(self)@.contains_key(q));
                        let c = choose|i: int| 0 <= i < news.len() && (#[trigger] news[i]).0@ == q;
                        assert(0 <= c < news.len() && news[c].0@ == q);
                        if c < n {
                            assert(news[c] == olds[c]);
                            assert(old(self)@.contains_key(q));
                        }
                        assert(c == n);
                        assert(final(self)@[q] == v);
                    } else {
                        if final(self)@.contains_key(q) {
                            let c = choose|i: int|
                                0 <= i < news.len() && (#[trigger] news[i]).0@ == q;
                            assert(0 <= c < news.len() && news[c].0@ == q);
                            assert(c != n);
                            assert(news[c] == olds[c]);
                            assert(old(self)@.contains_key(q));
                            let c2 = choose|i: int|
                                0 <= i < olds.len() && (#[trigger] olds[i]).0@ == q;
                            assert(0 <= c2 < olds.len() && olds[c2].0@ == q);
                            assert(news[c2] == olds[c2]);
                            assert(c == c2);
                            assert(final(self)@[q] == old(self)@[q]);
                        }
                        if old(self)@.contains_key(q) {
                            let c2 = choose|i: int|
                                0 <= i < olds.len() && (#[trigger] olds[i]).0@ == q;
                            assert(0 <= c2 < olds.len() && olds[c2].0@ == q);
                            assert(news[c2] == olds[c2]);
                            assert(final(self)@.contains_key(q));
                        }
                    }
                }
            }
        }
    }

    /// Stores a handle under a token, replacing any entry already there.
    pub fn set(&mut self, k: Vec<u8>, v: V)
        requires
            old(self).wf(),
        ensures
            final(self).wf(),
            final(self)@ == old(self)@.insert(k@, v),
    {
        let ghost before: Map<Seq<u8>, V> = self@;
        let removed: Option<V> = self.remove(k.as_slice());
        self.insert(k, v);
        proof {
            match removed {
                Some(_) => {
                    assert(final(self)@ =~= old(self)@.insert(k@, v));
                },
                None => {
                    assert(final(self)@ =~= old(self)@.insert(k@, v));
                },
            }
        }
    }

    /// The position of the entry under `k`, if any.
    fn find_index(&self, k: &[u8]) -> (r: Option<usize>)
        ensures
            match r {
                Some(i) => i < self.entries@.len() && (self.entries@[i as int]).0@ == k@,
                None => forall|j: int|
                    0 <= j < self.entries@.len() ==> (#[trigger] self.entries@[j]).0@ != k@,
            },
    {
        let mut i: usize = 0;
        while i < self.entries.len()
            invariant
                0 <= i <= self.entries@.len(),
                forall|j: int| 0 <= j < i ==> (#[trigger] self.entries@[j]).0@ != k@,
            decreases self.entries@.len() - i,
        {
            if bytes_eq(self.entries[i].0.as_slice(), k) {
                return Some(i);
            }
            i = i + 1;
        }
        None
    }

    /// Removes and returns the handle under this token, if one lives there.
    pub fn remove(&mut self, k: &[u8]) -> (r: Option<V>)
        requires
            old(self).wf(),
        ensures
            final(self).wf(),
            match r {
                Some(v) => old(self)@.contains_key(k@) && v == old(self)@[k@] && final(self)@
                    == old(self)@.remove(k@),
                None => !old(self)@.contains_key(k@) && final(self)@ == old(self)@,
            },
    {
        let found: Option<usize> = self.find_index(k);
        match found {
            None => {
                assert(!old(self)@.contains_key(k@));
                None
            },
            Some(idx) => {
                let ghost olds: Seq<(Vec<u8>, V)> = self.entries@;
                assert(olds[idx as int].0@ == k@);
                assert(old(self)@.contains_key(k@));
                let pair: (Vec<u8>, V) = self.entries.remove(idx);
                proof {
                    let c = choose|ii: int|
                        0 <= ii < olds.len() && (#[trigger] olds[ii]).0@ == k@;
                    assert(0 <= c < olds.len() && olds[c].0@ == k@);
                    assert(c == idx as int);
                    assert(old(self)@[k@] == olds[idx as int].1);
                    let news = self.entries@;
                    let n = olds.len() as int;
                    let ix = idx as int;
                    assert(news == olds.remove(ix));
                    assert(news.len() == n - 1);
                    assert forall|j: int| 0 <= j < news.len() implies #[trigger] news[j] == (if j
                        < ix {
                        olds[j]
                    } else {
                        olds[j + 1]
                    }) by {}
                    assert forall|a: int, b: int|
                        0 <= a < b < news.len() implies (#[trigger] news[a]).0@ != (
                    #[trigger] news[b]).0@ by {
                        let oa: int = if a < ix {
                            a
                        } else {
                            a + 1
                        };
                        let ob: int = if b < ix {
                            b
                        } else {
                            b + 1
                        };
                        assert(news[a] == olds[oa]);
                        assert(news[b] == olds[ob]);
                        assert(oa < ob);
                    }
                    assert(final(self)@ =~= old(self)@.remove(k@)) by {
                        assert forall|q: Seq<u8>| true implies (#[trigger] final(self)@.contains_key(q))
                            == old(self)@.remove(k@).contains_key(q)
                            && (final(self)@.contains_key(q) ==> final(self)@[q]
                                == old(self)@.remove(k@)[q]) by {
                            if final(self)@.contains_key(q) {
                                let c = choose|ii: int|
                                    0 <= ii < news.len() && (#[trigger] news[ii]).0@ == q;
                                assert(0 <= c < news.len() && news[c].0@ == q);
                                let oc: int = if c < ix {
                                    c
                                } else {
                                    c + 1
                                };
                                assert(news[c] == olds[oc]);
                                assert(olds[oc].0@ == q);
                                assert(oc != ix);
                                assert(q != k@);
                                assert(old(self)@.contains_key(q));
                                let c2 = choose|ii: int|
                                    0 <= ii < olds.len() && (#[trigger] olds[ii]).0@ == q;
                                assert(0 <= c2 < olds.len() && olds[c2].0@ == q);
                                assert(c2 == oc);
                                assert(final(self)@[q] == old(self)@[q]);
                            }
                            if q != k@ && old(self)@.contains_key(q) {
                                let c2 = choose|ii: int|
                                    0 <= ii < olds.len() && (#[trigger] olds[ii]).0@ == q;
                                assert(0 <= c2 < olds.len() && olds[c2].0@ == q);
                                assert(c2 != ix);
                                let nc: int = if c2 < ix {
                                    c2
                                } else {
                                    c2 - 1
                                };
                                assert(news[nc] == olds[c2]);
                                assert(news[nc].0@ == q);
                                assert(final(self)@.contains_key(q));
                            }
                            if q == k@ && final(self)@.contains_key(q) {
                                let c = choose|ii: int|
                                    0 <= ii < news.len() && (#[trigger] news[ii]).0@ == q;
                                assert(0 <= c < news.len() && news[c].0@ == q);
                                let oc: int = if c < ix {
                                    c
                                } else {
                                    c + 1
                                };
                                assert(news[c] == olds[oc]);
                                assert(olds[oc].0@ == q && oc != ix);
                                assert(false);
                            }
                        }
                    }
                }
                Some(pair.1)
            },
        }
    }

}

} // verus!
