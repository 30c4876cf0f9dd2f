//! A table from byte strings to values, held in the order of its keys: the order in which
//! a transducer is fed.

use crate::lex::{
    lemma_lex_transitive, lemma_lex_trichotomy, lex_compare, lex_lt, strictly_sorted, LexOrder,
};
use vstd::prelude::*;

verus! {

/// Keys in strictly increasing order, and the value of each key at the key's place.
#[derive(Debug)]
pub struct Table<V> {
    pub keys: Vec<Vec<u8>>,
    pub values: Vec<V>,
}

/// The byte strings that a vector of keys holds.
pub open spec fn key_seq(keys: Seq<Vec<u8>>) -> Seq<Seq<u8>> {
    Seq::new(keys.len(), |i: int| keys[i]@)
}

/// `at` is the place at which `key` is missing from `keys`: the keys before it are smaller
/// and the keys from it on are greater.
pub open spec fn is_gap(keys: Seq<Seq<u8>>, key: Seq<u8>, at: int) -> bool {
    &&& 0 <= at <= keys.len()
    &&& forall|j: int| 0 <= j < at ==> lex_lt(#[trigger] keys[j], key)
    &&& forall|j: int| at <= j < keys.len() ==> lex_lt(key, #[trigger] keys[j])
}

/// The keys of a list of entries.
pub open spec fn entry_keys<M>(list: Seq<(Seq<u8>, M)>) -> Seq<Seq<u8>> {
    Seq::new(list.len(), |i: int| list[i].0)
}

/// The list has an entry for `key`.
pub open spec fn has_key<M>(list: Seq<(Seq<u8>, M)>, key: Seq<u8>) -> bool {
    exists|i: int| 0 <= i < list.len() && (#[trigger] list[i]).0 == key
}

/// The place of the entry for `key`.
pub open spec fn place_in<M>(list: Seq<(Seq<u8>, M)>, key: Seq<u8>) -> int {
    choose|i: int| 0 <= i < list.len() && (#[trigger] list[i]).0 == key
}

/// The place at which `key` is missing from `keys`.
pub open spec fn gap_of(keys: Seq<Seq<u8>>, key: Seq<u8>) -> int {
    choose|at: int| is_gap(keys, key, at)
}

/// The list with an entry for `key`: the list itself where it has one, else the list with
/// `key` and `value` put in at the place at which the key is missing.
pub open spec fn ensure<M>(list: Seq<(Seq<u8>, M)>, key: Seq<u8>, value: M) -> Seq<(Seq<u8>, M)> {
    if has_key(list, key) {
        list
    } else {
        list.insert(gap_of(entry_keys(list), key), (key, value))
    }
}

/// In a sorted list a key stands at one place only.
pub proof fn lemma_place_in<M>(list: Seq<(Seq<u8>, M)>, i: int)
    requires
        strictly_sorted(entry_keys(list)),
        0 <= i < list.len(),
    ensures
        has_key(list, list[i].0),
        place_in(list, list[i].0) == i,
{
    let keys = entry_keys(list);
    let p = place_in(list, list[i].0);
    assert(keys[p] == list[p].0 && keys[i] == list[i].0);
    if p < i {
        assert(lex_lt(keys[p], keys[i]));
        lemma_lex_trichotomy(keys[p], keys[i]);
    } else if i < p {
        assert(lex_lt(keys[i], keys[p]));
        lemma_lex_trichotomy(keys[i], keys[p]);
    }
}

/// A key is missing from a sorted list at one place only, and only if the list does not
/// hold it.
pub proof fn lemma_gap<M>(list: Seq<(Seq<u8>, M)>, key: Seq<u8>, at: int)
    requires
        is_gap(entry_keys(list), key, at),
    ensures
        !has_key(list, key),
        gap_of(entry_keys(list), key) == at,
{
    let keys = entry_keys(list);
    if has_key(list, key) {
        let i = place_in(list, key);
        assert(keys[i] == key);
        lemma_lex_trichotomy(keys[i], key);
    }
    let other = gap_of(keys, key);
    if other < at {
        assert(lex_lt(keys[other], key));
        assert(lex_lt(key, keys[other]));
        lemma_lex_trichotomy(keys[other], key);
    } else if at < other {
        assert(lex_lt(keys[at], key));
        assert(lex_lt(key, keys[at]));
        lemma_lex_trichotomy(keys[at], key);
    }
}

impl<V> Table<V> {
    /// The keys, in order.
    pub open spec fn key_list(&self) -> Seq<Seq<u8>> {
        key_seq(self.keys@)
    }

    /// There is a value for each key, and the keys increase strictly.
    pub open spec fn wf(&self) -> bool {
        &&& self.keys@.len() == self.values@.len()
        &&& strictly_sorted(self.key_list())
    }

    /// The table has a value for `key`.
    pub open spec fn holds(&self, key: Seq<u8>) -> bool {
        self.key_list().contains(key)
    }

    /// The place of a key that the table holds.
    pub open spec fn place_of(&self, key: Seq<u8>) -> int {
        choose|i: int| 0 <= i < self.key_list().len() && self.key_list()[i] == key
    }

    /// A table without keys.
    pub fn new() -> (t: Table<V>)
        ensures
            t.wf(),
            t.keys@.len() == 0,
            t.values@.len() == 0,
    {
        Table { keys: Vec::new(), values: Vec::new() }
    }

    /// The number of keys.
    pub fn len(&self) -> (n: usize)
        requires
            self.wf(),
        ensures
            n == self.keys@.len(),
            n == self.values@.len(),
    {
        self.keys.len()
    }

    /// Looks for `key`: its place if the table holds it, else the place at which it is
    /// missing.
    pub fn find(&self, key: &[u8]) -> (r: Result<usize, usize>)
        requires
            self.wf(),
        ensures
            match r {
                Ok(i) => i < self.keys@.len() && self.key_list()[i as int] == key@ && self.holds(
                    key@,
                ) && self.place_of(key@) == i,
                Err(i) => !self.holds(key@) && is_gap(self.key_list(), key@, i as int) && i
                    <= self.keys@.len(),
            },
    {
        let mut lo: usize = 0;
        let mut hi: usize = self.keys.len();
        while lo < hi
            invariant
                self.wf(),
                lo <= hi <= self.keys@.len(),
                forall|j: int| 0 <= j < lo ==> lex_lt(#[trigger] self.key_list()[j], key@),
                forall|j: int|
                    hi <= j < self.keys@.len() ==> lex_lt(key@, #[trigger] self.key_list()[j]),
            decreases hi - lo,
        {
            let mid = lo + (hi - lo) / 2;
            let ghost m = self.key_list()[mid as int];
            match lex_compare(self.keys[mid].as_slice(), key) {
                LexOrder::Same => {
                    proof {
                        assert(self.key_list()[mid as int] == key@);
                        self.lemma_place(mid as int);
                    }
                    return Ok(mid);
                },
                LexOrder::Before => {
                    proof {
                        assert forall|j: int| 0 <= j < mid + 1 implies lex_lt(
                            #[trigger] self.key_list()[j],
                            key@,
                        ) by {
                            if j < mid {
                                assert(lex_lt(self.key_list()[j], self.key_list()[mid as int]));
                                lemma_lex_transitive(self.key_list()[j], m, key@);
                            }
                        }
                    }
                    lo = mid + 1;
                },
                LexOrder::After => {
                    proof {
                        assert forall|j: int| mid <= j < self.keys@.len() implies lex_lt(
                            key@,
                            #[trigger] self.key_list()[j],
                        ) by {
                            if j > mid {
                                assert(lex_lt(self.key_list()[mid as int], self.key_list()[j]));
                                lemma_lex_transitive(key@, m, self.key_list()[j]);
                            }
                        }
                    }
                    hi = mid;
                },
            }
        }
        proof {
            if self.holds(key@) {
                let i = choose|i: int|
                    0 <= i < self.key_list().len() && self.key_list()[i] == key@;
                lemma_lex_trichotomy(self.key_list()[i], key@);
            }
        }
        Err(lo)
    }

    /// Puts a key that the table does not hold, with its value, at the place at which it is
    /// missing.
    pub fn insert_at(&mut self, at: usize, key: Vec<u8>, value: V)
        requires
            old(self).wf(),
            is_gap(old(self).key_list(), key@, at as int),
        ensures
            final(self).wf(),
            final(self).keys@ == old(self).keys@.insert(at as int, key),
            final(self).values@ == old(self).values@.insert(at as int, value),
            final(self).key_list() == old(self).key_list().insert(at as int, key@),
            forall|k: Seq<u8>| final(self).holds(k) <==> (k == key@ || old(self).holds(k)),
    {
        self.keys.insert(at, key);
        self.values.insert(at, value);
        proof {
            let a = old(self).key_list();
            let b = self.key_list();
            assert(b =~= a.insert(at as int, key@));
            assert forall|p: int, q: int| 0 <= p < q < b.len() implies lex_lt(
                #[trigger] b[p],
                #[trigger] b[q],
            ) by {
                if q < at {
                    assert(b[p] == a[p] && b[q] == a[q]);
                } else if q == at {
                    assert(b[p] == a[p]);
                } else if p < at {
                    assert(b[p] == a[p] && b[q] == a[q - 1]);
                    assert(lex_lt(a[p], key@));
                    assert(lex_lt(key@, a[q - 1]));
                    lemma_lex_transitive(a[p], key@, a[q - 1]);
                } else if p == at {
                    assert(b[q] == a[q - 1]);
                } else {
                    assert(b[p] == a[p - 1] && b[q] == a[q - 1]);
                }
            }
            assert forall|k: Seq<u8>| self.holds(k) <==> (k == key@ || old(self).holds(k)) by {
                if self.holds(k) {
                    let j = choose|j: int| 0 <= j < b.len() && b[j] == k;
                    if j < at {
                        assert(a[j] == k);
                    } else if j > at {
                        assert(a[j - 1] == k);
                    }
                }
                if old(self).holds(k) {
                    let j = choose|j: int| 0 <= j < a.len() && a[j] == k;
                    if j < at {
                        assert(b[j] == k);
                    } else {
                        assert(b[j + 1] == k);
                    }
                }
                if k == key@ {
                    assert(b[at as int] == k);
                }
            }
        }
    }

    /// Makes sure that the table has an entry for `key` and gives the place of the entry.
    /// Where the table has none yet, the key gets `value`; where it has one, nothing
    /// changes.
    pub fn ensure_entry(&mut self, key: &[u8], value: V) -> (i: usize)
        requires
            old(self).wf(),
        ensures
            final(self).wf(),
            i < final(self).keys@.len(),
            final(self).key_list()[i as int] == key@,
            final(self).keys@[i as int]@ == key@,
            if old(self).holds(key@) {
                &&& final(self).keys@ == old(self).keys@
                &&& final(self).values@ == old(self).values@
                &&& i == old(self).place_of(key@)
            } else {
                &&& is_gap(old(self).key_list(), key@, i as int)
                &&& final(self).key_list() == old(self).key_list().insert(i as int, key@)
                &&& final(self).values@ == old(self).values@.insert(i as int, value)
                &&& final(self).keys@.len() == old(self).keys@.len() + 1
                &&& final(self).keys@ == old(self).keys@.insert(i as int, final(self).keys@[i as int])
            },
    {
        match self.find(key) {
            Ok(i) => i,
            Err(at) => {
                self.insert_at(at, vstd::slice::slice_to_vec(key), value);
                at
            },
        }
    }

    /// A key stands at one place only.
    pub proof fn lemma_place(&self, i: int)
        requires
            self.wf(),
            0 <= i < self.keys@.len(),
        ensures
            self.holds(self.key_list()[i]),
            self.place_of(self.key_list()[i]) == i,
    {
        let k = self.key_list()[i];
        assert(self.key_list().contains(k));
        let p = self.place_of(k);
        if p < i {
            assert(lex_lt(self.key_list()[p], self.key_list()[i]));
            lemma_lex_trichotomy(self.key_list()[p], self.key_list()[i]);
        } else if i < p {
            assert(lex_lt(self.key_list()[i], self.key_list()[p]));
            lemma_lex_trichotomy(self.key_list()[i], self.key_list()[p]);
        }
    }
}

} // verus!
