//! Sets of numbers, and sets of spans, held as strictly increasing vectors.

use vstd::prelude::*;

verus! {

/// Every number is smaller than the ones behind it.
pub open spec fn increasing(s: Seq<u64>) -> bool {
    forall|i: int, j: int| 0 <= i < j < s.len() ==> s[i] < s[j]
}

/// Puts `x` into the set `v`, at its place, unless it is there.
pub fn insert_id(v: &mut Vec<u64>, x: u64)
    requires
        increasing(old(v)@),
    ensures
        increasing(final(v)@),
        final(v)@.to_set() == old(v)@.to_set().insert(x),
        old(v)@.contains(x) ==> final(v)@ == old(v)@,
{
    let mut i: usize = 0;
    while i < v.len() && v[i] < x
        invariant
            i <= v.len(),
            *v == *old(v),
            forall|j: int| 0 <= j < i ==> v@[j] < x,
        decreases v.len() - i,
    {
        i = i + 1;
    }
    if i < v.len() && v[i] == x {
        assert(v@.contains(x));
        assert(v@.to_set() =~= v@.to_set().insert(x));
        return ;
    }
    proof {
        if v@.contains(x) {
            let j = choose|j: int| 0 <= j < v@.len() && v@[j] == x;
            if j > i {
                assert(v@[i as int] < v@[j]);
            }
        }
    }
    v.insert(i, x);
    proof {
        let a = old(v)@;
        let b = v@;
        assert(b == a.insert(i as int, x));
        assert forall|p: int, q: int| 0 <= p < q < b.len() implies b[p] < b[q] by {
            if q < i {
                assert(b[p] == a[p] && b[q] == a[q]);
            } else if q == i {
                assert(b[p] == a[p]);
            } else if p < i {
                assert(b[p] == a[p] && b[q] == a[q - 1]);
                if i < a.len() {
                    assert(a[i as int] <= a[q - 1]);
                }
            } else if p == i {
                assert(b[q] == a[q - 1]);
                assert(a[i as int] <= a[q - 1]);
            } else {
                assert(b[p] == a[p - 1] && b[q] == a[q - 1]);
            }
        }
        assert forall|y: u64| b.to_set().contains(y) <==> a.to_set().insert(x).contains(y) by {
            if b.to_set().contains(y) {
                let j = choose|j: int| 0 <= j < b.len() && b[j] == y;
                if j < i {
                    assert(a[j] == y);
                } else if j > i {
                    assert(a[j - 1] == y);
                }
            }
            if a.to_set().contains(y) {
                let j = choose|j: int| 0 <= j < a.len() && a[j] == y;
                if j < i {
                    assert(b[j] == y);
                } else {
                    assert(b[j + 1] == y);
                }
            }
            if y == x {
                assert(b[i as int] == y);
            }
        }
        assert(b.to_set() =~= a.to_set().insert(x));
    }
}

/// A span comes before another: by its first number, then by its last.
pub open spec fn span_lt(a: (u64, u64), b: (u64, u64)) -> bool {
    a.0 < b.0 || (a.0 == b.0 && a.1 < b.1)
}

/// Every span comes before the ones behind it.
pub open spec fn spans_increasing(s: Seq<(u64, u64)>) -> bool {
    forall|i: int, j: int| 0 <= i < j < s.len() ==> span_lt(s[i], s[j])
}

/// The numbers from `first` to `last`, both included.
pub open spec fn range_set(first: u64, last: u64) -> Set<u64> {
    Set::new(|x: u64| first <= x <= last)
}

/// The numbers of a set in increasing order.
pub open spec fn sorted_ids(set: Set<u64>) -> Seq<u64> {
    choose|s: Seq<u64>| increasing(s) && s.to_set() == set
}

/// A set of numbers can be listed in increasing order in one way only.
pub proof fn lemma_increasing_unique(a: Seq<u64>, b: Seq<u64>)
    requires
        increasing(a),
        increasing(b),
        a.to_set() == b.to_set(),
    ensures
        a == b,
    decreases a.len(),
{
    if a.len() == 0 {
        if b.len() > 0 {
            assert(b.to_set().contains(b[0]));
            assert(a.to_set().contains(b[0]));
        }
        assert(a =~= b);
    } else {
        let x = a.last();
        assert(a.to_set().contains(x));
        assert(b.to_set().contains(x));
        let j = choose|j: int| 0 <= j < b.len() && b[j] == x;
        let y = b.last();
        assert(b.to_set().contains(y));
        assert(a.to_set().contains(y));
        let i = choose|i: int| 0 <= i < a.len() && a[i] == y;
        if j < b.len() - 1 {
            assert(b[j] < b[b.len() - 1]);
            if i < a.len() - 1 {
                assert(a[i] < a[a.len() - 1]);
            }
            assert(false);
        }
        let a0 = a.drop_last();
        let b0 = b.drop_last();
        assert forall|k: u64| a0.to_set().contains(k) <==> b0.to_set().contains(k) by {
            if a0.to_set().contains(k) {
                let p = choose|p: int| 0 <= p < a0.len() && a0[p] == k;
                assert(a[p] == k);
                assert(a.to_set().contains(k));
                assert(a[p] < a[a.len() - 1]);
                assert(b.to_set().contains(k));
                let q = choose|q: int| 0 <= q < b.len() && b[q] == k;
                assert(b0[q] == k);
            }
            if b0.to_set().contains(k) {
                let p = choose|p: int| 0 <= p < b0.len() && b0[p] == k;
                assert(b[p] == k);
                assert(b.to_set().contains(k));
                assert(b[p] < b[b.len() - 1]);
                assert(a.to_set().contains(k));
                let q = choose|q: int| 0 <= q < a.len() && a[q] == k;
                assert(a0[q] == k);
            }
        }
        assert(a0.to_set() =~= b0.to_set());
        assert(increasing(a0)) by {
            assert forall|p: int, q: int| 0 <= p < q < a0.len() implies a0[p] < a0[q] by {
                assert(a0[p] == a[p] && a0[q] == a[q]);
            }
        }
        assert(increasing(b0)) by {
            assert forall|p: int, q: int| 0 <= p < q < b0.len() implies b0[p] < b0[q] by {
                assert(b0[p] == b[p] && b0[q] == b[q]);
            }
        }
        lemma_increasing_unique(a0, b0);
        assert(a =~= a0.push(x));
        assert(b =~= b0.push(y));
    }
}

/// A set kept in increasing order is the listing of its numbers.
pub proof fn lemma_is_sorted_ids(s: Seq<u64>)
    requires
        increasing(s),
    ensures
        sorted_ids(s.to_set()) == s,
{
    lemma_increasing_unique(s, sorted_ids(s.to_set()));
}

/// Puts every number from `first` to `last` into the set `v`; none where `last` comes
/// before `first`.
pub fn insert_range(v: &mut Vec<u64>, first: u64, last: u64)
    requires
        increasing(old(v)@),
    ensures
        increasing(final(v)@),
        final(v)@.to_set() == old(v)@.to_set().union(range_set(first, last)),
{
    if last < first {
        assert(v@.to_set() =~= old(v)@.to_set().union(range_set(first, last)));
        return ;
    }
    let mut x = first;
    insert_id(v, first);
    assert(v@.to_set() =~= old(v)@.to_set().union(range_set(first, first)));
    while x < last
        invariant
            first <= x <= last,
            increasing(v@),
            v@.to_set() == old(v)@.to_set().union(range_set(first, x)),
        decreases last - x,
    {
        let ghost before = v@.to_set();
        x = x + 1;
        insert_id(v, x);
        assert(v@.to_set() =~= old(v)@.to_set().union(range_set(first, x)));
    }
}

/// Puts the span `x` into the set `v`, at its place, unless it is there.
pub fn insert_span(v: &mut Vec<(u64, u64)>, x: (u64, u64))
    requires
        spans_increasing(old(v)@),
    ensures
        spans_increasing(final(v)@),
        final(v)@.to_set() == old(v)@.to_set().insert(x),
        old(v)@.contains(x) ==> final(v)@ == old(v)@,
{
    let mut i: usize = 0;
    while i < v.len() && (v[i].0 < x.0 || (v[i].0 == x.0 && v[i].1 < x.1))
        invariant
            i <= v.len(),
            *v == *old(v),
            forall|j: int| 0 <= j < i ==> span_lt(v@[j], x),
        decreases v.len() - i,
    {
        i = i + 1;
    }
    if i < v.len() && v[i].0 == x.0 && v[i].1 == x.1 {
        assert(v@.contains(x));
        assert(v@.to_set() =~= v@.to_set().insert(x));
        return ;
    }
    proof {
        if v@.contains(x) {
            let j = choose|j: int| 0 <= j < v@.len() && v@[j] == x;
            if j > i {
                assert(span_lt(v@[i as int], v@[j]));
            }
        }
    }
    v.insert(i, x);
    proof {
        let a = old(v)@;
        let b = v@;
        assert(b == a.insert(i as int, x));
        assert forall|p: int, q: int| 0 <= p < q < b.len() implies span_lt(b[p], b[q]) by {
            if q < i {
                assert(b[p] == a[p] && b[q] == a[q]);
            } else if q == i {
                assert(b[p] == a[p]);
            } else if p < i {
                assert(b[p] == a[p] && b[q] == a[q - 1]);
                if i < a.len() {
                    assert(i == q - 1 || span_lt(a[i as int], a[q - 1]));
                }
            } else if p == i {
                assert(b[q] == a[q - 1]);
                assert(i == q - 1 || span_lt(a[i as int], a[q - 1]));
            } else {
                assert(b[p] == a[p - 1] && b[q] == a[q - 1]);
            }
        }
        assert forall|y: (u64, u64)| b.to_set().contains(y) <==> a.to_set().insert(x).contains(y) by {
            if b.to_set().contains(y) {
                let j = choose|j: int| 0 <= j < b.len() && b[j] == y;
                if j < i {
                    assert(a[j] == y);
                } else if j > i {
                    assert(a[j - 1] == y);
                }
            }
            if a.to_set().contains(y) {
                let j = choose|j: int| 0 <= j < a.len() && a[j] == y;
                if j < i {
                    assert(b[j] == y);
                } else {
                    assert(b[j + 1] == y);
                }
            }
            if y == x {
                assert(b[i as int] == y);
            }
        }
        assert(b.to_set() =~= a.to_set().insert(x));
    }
}

/// Puts every span of `more` into the set `v`.
pub fn insert_spans(v: &mut Vec<(u64, u64)>, more: &[(u64, u64)])
    requires
        spans_increasing(old(v)@),
    ensures
        spans_increasing(final(v)@),
        final(v)@.to_set() == old(v)@.to_set().union(more@.to_set()),
{
    let mut i: usize = 0;
    assert(more@.subrange(0, 0).to_set() =~= Set::<(u64, u64)>::empty());
    assert(v@.to_set().union(Set::<(u64, u64)>::empty()) =~= v@.to_set());
    while i < more.len()
        invariant
            i <= more.len(),
            spans_increasing(v@),
            v@.to_set() == old(v)@.to_set().union(more@.subrange(0, i as int).to_set()),
        decreases more.len() - i,
    {
        let ghost before = v@.to_set();
        insert_span(v, more[i]);
        proof {
            let shorter = more@.subrange(0, i as int);
            let longer = more@.subrange(0, i + 1);
            assert(longer == shorter.push(more@[i as int]));
            assert(longer.to_set() =~= shorter.to_set().insert(more@[i as int])) by {
                assert forall|y: (u64, u64)| longer.to_set().contains(y) <==> shorter.to_set().insert(
                    more@[i as int],
                ).contains(y) by {
                    if longer.to_set().contains(y) {
                        let j = choose|j: int| 0 <= j < longer.len() && longer[j] == y;
                        if j < i {
                            assert(shorter[j] == y);
                        }
                    }
                    if shorter.to_set().contains(y) {
                        let j = choose|j: int| 0 <= j < shorter.len() && shorter[j] == y;
                        assert(longer[j] == y);
                    }
                    if y == more@[i as int] {
                        assert(longer[i as int] == y);
                    }
                }
            }
            assert(v@.to_set() =~= old(v)@.to_set().union(longer.to_set()));
        }
        i = i + 1;
    }
    assert(more@.subrange(0, more@.len() as int) =~= more@);
}

} // verus!
