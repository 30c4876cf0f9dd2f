//! The lexicographic order on byte strings, which is the order in which a transducer holds
//! its keys and in which a builder wants them.

use vstd::prelude::*;

verus! {

/// `k` is the length of the longest common prefix of `a` and `b`.
pub open spec fn first_difference(a: Seq<u8>, b: Seq<u8>, k: int) -> bool {
    &&& 0 <= k <= a.len()
    &&& k <= b.len()
    &&& forall|i: int| 0 <= i < k ==> a[i] == b[i]
    &&& (k == a.len() || k == b.len() || a[k] != b[k])
}

/// `a` comes strictly before `b`: at the first place where they part, `a` has ended or holds
/// the smaller byte.
pub open spec fn lex_lt(a: Seq<u8>, b: Seq<u8>) -> bool {
    exists|k: int| #[trigger]
        first_difference(a, b, k) && k < b.len() && (k == a.len() || a[k] < b[k])
}

/// Every key comes strictly before the ones behind it.
pub open spec fn strictly_sorted(keys: Seq<Seq<u8>>) -> bool {
    forall|i: int, j: int| 0 <= i < j < keys.len() ==> lex_lt(#[trigger] keys[i], #[trigger] keys[j])
}

/// `p` is a prefix of `s`.
pub open spec fn starts_with(s: Seq<u8>, p: Seq<u8>) -> bool {
    p.len() <= s.len() && s.subrange(0, p.len() as int) == p
}

/// The outcome of comparing two byte strings.
#[derive(Clone, Copy, Debug, PartialEq, Eq, Structural)]
pub enum LexOrder {
    Before,
    Same,
    After,
}

/// Two strings part at one place only.
pub proof fn lemma_first_difference_unique(a: Seq<u8>, b: Seq<u8>, k: int, m: int)
    requires
        first_difference(a, b, k),
        first_difference(a, b, m),
    ensures
        k == m,
{
    if k < m {
        assert(a[k] == b[k]);
    } else if m < k {
        assert(a[m] == b[m]);
    }
}

/// Once the place where two strings part is known, so is their order.
pub proof fn lemma_order_at_difference(a: Seq<u8>, b: Seq<u8>, k: int)
    requires
        first_difference(a, b, k),
    ensures
        first_difference(b, a, k),
        lex_lt(a, b) <==> (k < b.len() && (k == a.len() || a[k] < b[k])),
        lex_lt(b, a) <==> (k < a.len() && (k == b.len() || b[k] < a[k])),
        a == b <==> (k == a.len() && k == b.len()),
{
    assert(first_difference(b, a, k));
    if lex_lt(a, b) {
        let m = choose|m: int| #[trigger]
            first_difference(a, b, m) && m < b.len() && (m == a.len() || a[m] < b[m]);
        lemma_first_difference_unique(a, b, k, m);
    }
    if lex_lt(b, a) {
        let m = choose|m: int| #[trigger]
            first_difference(b, a, m) && m < a.len() && (m == b.len() || b[m] < a[m]);
        lemma_first_difference_unique(b, a, k, m);
    }
    if k == a.len() && k == b.len() {
        assert(a =~= b);
    }
}

/// Any two strings part somewhere.
pub proof fn lemma_first_difference_exists(a: Seq<u8>, b: Seq<u8>) -> (k: int)
    ensures
        first_difference(a, b, k),
    decreases a.len(),
{
    if a.len() == 0 || b.len() == 0 || a[0] != b[0] {
        0
    } else {
        let k = lemma_first_difference_exists(a.drop_first(), b.drop_first());
        assert forall|i: int| 0 <= i < k + 1 implies a[i] == b[i] by {
            if i > 0 {
                assert(a.drop_first()[i - 1] == b.drop_first()[i - 1]);
            }
        }
        if k < a.len() - 1 && k < b.len() - 1 {
            assert(a.drop_first()[k] == a[k + 1]);
            assert(b.drop_first()[k] == b[k + 1]);
        }
        k + 1
    }
}

/// Of two strings, one comes before the other or they are the same string, and only one of
/// the three holds.
pub proof fn lemma_lex_trichotomy(a: Seq<u8>, b: Seq<u8>)
    ensures
        lex_lt(a, b) || a == b || lex_lt(b, a),
        !(lex_lt(a, b) && lex_lt(b, a)),
        !(lex_lt(a, b) && a == b),
{
    let k = lemma_first_difference_exists(a, b);
    lemma_order_at_difference(a, b, k);
}

/// The order is transitive.
pub proof fn lemma_lex_transitive(a: Seq<u8>, b: Seq<u8>, c: Seq<u8>)
    requires
        lex_lt(a, b),
        lex_lt(b, c),
    ensures
        lex_lt(a, c),
{
    let k = choose|k: int| #[trigger]
        first_difference(a, b, k) && k < b.len() && (k == a.len() || a[k] < b[k]);
    let m = choose|m: int| #[trigger]
        first_difference(b, c, m) && m < c.len() && (m == b.len() || b[m] < c[m]);
    let n = if k <= m { k } else { m };
    assert forall|i: int| 0 <= i < n implies a[i] == c[i] by {
        assert(a[i] == b[i]);
        assert(b[i] == c[i]);
    }
    if k < m {
        assert(b[k] == c[k]);
    } else if m < k {
        assert(a[m] == b[m]);
    }
    assert(first_difference(a, c, n));
}

/// The keys of `dom` in order, once each.
pub open spec fn is_listing(keys: Seq<Seq<u8>>, dom: Set<Seq<u8>>) -> bool {
    &&& strictly_sorted(keys)
    &&& forall|k: Seq<u8>| keys.contains(k) <==> dom.contains(k)
}

/// The keys of a finite set in order, once each.
pub open spec fn sorted_keys(dom: Set<Seq<u8>>) -> Seq<Seq<u8>> {
    choose|keys: Seq<Seq<u8>>| is_listing(keys, dom)
}

/// A set of keys can be listed in order in one way only.
pub proof fn lemma_listing_unique(a: Seq<Seq<u8>>, b: Seq<Seq<u8>>)
    requires
        strictly_sorted(a),
        strictly_sorted(b),
        forall|k: Seq<u8>| a.contains(k) <==> b.contains(k),
    ensures
        a == b,
    decreases a.len(),
{
    if a.len() == 0 {
        if b.len() > 0 {
            assert(b.contains(b[0]));
            assert(a.contains(b[0]));
        }
        assert(a =~= b);
    } else {
        let x = a.last();
        assert(a.contains(x));
        assert(b.contains(x));
        let j = choose|j: int| 0 <= j < b.len() && b[j] == x;
        let y = b.last();
        assert(b.contains(y));
        assert(a.contains(y));
        let i = choose|i: int| 0 <= i < a.len() && a[i] == y;
        if j < b.len() - 1 {
            assert(lex_lt(b[j], b[b.len() - 1]));
            if i < a.len() - 1 {
                assert(lex_lt(a[i], a[a.len() - 1]));
            }
            lemma_lex_trichotomy(x, y);
            assert(false);
        }
        let a0 = a.drop_last();
        let b0 = b.drop_last();
        assert forall|k: Seq<u8>| a0.contains(k) <==> b0.contains(k) by {
            if a0.contains(k) {
                let p = choose|p: int| 0 <= p < a0.len() && a0[p] == k;
                assert(a[p] == k);
                assert(a.contains(k));
                assert(lex_lt(a[p], a[a.len() - 1]));
                lemma_lex_trichotomy(k, x);
                let q = choose|q: int| 0 <= q < b.len() && b[q] == k;
                assert(b0[q] == k);
            }
            if b0.contains(k) {
                let p = choose|p: int| 0 <= p < b0.len() && b0[p] == k;
                assert(b[p] == k);
                assert(b.contains(k));
                assert(lex_lt(b[p], b[b.len() - 1]));
                lemma_lex_trichotomy(k, x);
                let q = choose|q: int| 0 <= q < a.len() && a[q] == k;
                assert(a0[q] == k);
            }
        }
        assert(strictly_sorted(a0)) by {
            assert forall|p: int, q: int| 0 <= p < q < a0.len() implies lex_lt(
                #[trigger] a0[p],
                #[trigger] a0[q],
            ) by {
                assert(a0[p] == a[p] && a0[q] == a[q]);
            }
        }
        assert(strictly_sorted(b0)) by {
            assert forall|p: int, q: int| 0 <= p < q < b0.len() implies lex_lt(
                #[trigger] b0[p],
                #[trigger] b0[q],
            ) by {
                assert(b0[p] == b[p] && b0[q] == b[q]);
            }
        }
        lemma_listing_unique(a0, b0);
        assert(a =~= a0.push(x));
        assert(b =~= b0.push(y));
    }
}

/// A listing of a set of keys is the listing of that set.
pub proof fn lemma_listing_is_sorted_keys(keys: Seq<Seq<u8>>, dom: Set<Seq<u8>>)
    requires
        is_listing(keys, dom),
    ensures
        sorted_keys(dom) == keys,
{
    lemma_listing_unique(keys, sorted_keys(dom));
}

/// Compares two byte strings.
pub fn lex_compare(a: &[u8], b: &[u8]) -> (r: LexOrder)
    ensures
        r == LexOrder::Before <==> lex_lt(a@, b@),
        r == LexOrder::Same <==> a@ == b@,
        r == LexOrder::After <==> lex_lt(b@, a@),
{
    let mut k: usize = 0;
    while k < a.len() && k < b.len() && a[k] == b[k]
        invariant
            k <= a.len(),
            k <= b.len(),
            forall|i: int| 0 <= i < k ==> a@[i] == b@[i],
        decreases a.len() - k,
    {
        k = k + 1;
    }
    proof {
        assert(first_difference(a@, b@, k as int));
        lemma_order_at_difference(a@, b@, k as int);
    }
    if k == a.len() {
        if k == b.len() {
            LexOrder::Same
        } else {
            LexOrder::Before
        }
    } else if k == b.len() {
        LexOrder::After
    } else if a[k] < b[k] {
        LexOrder::Before
    } else {
        LexOrder::After
    }
}

/// Tells whether `s` begins with `p`.
pub fn begins_with(s: &[u8], p: &[u8]) -> (r: bool)
    ensures
        r == starts_with(s@, p@),
{
    if p.len() > s.len() {
        return false;
    }
    let mut k: usize = 0;
    while k < p.len()
        invariant
            k <= p.len(),
            p.len() <= s.len(),
            forall|i: int| 0 <= i < k ==> s@[i] == p@[i],
        decreases p.len() - k,
    {
        if s[k] != p[k] {
            proof {
                assert(s@.subrange(0, p.len() as int)[k as int] == s@[k as int]);
            }
            return false;
        }
        k = k + 1;
    }
    proof {
        assert(s@.subrange(0, p.len() as int) =~= p@);
    }
    true
}

} // verus!
