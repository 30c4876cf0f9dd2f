//! The choice of the token whose postings give the candidate verses: long enough to fill a
//! page of results, and no longer than need be.

use crate::expand::{distinct_ids, Discovered, MatchType};
use vstd::prelude::*;

verus! {

/// The number of results that a query gets at most.
pub const MAX_RESULTS: usize = 20;

/// `a`, with `sa` verses, comes before `b`, with `sb` verses: the better class first, in one
/// class the fewer verses first, and then the smaller number.
pub open spec fn sorts_before(a: Discovered, sa: int, b: Discovered, sb: int) -> bool {
    a.match_type.grade() < b.match_type.grade() || (a.match_type.grade() == b.match_type.grade()
        && (sa < sb || (sa == sb && a.id < b.id)))
}

/// `a`, with `sa` verses, is larger than `b`, with `sb` verses. Of two with as many verses
/// the one that comes first counts as the larger.
pub open spec fn is_larger(a: Discovered, sa: int, b: Discovered, sb: int) -> bool {
    sa > sb || (sa == sb && sorts_before(a, sa, b, sb))
}

/// Some token has at least `threshold` verses.
pub open spec fn reaches(sizes: Seq<usize>, threshold: int) -> bool {
    exists|j: int| 0 <= j < sizes.len() && #[trigger] sizes[j] >= threshold
}

/// The token at place `c` is the first, as tokens are sorted, of those with at least
/// `threshold` verses.
pub open spec fn is_first_reaching(
    found: Seq<Discovered>,
    sizes: Seq<usize>,
    threshold: int,
    c: int,
) -> bool {
    &&& 0 <= c < found.len()
    &&& sizes[c] >= threshold
    &&& forall|j: int|
        0 <= j < found.len() && j != c && #[trigger] sizes[j] >= threshold ==> sorts_before(
            found[c],
            sizes[c] as int,
            found[j],
            sizes[j] as int,
        )
}

/// The token at place `c` is the largest there is.
pub open spec fn is_largest(found: Seq<Discovered>, sizes: Seq<usize>, c: int) -> bool {
    &&& 0 <= c < found.len()
    &&& forall|j: int|
        0 <= j < found.len() && j != c ==> is_larger(
            found[c],
            sizes[c] as int,
            #[trigger] found[j],
            sizes[j] as int,
        )
}

/// The token at place `c` is the one whose verses become the candidates: the first with
/// three pages of verses; if there is none, the first with two pages; if there is none, the
/// first with one page; and if there is none, the largest.
pub open spec fn is_seed(found: Seq<Discovered>, sizes: Seq<usize>, c: int) -> bool {
    if reaches(sizes, 3 * MAX_RESULTS) {
        is_first_reaching(found, sizes, 3 * MAX_RESULTS, c)
    } else if reaches(sizes, 2 * MAX_RESULTS) {
        is_first_reaching(found, sizes, 2 * MAX_RESULTS, c)
    } else if reaches(sizes, MAX_RESULTS as int) {
        is_first_reaching(found, sizes, MAX_RESULTS as int, c)
    } else {
        is_largest(found, sizes, c)
    }
}

/// The place of the token whose verses become the candidates.
pub open spec fn seed(found: Seq<Discovered>, sizes: Seq<usize>) -> int {
    choose|c: int| is_seed(found, sizes, c)
}

/// Tells whether `a` comes before `b`.
pub fn comes_before(a: &Discovered, sa: usize, b: &Discovered, sb: usize) -> (r: bool)
    ensures
        r == sorts_before(*a, sa as int, *b, sb as int),
{
    let ga: u8 = match a.match_type {
        MatchType::Exact => 0,
        MatchType::Prefix => 1,
        MatchType::Typo => 2,
    };
    let gb: u8 = match b.match_type {
        MatchType::Exact => 0,
        MatchType::Prefix => 1,
        MatchType::Typo => 2,
    };
    ga < gb || (ga == gb && (sa < sb || (sa == sb && a.id < b.id)))
}

/// Finds the first token, as tokens are sorted, with at least `threshold` verses.
pub fn first_reaching(found: &Vec<Discovered>, sizes: &Vec<usize>, threshold: usize) -> (r:
    Option<usize>)
    requires
        found@.len() == sizes@.len(),
        distinct_ids(found@),
    ensures
        match r {
            Some(c) => is_first_reaching(found@, sizes@, threshold as int, c as int),
            None => !reaches(sizes@, threshold as int),
        },
{
    let mut best: Option<usize> = None;
    let mut j: usize = 0;
    while j < found.len()
        invariant
            j <= found.len(),
            found@.len() == sizes@.len(),
            distinct_ids(found@),
            match best {
                Some(c) => c < j && sizes@[c as int] >= threshold && forall|i: int|
                    0 <= i < j && i != c && #[trigger] sizes@[i] >= threshold ==> sorts_before(
                        found@[c as int],
                        sizes@[c as int] as int,
                        found@[i],
                        sizes@[i] as int,
                    ),
                None => forall|i: int| 0 <= i < j ==> #[trigger] sizes@[i] < threshold,
            },
        decreases found.len() - j,
    {
        if sizes[j] >= threshold {
            match best {
                None => {
                    best = Some(j);
                },
                Some(c) => {
                    assert(found@[c as int].id != found@[j as int].id);
                    if comes_before(&found[j], sizes[j], &found[c], sizes[c]) {
                        best = Some(j);
                    }
                },
            }
        }
        j = j + 1;
    }
    best
}

/// Finds the largest token.
pub fn largest(found: &Vec<Discovered>, sizes: &Vec<usize>) -> (c: usize)
    requires
        found@.len() == sizes@.len(),
        found@.len() > 0,
        distinct_ids(found@),
    ensures
        is_largest(found@, sizes@, c as int),
{
    let mut best: usize = 0;
    let mut j: usize = 1;
    while j < found.len()
        invariant
            1 <= j <= found.len(),
            found@.len() == sizes@.len(),
            distinct_ids(found@),
            best < j,
            forall|i: int|
                0 <= i < j && i != best ==> is_larger(
                    found@[best as int],
                    sizes@[best as int] as int,
                    #[trigger] found@[i],
                    sizes@[i] as int,
                ),
        decreases found.len() - j,
    {
        assert(found@[best as int].id != found@[j as int].id);
        if sizes[j] > sizes[best] || (sizes[j] == sizes[best] && comes_before(
            &found[j],
            sizes[j],
            &found[best],
            sizes[best],
        )) {
            best = j;
        }
        j = j + 1;
    }
    best
}

/// Chooses the token whose verses become the candidates. `sizes` holds, for each token that
/// the query reached, the number of verses in its postings.
pub fn select_seed(found: &Vec<Discovered>, sizes: &Vec<usize>) -> (c: usize)
    requires
        found@.len() == sizes@.len(),
        found@.len() > 0,
        distinct_ids(found@),
    ensures
        is_seed(found@, sizes@, c as int),
        c == seed(found@, sizes@),
        c < found@.len(),
{
    let c = match first_reaching(found, sizes, 3 * MAX_RESULTS) {
        Some(c) => c,
        None => match first_reaching(found, sizes, 2 * MAX_RESULTS) {
            Some(c) => c,
            None => match first_reaching(found, sizes, MAX_RESULTS) {
                Some(c) => c,
                None => largest(found, sizes),
            },
        },
    };
    proof {
        lemma_seed_unique(found@, sizes@, c as int, seed(found@, sizes@));
    }
    c
}

/// There is one seed only.
pub proof fn lemma_seed_unique(found: Seq<Discovered>, sizes: Seq<usize>, c: int, d: int)
    requires
        found.len() == sizes.len(),
        distinct_ids(found),
        is_seed(found, sizes, c),
    ensures
        is_seed(found, sizes, d) ==> c == d,
        seed(found, sizes) == c,
{
    if is_seed(found, sizes, d) && c != d {
        assert(found[c].id != found[d].id);
    }
    let e = seed(found, sizes);
    if e != c {
        assert(found[c].id != found[e].id);
    }
}

/// The seed is of no worse a class than any token with as many verses.
pub proof fn lemma_seed_prefers_better_class(
    found: Seq<Discovered>,
    sizes: Seq<usize>,
    c: int,
    j: int,
)
    requires
        found.len() == sizes.len(),
        is_seed(found, sizes, c),
        0 <= j < found.len(),
        j != c,
        sizes[j] == sizes[c],
    ensures
        found[c].match_type.grade() <= found[j].match_type.grade(),
{
}

} // verus!
