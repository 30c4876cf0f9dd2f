//! Ranking: the best candidates, in the order in which they are listed.

use crate::ranking::Placing;
use crate::verse_match::{lemma_listing_is_strict_order, VerseMatch};
use vstd::prelude::*;

verus! {

/// Every candidate is well formed, and no two are for the same verse.
pub open spec fn candidates_wf(matches: Seq<VerseMatch>) -> bool {
    &&& forall|i: int| 0 <= i < matches.len() ==> (#[trigger] matches[i]).wf()
    &&& forall|i: int, j: int|
        0 <= i < matches.len() && 0 <= j < matches.len() && i != j ==> (#[trigger] matches[i]).key
            != (#[trigger] matches[j]).key
}

/// Candidate `k` is on the list.
pub open spec fn listed(order: Seq<usize>, k: int) -> bool {
    exists|a: int| 0 <= a < order.len() && #[trigger] order[a] == k
}

/// `order` lists the best of the first `n` candidates, `limit` of them at most, the best
/// first: the list is as long as it can be, it is sorted, and every candidate that is not on
/// it comes after every candidate that is.
pub open spec fn is_ranking(order: Seq<usize>, matches: Seq<VerseMatch>, n: int, limit: int) -> bool {
    &&& order.len() == if n < limit {
        n
    } else {
        limit
    }
    &&& forall|a: int| 0 <= a < order.len() ==> #[trigger] order[a] < n
    &&& forall|a: int, b: int|
        0 <= a < b < order.len() ==> matches[#[trigger] order[a] as int].listed_before(
            &matches[#[trigger] order[b] as int],
        )
    &&& forall|k: int, a: int|
        0 <= k < n && 0 <= a < order.len() && !listed(order, k) ==> matches[#[trigger] order[a] as int].listed_before(
        #[trigger] &matches[k])
}

/// Lists the best candidates, `limit` of them at most, the best first.
pub fn rank(matches: &Vec<VerseMatch>, limit: usize) -> (order: Vec<usize>)
    requires
        candidates_wf(matches@),
    ensures
        is_ranking(order@, matches@, matches@.len() as int, limit as int),
        order@.len() <= limit,
{
    let mut order: Vec<usize> = Vec::new();
    let mut j: usize = 0;
    while j < matches.len()
        invariant
            j <= matches.len(),
            candidates_wf(matches@),
            is_ranking(order@, matches@, j as int, limit as int),
            j <= limit ==> forall|k: int| 0 <= k < j ==> listed(order@, k),
        decreases matches.len() - j,
    {
        let mut p: usize = 0;
        let mut placed = false;
        while p < order.len() && !placed
            invariant
                p <= order.len(),
                j < matches.len(),
                candidates_wf(matches@),
                is_ranking(order@, matches@, j as int, limit as int),
                forall|a: int|
                    0 <= a < p ==> matches@[#[trigger] order@[a] as int].listed_before(
                        &matches@[j as int],
                    ),
                placed ==> p < order.len() && matches@[j as int].listed_before(
                    &matches@[order@[p as int] as int],
                ),
            decreases order.len() - p + if placed { 0int } else { 1int },
        {
            let other = order[p];
            assert(other < j);
            assert(matches@[other as int].wf() && matches@[j as int].wf());
            assert(matches@[other as int].key != matches@[j as int].key);
            match matches[j].compare(&matches[other]) {
                Placing::Above => {
                    placed = true;
                },
                _ => {
                    p = p + 1;
                },
            }
        }
        let ghost before = order@;
        if p < limit {
            order.insert(p, j);
            let ghost grown = order@;
            proof {
                assert(grown == before.insert(p as int, j));
                assert forall|a: int, b: int| 0 <= a < b < grown.len() implies matches@[
                #[trigger] grown[a] as int].listed_before(
                    &matches@[#[trigger] grown[b] as int],
                ) by {
                    if b < p {
                        assert(grown[a] == before[a] && grown[b] == before[b]);
                    } else if b == p {
                        assert(grown[a] == before[a]);
                    } else if a < p {
                        assert(grown[a] == before[a] && grown[b] == before[b - 1]);
                    } else if a == p {
                        assert(grown[b] == before[b - 1]);
                        if b - 1 > p {
                            assert(matches@[before[p as int] as int].listed_before(
                                &matches@[before[b - 1] as int],
                            ));
                            lemma_listing_is_strict_order(
                                &matches@[j as int],
                                &matches@[before[p as int] as int],
                                &matches@[before[b - 1] as int],
                            );
                        }
                    } else {
                        assert(grown[a] == before[a - 1] && grown[b] == before[b - 1]);
                    }
                }
                assert forall|k: int| listed(before, k) implies listed(grown, k) by {
                    let a = choose|a: int| 0 <= a < before.len() && #[trigger] before[a] == k;
                    if a < p {
                        assert(grown[a] == k);
                    } else {
                        assert(grown[a + 1] == k);
                    }
                }
                assert(grown[p as int] == j);
                assert(listed(grown, j as int));
            }
            if order.len() > limit {
                let dropped = order.pop();
                proof {
                    let kept = order@;
                    assert(kept =~= grown.drop_last());
                    assert(before.len() == limit);
                    assert(p < before.len());
                    assert(placed);
                    assert forall|a: int, b: int| 0 <= a < b < kept.len() implies matches@[
                    #[trigger] kept[a] as int].listed_before(
                        &matches@[#[trigger] kept[b] as int],
                    ) by {
                        assert(kept[a] == grown[a] && kept[b] == grown[b]);
                    }
                    assert forall|k: int, a: int|
                        0 <= k < j + 1 && 0 <= a < kept.len() && !listed(
                            kept,
                            k,
                        ) implies matches@[#[trigger] kept[a] as int].listed_before(
                        #[trigger] &matches@[k],
                    ) by {
                        assert(kept[a] == grown[a]);
                        if k == grown[limit as int] {
                            assert(matches@[grown[a] as int].listed_before(
                                &matches@[grown[limit as int] as int],
                            ));
                        } else {
                            if listed(grown, k) {
                                let b = choose|b: int| 0 <= b < grown.len() && #[trigger] grown[b] == k;
                                assert(kept[b] == k);
                                assert(false);
                            }
                            assert(!listed(before, k));
                            assert(k != j);
                            assert(matches@[before[p as int] as int].listed_before(&matches@[k]));
                            if a < p {
                                assert(grown[a] == before[a]);
                            } else if a == p {
                                lemma_listing_is_strict_order(
                                    &matches@[j as int],
                                    &matches@[before[p as int] as int],
                                    &matches@[k],
                                );
                            } else {
                                assert(grown[a] == before[a - 1]);
                            }
                        }
                    }
                    assert forall|a: int| 0 <= a < kept.len() implies #[trigger] kept[a] < j
                        + 1 by {
                        assert(kept[a] == grown[a]);
                        if a < p {
                            assert(grown[a] == before[a]);
                        } else if a > p {
                            assert(grown[a] == before[a - 1]);
                        }
                    }
                }
            } else {
                proof {
                    assert(before.len() < limit);
                    assert(before.len() == j);
                    assert forall|k: int, a: int|
                        0 <= k < j + 1 && 0 <= a < grown.len() && !listed(
                            grown,
                            k,
                        ) implies matches@[#[trigger] grown[a] as int].listed_before(
                        #[trigger] &matches@[k],
                    ) by {
                        if k < j {
                            assert(listed(before, k));
                        }
                    }
                    assert forall|a: int| 0 <= a < grown.len() implies #[trigger] grown[a] < j
                        + 1 by {
                        if a < p {
                            assert(grown[a] == before[a]);
                        } else if a > p {
                            assert(grown[a] == before[a - 1]);
                        }
                    }
                    assert forall|k: int| 0 <= k < j + 1 implies listed(grown, k) by {
                        if k < j {
                            assert(listed(before, k));
                        }
                    }
                }
            }
        } else {
            proof {
                assert(p == before.len() && before.len() == limit);
                assert forall|k: int, a: int|
                    0 <= k < j + 1 && 0 <= a < before.len() && !listed(
                        before,
                        k,
                    ) implies matches@[#[trigger] before[a] as int].listed_before(
                    #[trigger] &matches@[k],
                ) by {
                    if k == j {
                    }
                }
            }
        }
        j = j + 1;
    }
    order
}

/// The best candidates can be listed in one way only.
pub proof fn lemma_ranking_unique(
    first: Seq<usize>,
    second: Seq<usize>,
    matches: Seq<VerseMatch>,
    limit: int,
)
    requires
        candidates_wf(matches),
        is_ranking(first, matches, matches.len() as int, limit),
        is_ranking(second, matches, matches.len() as int, limit),
    ensures
        first == second,
{
    assert forall|a: int| 0 <= a < first.len() implies first[a] == second[a] by {
        lemma_ranking_agrees(first, second, matches, limit, a);
    }
    assert(first =~= second);
}

/// Two lists of the best candidates agree at every place.
pub proof fn lemma_ranking_agrees(
    first: Seq<usize>,
    second: Seq<usize>,
    matches: Seq<VerseMatch>,
    limit: int,
    a: int,
)
    requires
        candidates_wf(matches),
        is_ranking(first, matches, matches.len() as int, limit),
        is_ranking(second, matches, matches.len() as int, limit),
        0 <= a < first.len(),
    ensures
        first[a] == second[a],
    decreases a,
{
    if a > 0 {
        lemma_ranking_agrees(first, second, matches, limit, a - 1);
    }
    assert forall|b: int| 0 <= b < a implies first[b] == second[b] by {
        lemma_ranking_agrees(first, second, matches, limit, b);
    }
    let x = first[a];
    let y = second[a];
    if x != y {
        lemma_comes_later(first, second, matches, limit, a);
        lemma_comes_later(second, first, matches, limit, a);
        lemma_listing_is_strict_order(&matches[x as int], &matches[y as int], &matches[x as int]);
    }
}

/// Where two lists agree before place `a` and part there, the candidate of the first list
/// is listed before the candidate of the second.
pub proof fn lemma_comes_later(
    first: Seq<usize>,
    second: Seq<usize>,
    matches: Seq<VerseMatch>,
    limit: int,
    a: int,
)
    requires
        candidates_wf(matches),
        is_ranking(first, matches, matches.len() as int, limit),
        is_ranking(second, matches, matches.len() as int, limit),
        0 <= a < first.len(),
        forall|b: int| 0 <= b < a ==> first[b] == second[b],
        first[a] != second[a],
    ensures
        matches[first[a] as int].listed_before(&matches[second[a] as int]),
{
    let y = second[a];
    if listed(first, y as int) {
        let b = choose|b: int| 0 <= b < first.len() && #[trigger] first[b] == y;
        if b < a {
            assert(second[b] == y);
            assert(matches[second[b] as int].listed_before(&matches[second[a] as int]));
            lemma_listing_is_strict_order(
                &matches[y as int],
                &matches[y as int],
                &matches[y as int],
            );
        } else {
            assert(matches[first[a] as int].listed_before(&matches[first[b] as int]));
        }
    } else {
        assert(matches[first[a] as int].listed_before(&matches[y as int]));
    }
}

/// No candidate stands twice on a list of the best.
pub proof fn lemma_ranking_lists_once(
    order: Seq<usize>,
    matches: Seq<VerseMatch>,
    limit: int,
    a: int,
    b: int,
)
    requires
        is_ranking(order, matches, matches.len() as int, limit),
        0 <= a < order.len(),
        0 <= b < order.len(),
        a != b,
    ensures
        order[a] != order[b],
{
    if order[a] == order[b] {
        let x = order[a] as int;
        if a < b {
            assert(matches[order[a] as int].listed_before(&matches[order[b] as int]));
        } else {
            assert(matches[order[b] as int].listed_before(&matches[order[a] as int]));
        }
        lemma_listing_is_strict_order(&matches[x], &matches[x], &matches[x]);
    }
}

/// A list of the best that has room for every candidate holds every candidate.
pub proof fn lemma_ranking_lists_all(
    order: Seq<usize>,
    matches: Seq<VerseMatch>,
    limit: int,
    k: int,
)
    requires
        is_ranking(order, matches, matches.len() as int, limit),
        matches.len() <= limit,
        0 <= k < matches.len(),
    ensures
        listed(order, k),
{
    let n = matches.len() as int;
    let places = Seq::new(order.len(), |a: int| order[a] as int);
    assert forall|a: int, b: int| 0 <= a < places.len() && 0 <= b < places.len() && a
        != b implies places[a] != places[b] by {
        lemma_ranking_lists_once(order, matches, limit, a, b);
    }
    places.unique_seq_to_set();
    vstd::seq_lib::seq_to_set_is_finite(places);
    vstd::set_lib::lemma_int_range(0, n);
    assert forall|x: int| places.to_set().contains(x) implies vstd::set_lib::set_int_range(
        0,
        n,
    ).contains(x) by {
        let a = choose|a: int| 0 <= a < places.len() && places[a] == x;
        assert(order[a] < n);
    }
    vstd::set_lib::lemma_subset_equality(places.to_set(), vstd::set_lib::set_int_range(0, n));
    assert(vstd::set_lib::set_int_range(0, n).contains(k));
    assert(places.to_set().contains(k));
    let a = choose|a: int| 0 <= a < places.len() && places[a] == k;
    assert(order[a] == k);
}

} // verus!
