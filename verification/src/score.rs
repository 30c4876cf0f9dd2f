//! Scoring: what the tokens that a query reached say about one candidate verse.

use crate::expand::{Discovered, MatchType};
use crate::index::VersearchIndex;
use crate::postings::Posting;
use crate::ranking::Ranking;
use crate::reading::map_get;
use crate::translation::TRANSLATION_COUNT;
use crate::verse_key::VerseKey;
use crate::verse_match::VerseMatch;
use vstd::prelude::*;

verus! {

/// What has been counted for one verse: the statistics and the words of the query in each
/// translation, and the spans to highlight.
pub struct Tally {
    pub stats: Seq<Ranking>,
    pub words: Seq<Set<usize>>,
    pub highlights: Set<(u64, u64)>,
}

/// One more, as far as the number goes.
pub open spec fn bump(x: u32) -> u32 {
    if x < u32::MAX {
        (x + 1) as u32
    } else {
        x
    }
}

/// What one translation counts for a token that occurs in the verse: the word of the query
/// that reached the token, unless it was counted before, and the token itself where it is
/// exact or a typo.
pub open spec fn count_in(r: Ranking, words: Set<usize>, e: Discovered) -> (Ranking, Set<usize>) {
    let (r1, w1) = if r.query_words < u32::MAX {
        (
            Ranking {
                query_words: if words.contains(e.qidx) {
                    r.query_words
                } else {
                    (r.query_words + 1) as u32
                },
                ..r
            },
            words.insert(e.qidx),
        )
    } else {
        (r, words)
    };
    let r2 = match e.match_type {
        MatchType::Exact => Ranking { exact: bump(r1.exact), ..r1 },
        MatchType::Typo => Ranking { typos: bump(r1.typos), ..r1 },
        MatchType::Prefix => r1,
    };
    (r2, w1)
}

/// Nothing counted.
pub open spec fn empty_tally() -> Tally {
    Tally {
        stats: Seq::new(
            TRANSLATION_COUNT as nat,
            |i: int| Ranking { typos: 0, query_words: 0, proximity: 0, exact: 0 },
        ),
        words: Seq::new(TRANSLATION_COUNT as nat, |i: int| Set::<usize>::empty()),
        highlights: Set::empty(),
    }
}

/// What a tally becomes by one token: where the token's postings hold the verse, each
/// translation in which the token occurs counts it, and the spans to highlight are taken in.
pub open spec fn tally_one(t: Tally, e: Discovered, posting: Option<Posting>) -> Tally {
    match posting {
        None => t,
        Some(p) => Tally {
            stats: Seq::new(
                TRANSLATION_COUNT as nat,
                |i: int|
                    if p.counts[i] > 0 {
                        count_in(t.stats[i], t.words[i], e).0
                    } else {
                        t.stats[i]
                    },
            ),
            words: Seq::new(
                TRANSLATION_COUNT as nat,
                |i: int|
                    if p.counts[i] > 0 {
                        count_in(t.stats[i], t.words[i], e).1
                    } else {
                        t.words[i]
                    },
            ),
            highlights: t.highlights.union(p.highlights.to_set()),
        },
    }
}

/// What the postings hold for a verse, if they hold it.
pub open spec fn posting_of(postings: Map<Seq<u8>, Posting>, key: Seq<u8>) -> Option<Posting> {
    if postings.dom().contains(key) {
        Some(postings[key])
    } else {
        None
    }
}

/// What the first `n` tokens that a query reached say about the verse with the key `key`.
pub open spec fn tally(
    all: Seq<Map<Seq<u8>, Posting>>,
    found: Seq<Discovered>,
    n: int,
    key: Seq<u8>,
) -> Tally
    decreases n,
{
    if n <= 0 {
        empty_tally()
    } else {
        tally_one(
            tally(all, found, n - 1, key),
            found[n - 1],
            posting_of(all[found[n - 1].id as int], key),
        )
    }
}

/// The candidate holds what the tally says.
pub open spec fn tallied(m: &VerseMatch, t: Tally) -> bool {
    &&& m.stats() == t.stats
    &&& m.matched_words() == t.words
    &&& m.highlights@.to_set() == t.highlights
}

/// The number of times a verse is cited; 0 for a verse of which nothing is known.
pub open spec fn cited(popularity: Map<Seq<u8>, u64>, key: Seq<u8>) -> u64 {
    if popularity.dom().contains(key) {
        popularity[key]
    } else {
        0
    }
}

/// Counts a token in one translation of a candidate.
pub fn count_token(m: &mut VerseMatch, i: usize, e: &Discovered)
    requires
        old(m).wf(),
        i < TRANSLATION_COUNT,
    ensures
        final(m).wf(),
        final(m).key == old(m).key,
        final(m).popularity == old(m).popularity,
        final(m).highlights == old(m).highlights,
        final(m).stats() == old(m).stats().update(
            i as int,
            count_in(old(m).stats()[i as int], old(m).matched_words()[i as int], *e).0,
        ),
        final(m).matched_words() == old(m).matched_words().update(
            i as int,
            count_in(old(m).stats()[i as int], old(m).matched_words()[i as int], *e).1,
        ),
{
    assert(m.stats()[i as int] == m.rankings@[i as int].ranking);
    if m.rankings[i].ranking.query_words < u32::MAX {
        m.inc_query_words(i, e.qidx);
    } else {
        assert(m.stats() =~= m.stats().update(i as int, m.stats()[i as int]));
        assert(m.matched_words() =~= m.matched_words().update(
            i as int,
            m.matched_words()[i as int],
        ));
    }
    assert(m.stats()[i as int] == m.rankings@[i as int].ranking);
    let ghost mid = m.stats();
    match e.match_type {
        MatchType::Exact => {
            if m.rankings[i].ranking.exact < u32::MAX {
                m.inc_exact(i);
            } else {
                assert(m.stats() =~= mid.update(i as int, mid[i as int]));
            }
        },
        MatchType::Typo => {
            if m.rankings[i].ranking.typos < u32::MAX {
                m.inc_typos(i);
            } else {
                assert(m.stats() =~= mid.update(i as int, mid[i as int]));
            }
        },
        MatchType::Prefix => {
            assert(m.stats() =~= mid.update(i as int, mid[i as int]));
        },
    }
    assert(m.stats() =~= old(m).stats().update(
        i as int,
        count_in(old(m).stats()[i as int], old(m).matched_words()[i as int], *e).0,
    ));
}

/// Counts a token in every translation of a candidate in which it occurs, and takes in the
/// spans to highlight.
pub fn count_posting(
    m: &mut VerseMatch,
    e: &Discovered,
    counts: &Vec<u64>,
    highlights: &Vec<(u64, u64)>,
)
    requires
        old(m).wf(),
        counts@.len() == TRANSLATION_COUNT,
        old(m).stats().len() == TRANSLATION_COUNT,
    ensures
        final(m).wf(),
        final(m).key == old(m).key,
        final(m).popularity == old(m).popularity,
        final(m).highlights@.to_set() == old(m).highlights@.to_set().union(highlights@.to_set()),
        forall|t: Tally|
            tallied(old(m), t) ==> tallied(
                final(m),
                #[trigger] tally_one(
                    t,
                    *e,
                    Some(Posting { counts: counts@, highlights: highlights@ }),
                ),
            ),
{
    let ghost stats = m.stats();
    let ghost words = m.matched_words();
    let mut i: usize = 0;
    while i < TRANSLATION_COUNT
        invariant
            i <= TRANSLATION_COUNT,
            m.wf(),
            m.key == old(m).key,
            m.popularity == old(m).popularity,
            m.highlights == old(m).highlights,
            counts@.len() == TRANSLATION_COUNT,
            stats == old(m).stats(),
            words == old(m).matched_words(),
            stats.len() == TRANSLATION_COUNT,
            m.stats() == Seq::new(
                TRANSLATION_COUNT as nat,
                |j: int|
                    if j < i && counts@[j] > 0 {
                        count_in(stats[j], words[j], *e).0
                    } else {
                        stats[j]
                    },
            ),
            m.matched_words() == Seq::new(
                TRANSLATION_COUNT as nat,
                |j: int|
                    if j < i && counts@[j] > 0 {
                        count_in(stats[j], words[j], *e).1
                    } else {
                        words[j]
                    },
            ),
        decreases TRANSLATION_COUNT - i,
    {
        let ghost before_stats = m.stats();
        let ghost before_words = m.matched_words();
        if counts[i] > 0 {
            count_token(m, i, e);
        }
        assert(m.stats() =~= Seq::new(
            TRANSLATION_COUNT as nat,
            |j: int|
                if j < i + 1 && counts@[j] > 0 {
                    count_in(stats[j], words[j], *e).0
                } else {
                    stats[j]
                },
        ));
        assert(m.matched_words() =~= Seq::new(
            TRANSLATION_COUNT as nat,
            |j: int|
                if j < i + 1 && counts@[j] > 0 {
                    count_in(stats[j], words[j], *e).1
                } else {
                    words[j]
                },
        ));
        i = i + 1;
    }
    m.extend_highlights(highlights.as_slice());
    proof {
        assert forall|t: Tally| tallied(old(m), t) implies tallied(
            m,
            #[trigger] tally_one(t, *e, Some(Posting { counts: counts@, highlights: highlights@ })),
        ) by {
            let after = tally_one(
                t,
                *e,
                Some(Posting { counts: counts@, highlights: highlights@ }),
            );
            assert(m.stats() =~= after.stats);
            assert(m.matched_words() =~= after.words);
        }
    }
}

impl VersearchIndex {
    /// Makes the candidate for the verse whose key has the bytes `key_bytes` and counts,
    /// token after token, what the tokens that the query reached say about it.
    pub fn score_verse(&self, found: &Vec<Discovered>, key_bytes: &[u8]) -> (m: VerseMatch)
        requires
            self.wf(),
            key_bytes@.len() == 3,
            forall|i: int| 0 <= i < found@.len() ==> (#[trigger] found@[i]).id
                < self.reverse_index@.len(),
        ensures
            m.wf(),
            m.key == VerseKey::of_bytes(key_bytes@),
            m.popularity == cited(self.popularity(), key_bytes@),
            tallied(&m, tally(self.postings(), found@, found@.len() as int, key_bytes@)),
    {
        let key = VerseKey::from_be_bytes(key_bytes);
        let popularity = match map_get(&self.verse_popularity, key_bytes) {
            Some(count) => count,
            None => 0,
        };
        let mut m = VerseMatch::new(key, popularity);
        proof {
            assert(m.stats() =~= empty_tally().stats);
            assert forall|i: int| 0 <= i < TRANSLATION_COUNT implies m.matched_words()[i]
                == Set::<usize>::empty() by {
                assert(m.stats()[i] == Ranking::zero_spec());
            }
            assert(m.matched_words() =~= empty_tally().words);
            assert(m.highlights@.to_set() =~= empty_tally().highlights);
        }
        let mut n: usize = 0;
        while n < found.len()
            invariant
                n <= found.len(),
                self.wf(),
                m.wf(),
                m.key == key,
                m.popularity == popularity,
                forall|i: int|
                    0 <= i < found@.len() ==> (#[trigger] found@[i]).id
                        < self.reverse_index@.len(),
                tallied(&m, tally(self.postings(), found@, n as int, key_bytes@)),
            decreases found.len() - n,
        {
            let e = found[n];
            let ghost before = tally(self.postings(), found@, n as int, key_bytes@);
            let rows = self.reverse_index.len();
            let entry = &self.reverse_index[e.id as usize];
            assert(entry.wf());
            assert(self.postings()[e.id as int] == entry.postings());
            match entry.get_counts(key_bytes) {
                Some(counts) => {
                    match entry.get_highlights(key_bytes) {
                        Some(highlights) => {
                            assert(m.stats().len() == TRANSLATION_COUNT);
                            count_posting(&mut m, &e, counts, highlights);
                            assert(entry.postings()[key_bytes@] == (Posting {
                                counts: counts@,
                                highlights: highlights@,
                            }));
                        },
                        None => {},
                    }
                },
                None => {},
            }
            n = n + 1;
        }
        m
    }
}

/// What a tally holds in one translation: it has counted a word of the query exactly where
/// it holds one, and every word that it holds is the word of a token that was counted.
pub proof fn lemma_tally_words(
    all: Seq<Map<Seq<u8>, Posting>>,
    found: Seq<Discovered>,
    n: int,
    key: Seq<u8>,
    i: int,
)
    requires
        n <= found.len(),
        0 <= i < TRANSLATION_COUNT,
    ensures
        tally(all, found, n, key).stats.len() == TRANSLATION_COUNT,
        tally(all, found, n, key).words.len() == TRANSLATION_COUNT,
        tally(all, found, n, key).stats[i].query_words == 0 <==> forall|q: usize|
            !tally(all, found, n, key).words[i].contains(q),
        forall|q: usize| #[trigger]
            tally(all, found, n, key).words[i].contains(q) ==> exists|j: int|
                0 <= j < n && (#[trigger] found[j]).qidx == q,
    decreases n,
{
    if n > 0 {
        lemma_tally_words(all, found, n - 1, key, i);
        let before = tally(all, found, n - 1, key);
        let e = found[n - 1];
        let after = tally(all, found, n, key);
        let r = before.stats[i];
        let w = before.words[i];
        match posting_of(all[e.id as int], key) {
            None => {
                assert(after == before);
            },
            Some(p) => {
                if p.counts[i] > 0 {
                    assert(after.stats[i] == count_in(r, w, e).0);
                    assert(after.words[i] == count_in(r, w, e).1);
                    if r.query_words < u32::MAX {
                        assert(after.words[i] == w.insert(e.qidx));
                        assert(after.words[i].contains(e.qidx));
                        if w.contains(e.qidx) {
                            assert(r.query_words != 0);
                            assert(after.stats[i].query_words == r.query_words);
                        } else {
                            assert(after.stats[i].query_words == r.query_words + 1);
                        }
                        assert forall|q: usize| #[trigger] after.words[i].contains(q) implies exists|
                            j: int,
                        |
                            0 <= j < n && (#[trigger] found[j]).qidx == q by {
                            if q == e.qidx {
                                assert(found[n - 1].qidx == q);
                            } else {
                                assert(w.contains(q));
                                let j = choose|j: int| 0 <= j < n - 1 && (#[trigger] found[j]).qidx == q;
                                assert(found[j].qidx == q);
                            }
                        }
                    } else {
                        assert(after.words[i] == w);
                        assert(after.stats[i].query_words == r.query_words);
                    }
                } else {
                    assert(after.stats[i] == r);
                    assert(after.words[i] == w);
                }
            },
        }
    } else {
        assert(tally(all, found, n, key) == empty_tally());
    }
}

/// A token that stands in a translation of the verse is counted there: once the token has
/// been looked at, the tally has a word of the query in that translation.
pub proof fn lemma_token_is_counted(
    all: Seq<Map<Seq<u8>, Posting>>,
    found: Seq<Discovered>,
    n: int,
    key: Seq<u8>,
    s: int,
    i: int,
)
    requires
        0 <= s < n <= found.len(),
        0 <= i < TRANSLATION_COUNT,
        all[found[s].id as int].dom().contains(key),
        all[found[s].id as int][key].counts[i] > 0,
    ensures
        tally(all, found, n, key).stats[i].query_words > 0,
    decreases n,
{
    lemma_tally_words(all, found, n - 1, key, i);
    if n - 1 > s {
        lemma_token_is_counted(all, found, n - 1, key, s, i);
    }
}

} // verus!
