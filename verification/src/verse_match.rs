//! What is gathered for one candidate verse while a query is scored.

use crate::idset::{insert_spans, spans_increasing};
use crate::ranking::{InternalServiceRanking, Placing, Ranking};
use crate::translation::TRANSLATION_COUNT;
use crate::verse_key::VerseKey;
use vstd::prelude::*;

verus! {

/// A candidate verse: one ranking for each translation, the spans to highlight, and how
/// often the verse is cited.
#[derive(Debug)]
pub struct VerseMatch {
    pub key: VerseKey,
    /// The spans to highlight, in order and once each.
    pub highlights: Vec<(u64, u64)>,
    /// One ranking for each translation, in the order of the translations.
    pub rankings: Vec<InternalServiceRanking>,
    pub popularity: u64,
}

impl VerseMatch {
    /// There is one well-formed ranking for each translation, at the translation's place,
    /// and the highlights are a set.
    pub open spec fn wf(&self) -> bool {
        &&& self.rankings@.len() == TRANSLATION_COUNT
        &&& forall|i: int|
            0 <= i < TRANSLATION_COUNT ==> (#[trigger] self.rankings@[i]).wf()
                && self.rankings@[i].idx == i
        &&& spans_increasing(self.highlights@)
    }

    /// The statistics in each translation.
    pub open spec fn stats(&self) -> Seq<Ranking> {
        Seq::new(self.rankings@.len(), |i: int| self.rankings@[i].ranking)
    }

    /// The words of the query that were counted in each translation.
    pub open spec fn matched_words(&self) -> Seq<Set<usize>> {
        Seq::new(self.rankings@.len(), |i: int| self.rankings@[i].matched_words())
    }

    /// Translation `i` is the one in which the verse ranks best.
    pub open spec fn is_top(&self, i: int) -> bool {
        &&& 0 <= i < self.rankings@.len()
        &&& forall|j: int|
            0 <= j < self.rankings@.len() && j != i ==> self.rankings@[i].precedes(
                #[trigger] &self.rankings@[j],
            )
    }

    /// The translation in which the verse ranks best.
    pub open spec fn top(&self) -> int {
        choose|i: int| self.is_top(i)
    }

    /// The statistics by which the verse is ranked: those of its best translation.
    pub open spec fn representative(&self) -> Ranking {
        self.rankings@[self.top()].ranking
    }

    /// `self` is listed before `other`: by the representative statistics, then the verse
    /// cited more often, then the verse that comes first in the canon.
    pub open spec fn listed_before(&self, other: &VerseMatch) -> bool {
        let a = self.representative();
        let b = other.representative();
        a.outranks(b) || (a.ties_with(b) && (self.popularity > other.popularity || (
        self.popularity == other.popularity && self.key.precedes(other.key))))
    }

    /// A candidate for which nothing has been counted.
    pub fn new(key: VerseKey, popularity: u64) -> (m: VerseMatch)
        ensures
            m.wf(),
            m.key == key,
            m.popularity == popularity,
            m.highlights@ == Seq::<(u64, u64)>::empty(),
            forall|i: int|
                0 <= i < TRANSLATION_COUNT ==> #[trigger] m.stats()[i] == (Ranking {
                    typos: 0,
                    query_words: 0,
                    proximity: 0,
                    exact: 0,
                }) && m.matched_words()[i] == Set::<usize>::empty(),
    {
        let mut rankings: Vec<InternalServiceRanking> = Vec::with_capacity(TRANSLATION_COUNT);
        let mut i: usize = 0;
        while i < TRANSLATION_COUNT
            invariant
                i <= TRANSLATION_COUNT,
                rankings@.len() == i,
                forall|j: int|
                    0 <= j < i ==> (#[trigger] rankings@[j]).wf() && rankings@[j].idx == j
                        && rankings@[j].ranking == (Ranking {
                        typos: 0,
                        query_words: 0,
                        proximity: 0,
                        exact: 0,
                    }) && rankings@[j].matched_words() == Set::<usize>::empty(),
            decreases TRANSLATION_COUNT - i,
        {
            rankings.push(InternalServiceRanking::new(i));
            i = i + 1;
        }
        VerseMatch { key, rankings, highlights: Vec::new(), popularity }
    }

    /// Counts, in translation `idx`, one more token that was found by edit distance.
    pub fn inc_typos(&mut self, idx: usize)
        requires
            old(self).wf(),
            idx < TRANSLATION_COUNT,
            old(self).rankings@[idx as int].ranking.typos < u32::MAX,
        ensures
            final(self).wf(),
            final(self).key == old(self).key,
            final(self).popularity == old(self).popularity,
            final(self).highlights == old(self).highlights,
            final(self).matched_words() == old(self).matched_words(),
            final(self).stats() == old(self).stats().update(
                idx as int,
                (Ranking {
                    typos: (old(self).stats()[idx as int].typos + 1) as u32,
                    ..old(self).stats()[idx as int]
                }),
            ),
    {
        self.rankings[idx].inc_typos();
        assert(self.stats() =~= old(self).stats().update(idx as int, self.stats()[idx as int]));
        assert(self.matched_words() =~= old(self).matched_words());
    }

    /// Counts, in translation `idx`, the word at position `query_word` of the query, unless
    /// it was counted there before.
    pub fn inc_query_words(&mut self, idx: usize, query_word: usize)
        requires
            old(self).wf(),
            idx < TRANSLATION_COUNT,
            old(self).rankings@[idx as int].ranking.query_words < u32::MAX,
        ensures
            final(self).wf(),
            final(self).key == old(self).key,
            final(self).popularity == old(self).popularity,
            final(self).highlights == old(self).highlights,
            final(self).matched_words() == old(self).matched_words().update(
                idx as int,
                old(self).matched_words()[idx as int].insert(query_word),
            ),
            final(self).stats() == old(self).stats().update(
                idx as int,
                (Ranking {
                    query_words: if old(self).matched_words()[idx as int].contains(query_word) {
                        old(self).stats()[idx as int].query_words
                    } else {
                        (old(self).stats()[idx as int].query_words + 1) as u32
                    },
                    ..old(self).stats()[idx as int]
                }),
            ),
    {
        self.rankings[idx].inc_query_words(query_word);
        assert(self.stats() =~= old(self).stats().update(idx as int, self.stats()[idx as int]));
        assert(self.matched_words() =~= old(self).matched_words().update(
            idx as int,
            self.matched_words()[idx as int],
        ));
    }

    /// Adds, in translation `idx`, a measured distance between matched words.
    pub fn add_proximity(&mut self, idx: usize, prox: i32)
        requires
            old(self).wf(),
            idx < TRANSLATION_COUNT,
            i32::MIN <= old(self).rankings@[idx as int].ranking.proximity + prox <= i32::MAX,
        ensures
            final(self).wf(),
            final(self).key == old(self).key,
            final(self).popularity == old(self).popularity,
            final(self).highlights == old(self).highlights,
            final(self).matched_words() == old(self).matched_words(),
            final(self).stats() == old(self).stats().update(
                idx as int,
                (Ranking {
                    proximity: (old(self).stats()[idx as int].proximity + prox) as i32,
                    ..old(self).stats()[idx as int]
                }),
            ),
    {
        self.rankings[idx].add_proximity(prox);
        assert(self.stats() =~= old(self).stats().update(idx as int, self.stats()[idx as int]));
        assert(self.matched_words() =~= old(self).matched_words());
    }

    /// Counts, in translation `idx`, one more token that is a word of the query.
    pub fn inc_exact(&mut self, idx: usize)
        requires
            old(self).wf(),
            idx < TRANSLATION_COUNT,
            old(self).rankings@[idx as int].ranking.exact < u32::MAX,
        ensures
            final(self).wf(),
            final(self).key == old(self).key,
            final(self).popularity == old(self).popularity,
            final(self).highlights == old(self).highlights,
            final(self).matched_words() == old(self).matched_words(),
            final(self).stats() == old(self).stats().update(
                idx as int,
                (Ranking {
                    exact: (old(self).stats()[idx as int].exact + 1) as u32,
                    ..old(self).stats()[idx as int]
                }),
            ),
    {
        self.rankings[idx].inc_exact();
        assert(self.stats() =~= old(self).stats().update(idx as int, self.stats()[idx as int]));
        assert(self.matched_words() =~= old(self).matched_words());
    }

    /// Takes the spans in `hi` into the set of highlights.
    pub fn extend_highlights(&mut self, hi: &[(u64, u64)])
        requires
            old(self).wf(),
        ensures
            final(self).wf(),
            final(self).key == old(self).key,
            final(self).popularity == old(self).popularity,
            final(self).rankings == old(self).rankings,
            final(self).highlights@.to_set() == old(self).highlights@.to_set().union(hi@.to_set()),
    {
        insert_spans(&mut self.highlights, hi);
    }

    /// The statistics in each translation, in the order of the translations.
    pub fn to_service_rankings(&self) -> (v: Vec<Ranking>)
        ensures
            v@ == self.stats(),
    {
        let mut v: Vec<Ranking> = Vec::with_capacity(self.rankings.len());
        let mut i: usize = 0;
        while i < self.rankings.len()
            invariant
                i <= self.rankings.len(),
                v@.len() == i,
                forall|j: int| 0 <= j < i ==> v@[j] == self.rankings@[j].ranking,
            decreases self.rankings.len() - i,
        {
            v.push(self.rankings[i].to_service_ranking());
            i = i + 1;
        }
        assert(v@ =~= self.stats());
        v
    }

    /// The place of the translation in which the verse ranks best.
    pub fn top_translation(&self) -> (t: i32)
        requires
            self.wf(),
        ensures
            self.is_top(t as int),
            t == self.top(),
    {
        let mut best: usize = 0;
        let mut i: usize = 1;
        while i < self.rankings.len()
            invariant
                self.wf(),
                1 <= i <= self.rankings.len(),
                best < i,
                forall|j: int|
                    0 <= j < i && j != best ==> self.rankings@[best as int].precedes(
                        #[trigger] &self.rankings@[j],
                    ),
            decreases self.rankings.len() - i,
        {
            let o = self.rankings[i].compare(&self.rankings[best]);
            if o == Placing::Above {
                proof {
                    assert forall|j: int| 0 <= j < i + 1 && j != i implies self.rankings@[i as int].precedes(
                        #[trigger] &self.rankings@[j],
                    ) by {
                        if j != best {
                            lemma_precedes_transitive(
                                &self.rankings@[i as int],
                                &self.rankings@[best as int],
                                &self.rankings@[j],
                            );
                        }
                    }
                }
                best = i;
            } else {
                assert(self.rankings@[best as int].idx != self.rankings@[i as int].idx);
            }
            i = i + 1;
        }
        proof {
            assert(self.is_top(best as int));
            lemma_top_unique(self, best as int, self.top());
        }
        best as i32
    }

    /// Compares two candidates. `Above` means that `self` is listed before `other`.
    pub fn compare(&self, other: &VerseMatch) -> (o: Placing)
        requires
            self.wf(),
            other.wf(),
        ensures
            o == Placing::Above <==> self.listed_before(other),
            o == Placing::Below <==> other.listed_before(self),
            o == Placing::Level ==> self.key == other.key,
    {
        let a = self.top_translation() as usize;
        let b = other.top_translation() as usize;
        match self.rankings[a].ranking.compare(&other.rankings[b].ranking) {
            Placing::Above => Placing::Above,
            Placing::Below => Placing::Below,
            Placing::Level => {
                if self.popularity != other.popularity {
                    if self.popularity > other.popularity {
                        Placing::Above
                    } else {
                        Placing::Below
                    }
                } else if self.key.book != other.key.book {
                    if self.key.book < other.key.book {
                        Placing::Above
                    } else {
                        Placing::Below
                    }
                } else if self.key.chapter != other.key.chapter {
                    if self.key.chapter < other.key.chapter {
                        Placing::Above
                    } else {
                        Placing::Below
                    }
                } else if self.key.verse != other.key.verse {
                    if self.key.verse < other.key.verse {
                        Placing::Above
                    } else {
                        Placing::Below
                    }
                } else {
                    Placing::Level
                }
            },
        }
    }
}

/// Between the rankings of one verse, ranking above is transitive.
pub proof fn lemma_precedes_transitive(
    a: &InternalServiceRanking,
    b: &InternalServiceRanking,
    c: &InternalServiceRanking,
)
    requires
        a.precedes(b),
        b.precedes(c),
    ensures
        a.precedes(c),
{
}

/// A verse ranks best in one translation only.
pub proof fn lemma_top_unique(m: &VerseMatch, i: int, j: int)
    requires
        m.is_top(i),
    ensures
        m.is_top(j) ==> i == j,
        m.top() == i,
{
    if m.is_top(j) && i != j {
        assert(m.rankings@[i].precedes(&m.rankings@[j]));
        assert(m.rankings@[j].precedes(&m.rankings@[i]));
    }
    let t = m.top();
    assert(m.is_top(t));
    if t != i {
        assert(m.rankings@[i].precedes(&m.rankings@[t]));
        assert(m.rankings@[t].precedes(&m.rankings@[i]));
    }
}

/// A well-formed candidate ranks best in one of the translations.
pub proof fn lemma_top_exists(m: &VerseMatch)
    requires
        m.wf(),
    ensures
        m.is_top(m.top()),
        0 <= m.top() < TRANSLATION_COUNT,
        m.representative() == m.stats()[m.top()],
{
    if m.rankings@[0].precedes(&m.rankings@[1]) {
        assert(m.is_top(0));
    } else {
        assert(m.rankings@[1].idx == 1);
        assert(m.rankings@[0].idx == 0);
        assert(m.rankings@[1].precedes(&m.rankings@[0]));
        assert(m.is_top(1));
    }
}

/// The order in which candidates are listed is a strict order, and it decides between any
/// two candidates for different verses.
pub proof fn lemma_listing_is_strict_order(a: &VerseMatch, b: &VerseMatch, c: &VerseMatch)
    ensures
        !a.listed_before(a),
        a.listed_before(b) ==> !b.listed_before(a),
        a.listed_before(b) && b.listed_before(c) ==> a.listed_before(c),
        a.key != b.key ==> a.listed_before(b) || b.listed_before(a),
{
}

/// Of two candidates that match as many words of the query, the one with more exact matches
/// is listed first.
pub proof fn lemma_exact_listed_first(a: &VerseMatch, b: &VerseMatch)
    requires
        a.representative().query_words == b.representative().query_words,
        a.representative().exact > b.representative().exact,
    ensures
        a.listed_before(b),
{
}

} // verus!
