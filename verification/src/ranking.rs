//! What is counted for one verse in one translation, and the order in which such counts
//! rank.

use vstd::prelude::*;

verus! {

/// How one of two things that are ranked stands to the other.
#[derive(Clone, Copy, Debug, PartialEq, Eq, Structural)]
pub enum Placing {
    Above,
    Level,
    Below,
}

/// The statistics of one verse in one translation for one query.
#[derive(Clone, Copy, Debug, PartialEq, Eq, Structural, Hash)]
pub struct Ranking {
    /// Index tokens found only by edit distance that occur in the verse.
    pub typos: u32,
    /// Distinct words of the query that the verse matches.
    pub query_words: u32,
    /// Distance between matched words; 0 where none was measured.
    pub proximity: i32,
    /// Index tokens equal to a word of the query that occur in the verse.
    pub exact: u32,
}

impl Ranking {
    /// The proximity as it is compared: an unmeasured one is the worst there is.
    pub open spec fn effective_proximity(self) -> int {
        if self.proximity == 0 {
            i32::MAX as int
        } else {
            self.proximity as int
        }
    }

    /// `self` ranks strictly above `other` on the statistics alone: more words of the query,
    /// then more exact matches, then the smaller proximity, then fewer typos.
    pub open spec fn outranks(self, other: Ranking) -> bool {
        self.query_words > other.query_words || (self.query_words == other.query_words && (
        self.exact > other.exact || (self.exact == other.exact && (self.effective_proximity()
            < other.effective_proximity() || (self.effective_proximity()
            == other.effective_proximity() && self.typos < other.typos)))))
    }

    /// Neither ranks above the other.
    pub open spec fn ties_with(self, other: Ranking) -> bool {
        &&& self.query_words == other.query_words
        &&& self.exact == other.exact
        &&& self.effective_proximity() == other.effective_proximity()
        &&& self.typos == other.typos
    }

    /// A ranking in which nothing has been counted.
    pub open spec fn zero_spec() -> Ranking {
        Ranking { typos: 0, query_words: 0, proximity: 0, exact: 0 }
    }

    /// A ranking in which nothing has been counted.
    pub fn zero() -> (r: Ranking)
        ensures
            r == Ranking::zero_spec(),
    {
        Ranking { typos: 0, query_words: 0, proximity: 0, exact: 0 }
    }

    /// Compares two rankings on the statistics alone. `Above` means that `self` ranks above
    /// `other`.
    pub fn compare(&self, other: &Ranking) -> (o: Placing)
        ensures
            o == Placing::Above <==> self.outranks(*other),
            o == Placing::Level <==> self.ties_with(*other),
            o == Placing::Below <==> other.outranks(*self),
    {
        if self.query_words != other.query_words {
            return if self.query_words > other.query_words {
                Placing::Above
            } else {
                Placing::Below
            };
        }
        if self.exact != other.exact {
            return if self.exact > other.exact {
                Placing::Above
            } else {
                Placing::Below
            };
        }
        let own = if self.proximity == 0 {
            i32::MAX
        } else {
            self.proximity
        };
        let others = if other.proximity == 0 {
            i32::MAX
        } else {
            other.proximity
        };
        if own != others {
            return if own < others {
                Placing::Above
            } else {
                Placing::Below
            };
        }
        if self.typos != other.typos {
            return if self.typos < other.typos {
                Placing::Above
            } else {
                Placing::Below
            };
        }
        Placing::Level
    }
}

/// Ranking above is irreflexive and transitive, and of two rankings that do not tie one
/// ranks above the other.
pub proof fn lemma_outranks_is_strict_order(a: Ranking, b: Ranking, c: Ranking)
    ensures
        !a.outranks(a),
        a.outranks(b) && b.outranks(c) ==> a.outranks(c),
        a.outranks(b) ==> !b.outranks(a),
        a.outranks(b) || b.outranks(a) || a.ties_with(b),
        a.ties_with(b) && b.outranks(c) ==> a.outranks(c),
        a.outranks(b) && b.ties_with(c) ==> a.outranks(c),
{
}

/// With as many words of the query matched, more exact matches rank above fewer, whatever
/// else was counted.
pub proof fn lemma_exact_outranks(a: Ranking, b: Ranking)
    requires
        a.query_words == b.query_words,
        a.exact > b.exact,
    ensures
        a.outranks(b),
{
}

/// The statistics of one verse in one translation, with the place of the translation and
/// the words of the query that were counted.
#[derive(Debug)]
pub struct InternalServiceRanking {
    pub ranking: Ranking,
    /// The place of the translation.
    pub idx: usize,
    /// The positions in the query of the words that were counted, once each.
    pub query_word_matches: Vec<usize>,
}

impl InternalServiceRanking {
    /// The place of the translation.
    pub open spec fn index(&self) -> usize {
        self.idx
    }

    /// The positions in the query of the words that were counted.
    pub open spec fn matched_words(&self) -> Set<usize> {
        self.query_word_matches@.to_set()
    }

    /// No word of the query is held twice, and `query_words` is their number.
    pub open spec fn wf(&self) -> bool {
        &&& self.query_word_matches@.no_duplicates()
        &&& self.ranking.query_words == self.query_word_matches@.len()
    }

    /// `self` ranks strictly above `other`: on the statistics, and between rankings that
    /// tie, the translation that comes first.
    pub open spec fn precedes(&self, other: &InternalServiceRanking) -> bool {
        self.ranking.outranks(other.ranking) || (self.ranking.ties_with(other.ranking)
            && self.index() < other.index())
    }

    /// The ranking of a verse in the translation at place `idx`, with nothing counted.
    pub fn new(idx: usize) -> (r: InternalServiceRanking)
        ensures
            r.wf(),
            r.index() == idx,
            r.ranking == (Ranking { typos: 0, query_words: 0, proximity: 0, exact: 0 }),
            r.matched_words() == Set::<usize>::empty(),
    {
        let r = InternalServiceRanking {
            ranking: Ranking::zero(),
            idx,
            query_word_matches: Vec::new(),
        };
        assert(r.query_word_matches@.to_set() =~= Set::<usize>::empty());
        r
    }

    /// The place of the translation.
    pub fn idx(&self) -> (i: usize)
        ensures
            i == self.index(),
    {
        self.idx
    }

    /// Counts one more token that was found by edit distance.
    pub fn inc_typos(&mut self)
        requires
            old(self).ranking.typos < u32::MAX,
        ensures
            final(self).ranking == (Ranking {
                typos: (old(self).ranking.typos + 1) as u32,
                ..old(self).ranking
            }),
            final(self).index() == old(self).index(),
            final(self).matched_words() == old(self).matched_words(),
            old(self).wf() ==> final(self).wf(),
    {
        self.ranking.typos = self.ranking.typos + 1;
    }

    /// Counts the word at position `query_word` of the query, unless it was counted before.
    pub fn inc_query_words(&mut self, query_word: usize)
        requires
            old(self).wf(),
            old(self).ranking.query_words < u32::MAX,
        ensures
            final(self).wf(),
            final(self).matched_words() == old(self).matched_words().insert(query_word),
            final(self).ranking == (Ranking {
                query_words: if old(self).matched_words().contains(query_word) {
                    old(self).ranking.query_words
                } else {
                    (old(self).ranking.query_words + 1) as u32
                },
                ..old(self).ranking
            }),
            final(self).index() == old(self).index(),
    {
        let mut i: usize = 0;
        let mut found = false;
        while i < self.query_word_matches.len()
            invariant
                i <= self.query_word_matches.len(),
                *self == *old(self),
                found <==> exists|j: int| 0 <= j < i && self.query_word_matches@[j] == query_word,
            decreases self.query_word_matches.len() - i,
        {
            if self.query_word_matches[i] == query_word {
                found = true;
            }
            i = i + 1;
        }
        if !found {
            self.query_word_matches.push(query_word);
            self.ranking.query_words = self.ranking.query_words + 1;
            assert(self.query_word_matches@.to_set() =~= old(self).query_word_matches@.to_set().insert(
                query_word,
            )) by {
                assert forall|x: usize|
                    self.query_word_matches@.to_set().contains(x) implies old(
                    self,
                ).query_word_matches@.to_set().insert(query_word).contains(x) by {
                    let j = choose|j: int|
                        0 <= j < self.query_word_matches@.len() && self.query_word_matches@[j] == x;
                    if j < old(self).query_word_matches@.len() {
                        assert(old(self).query_word_matches@[j] == x);
                    }
                }
                assert forall|x: usize|
                    old(self).query_word_matches@.to_set().insert(query_word).contains(
                        x,
                    ) implies self.query_word_matches@.to_set().contains(x) by {
                    if x == query_word {
                        assert(self.query_word_matches@[old(self).query_word_matches@.len() as int]
                            == x);
                    } else {
                        let j = choose|j: int|
                            0 <= j < old(self).query_word_matches@.len() && old(
                                self,
                            ).query_word_matches@[j] == x;
                        assert(self.query_word_matches@[j] == x);
                    }
                }
            }
        } else {
            assert(self.query_word_matches@.to_set().contains(query_word));
            assert(self.query_word_matches@.to_set() =~= old(self).query_word_matches@.to_set().insert(
                query_word,
            ));
        }
    }

    /// Adds a measured distance between matched words.
    pub fn add_proximity(&mut self, prox: i32)
        requires
            i32::MIN <= old(self).ranking.proximity + prox <= i32::MAX,
        ensures
            final(self).ranking == (Ranking {
                proximity: (old(self).ranking.proximity + prox) as i32,
                ..old(self).ranking
            }),
            final(self).index() == old(self).index(),
            final(self).matched_words() == old(self).matched_words(),
            old(self).wf() ==> final(self).wf(),
    {
        self.ranking.proximity = self.ranking.proximity + prox;
    }

    /// Counts one more token that is a word of the query.
    pub fn inc_exact(&mut self)
        requires
            old(self).ranking.exact < u32::MAX,
        ensures
            final(self).ranking == (Ranking {
                exact: (old(self).ranking.exact + 1) as u32,
                ..old(self).ranking
            }),
            final(self).index() == old(self).index(),
            final(self).matched_words() == old(self).matched_words(),
            old(self).wf() ==> final(self).wf(),
    {
        self.ranking.exact = self.ranking.exact + 1;
    }

    /// The statistics, without what is kept beside them.
    pub fn to_service_ranking(&self) -> (r: Ranking)
        ensures
            r == self.ranking,
    {
        self.ranking
    }

    /// Compares two rankings of one verse. `Above` means that `self` ranks above `other`.
    pub fn compare(&self, other: &InternalServiceRanking) -> (o: Placing)
        ensures
            o == Placing::Above <==> self.precedes(other),
            o == Placing::Below <==> other.precedes(self),
            o == Placing::Level <==> (self.ranking.ties_with(other.ranking) && self.index()
                == other.index()),
    {
        match self.ranking.compare(&other.ranking) {
            Placing::Above => Placing::Above,
            Placing::Below => Placing::Below,
            Placing::Level => {
                if self.idx < other.idx {
                    Placing::Above
                } else if self.idx > other.idx {
                    Placing::Below
                } else {
                    Placing::Level
                }
            },
        }
    }
}

} // verus!
