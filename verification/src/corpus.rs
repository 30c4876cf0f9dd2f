//! The corpus while it is read: for every token and every verse in which it occurs, how
//! often it occurs in each translation and at which places; the text of every verse in every
//! translation; and how often each verse is cited.

use crate::error::BuildError;
use crate::idset::{increasing, insert_range, range_set};
use crate::table::{ensure, entry_keys, lemma_gap, lemma_place_in, place_in, Table};
use crate::tokenizer::{locate, located_of, located_view, Located};
use crate::translation::{place_number, Translation, SPAN_LIMIT, TEXT_LIMIT, TRANSLATION_COUNT};
use crate::verse_key::{text_key, translation_verses_bytes_key, VerseKey};
use vstd::prelude::*;
use vstd::utf8::encode_utf8;

verus! {

/// A verse as a translation file gives it.
#[derive(Clone, Debug, PartialEq, Eq)]
pub struct VerseText {
    pub key: Option<VerseKey>,
    pub text: String,
}

/// The verses of one translation as a translation file gives them.
#[derive(Clone, Debug, PartialEq, Eq)]
pub struct TranslationData {
    /// The number of the translation.
    pub translation: i32,
    pub verses: Vec<VerseText>,
}

/// What is kept for one token in one verse.
#[derive(Debug)]
pub struct VerseStats {
    /// How often the token occurs in the verse, in each translation.
    pub counts: Vec<u64>,
    /// The places at which the token stands in the texts of the verse: the number of the
    /// place of every character of every word that gave the token, in increasing order.
    pub highlights: Vec<u64>,
}

/// What is kept for one token in one verse, as plain values.
pub struct StatsModel {
    pub counts: Seq<u64>,
    pub places: Set<u64>,
}

/// The corpus while it is read.
#[derive(Debug)]
pub struct Corpus {
    /// The text of each verse in each translation, under the number of the translation and
    /// the bytes of the verse's key.
    pub translation_verses: Table<String>,
    /// How often each verse is cited, under the bytes of its key.
    pub verse_counts: Table<u64>,
    /// For each token, under its bytes, what is kept for each verse in which it occurs,
    /// under the bytes of the verse's key.
    pub wip_token_counts: Table<Table<VerseStats>>,
}

/// The corpus as plain values: each table as the list of its entries in key order.
pub struct CorpusModel {
    pub texts: Seq<(Seq<u8>, Seq<char>)>,
    pub citations: Seq<(Seq<u8>, u64)>,
    pub tokens: Seq<(Seq<u8>, Seq<(Seq<u8>, StatsModel)>)>,
}

/// The entries of a table of strings.
pub open spec fn strings_model(t: Table<String>) -> Seq<(Seq<u8>, Seq<char>)> {
    Seq::new(t.keys@.len(), |i: int| (t.keys@[i]@, t.values@[i]@))
}

/// The entries of a table of numbers.
pub open spec fn numbers_model(t: Table<u64>) -> Seq<(Seq<u8>, u64)> {
    Seq::new(t.keys@.len(), |i: int| (t.keys@[i]@, t.values@[i]))
}

/// What is kept for one token in one verse.
pub open spec fn stats_model(s: VerseStats) -> StatsModel {
    StatsModel { counts: s.counts@, places: s.highlights@.to_set() }
}

/// The entries of the table of one token.
pub open spec fn postings_model(t: Table<VerseStats>) -> Seq<(Seq<u8>, StatsModel)> {
    Seq::new(t.keys@.len(), |i: int| (t.keys@[i]@, stats_model(t.values@[i])))
}

/// The entries of the table of all tokens.
pub open spec fn tokens_model(t: Table<Table<VerseStats>>) -> Seq<
    (Seq<u8>, Seq<(Seq<u8>, StatsModel)>),
> {
    Seq::new(t.keys@.len(), |i: int| (t.keys@[i]@, postings_model(t.values@[i])))
}

/// There is a count for each translation, and the places are a set of numbers of places.
pub open spec fn stats_wf(s: VerseStats) -> bool {
    &&& s.counts@.len() == TRANSLATION_COUNT
    &&& increasing(s.highlights@)
    &&& forall|i: int| 0 <= i < s.highlights@.len() ==> #[trigger] s.highlights@[i] < SPAN_LIMIT
}

/// The table of one token is a table of well-formed entries under keys of three bytes.
pub open spec fn postings_wf(t: Table<VerseStats>) -> bool {
    &&& t.wf()
    &&& forall|j: int|
        0 <= j < t.values@.len() ==> stats_wf(#[trigger] t.values@[j]) && t.keys@[j]@.len() == 3
}

/// One of the translations has a count above 0.
pub open spec fn some_count(counts: Seq<u64>) -> bool {
    exists|t: int| 0 <= t < TRANSLATION_COUNT && #[trigger] counts[t] > 0
}

/// Every verse in the table of a token has the token in one of the translations.
pub open spec fn postings_counted(t: Table<VerseStats>) -> bool {
    forall|j: int| 0 <= j < t.values@.len() ==> some_count((#[trigger] t.values@[j]).counts@)
}

/// One more, as far as the number goes.
pub open spec fn bump64(x: u64) -> u64 {
    if x < u64::MAX {
        (x + 1) as u64
    } else {
        x
    }
}

/// Nothing counted yet.
pub open spec fn zero_stats() -> StatsModel {
    StatsModel { counts: Seq::new(TRANSLATION_COUNT as nat, |i: int| 0u64), places: Set::empty() }
}

/// What the table of one token becomes by one occurrence of the token in the verse with the
/// key `key` in translation `t`, in a word that stands from place `first` to place `last` of
/// the text: the verse has an entry; there the count of the translation goes up by one, and
/// the numbers of the places from `first` to `last` are taken in.
pub open spec fn count_occurrence(
    postings: Seq<(Seq<u8>, StatsModel)>,
    t: int,
    key: Seq<u8>,
    first: int,
    last: int,
) -> Seq<(Seq<u8>, StatsModel)> {
    let with_verse = ensure(postings, key, zero_stats());
    let ki = place_in(with_verse, key);
    let stats = with_verse[ki].1;
    with_verse.update(
        ki,
        (
            key,
            StatsModel {
                counts: stats.counts.update(t, bump64(stats.counts[t])),
                places: stats.places.union(
                    range_set(place_number(t, first), place_number(t, last)),
                ),
            },
        ),
    )
}

/// What the corpus becomes by one word of a verse in translation `t`: the token has an
/// entry, and there the occurrence is counted.
pub open spec fn note_token(
    m: CorpusModel,
    t: int,
    key: Seq<u8>,
    span: (int, int),
    token: Seq<char>,
) -> CorpusModel {
    let token_bytes = encode_utf8(token);
    let tokens = ensure(m.tokens, token_bytes, Seq::empty());
    let ti = place_in(tokens, token_bytes);
    CorpusModel {
        tokens: tokens.update(
            ti,
            (token_bytes, count_occurrence(tokens[ti].1, t, key, span.0, span.1)),
        ),
        ..m
    }
}

/// What the corpus becomes by the first `n` words of a verse.
pub open spec fn note_tokens(
    m: CorpusModel,
    t: int,
    key: Seq<u8>,
    words: Seq<((int, int), (Seq<char>, Seq<char>))>,
    n: int,
) -> CorpusModel
    decreases n,
{
    if n <= 0 {
        m
    } else {
        note_token(note_tokens(m, t, key, words, n - 1), t, key, words[n - 1].0, words[n - 1].1.1)
    }
}

/// What the corpus becomes by one verse of translation `t`: the first text that comes for a
/// verse in a translation is the text that is kept; a verse that is new has no citations
/// yet; and every word of the text is taken note of, with the places at which it stands.
pub open spec fn note_verse(m: CorpusModel, t: int, key: VerseKey, text: Seq<char>) -> CorpusModel {
    let with_text = CorpusModel {
        texts: ensure(m.texts, text_key(t as u8, key), text),
        citations: ensure(m.citations, key.bytes(), 0u64),
        ..m
    };
    note_tokens(with_text, t, key.bytes(), located_of(text), located_of(text).len() as int)
}

/// What the corpus becomes by the first `n` verses of a translation.
pub open spec fn note_verses(m: CorpusModel, t: int, verses: Seq<VerseText>, n: int) -> CorpusModel
    decreases n,
{
    if n <= 0 {
        m
    } else {
        note_verse(note_verses(m, t, verses, n - 1), t, verses[n - 1].key->0, verses[n - 1].text@)
    }
}

/// What is wrong with a verse, if anything.
pub open spec fn fault_of(verse: VerseText) -> Option<BuildError> {
    match verse.key {
        None => Some(BuildError::MissingKey),
        Some(key) => if !key.is_valid() {
            Some(BuildError::KeyOutOfRange)
        } else if verse.text@.len() >= TEXT_LIMIT {
            Some(BuildError::TextTooLong)
        } else {
            None
        },
    }
}

/// What is wrong with the first of the first `n` verses with which something is wrong.
pub open spec fn first_fault(verses: Seq<VerseText>, n: int) -> Option<BuildError>
    decreases n,
{
    if n <= 0 {
        None
    } else {
        match first_fault(verses, n - 1) {
            Some(e) => Some(e),
            None => fault_of(verses[n - 1]),
        }
    }
}

impl Table<VerseStats> {
    /// Counts one occurrence of the token in the verse with the key `key` in translation
    /// `t`, in a word that stands from place `first` to place `last` of the text.
    pub fn count(&mut self, t: usize, key: &[u8], first: u64, last: u64)
        requires
            postings_wf(*old(self)),
            t < TRANSLATION_COUNT,
            key@.len() == 3,
            first <= last < TEXT_LIMIT,
        ensures
            postings_wf(*final(self)),
            postings_model(*final(self)) == count_occurrence(
                postings_model(*old(self)),
                t as int,
                key@,
                first as int,
                last as int,
            ),
            postings_counted(*old(self)) ==> postings_counted(*final(self)),
    {
        let ghost rows_before = postings_model(*self);
        let ghost before = *self;
        assert(entry_keys(rows_before) =~= self.key_list());
        let mut counts: Vec<u64> = Vec::new();
        let mut z: usize = 0;
        while z < TRANSLATION_COUNT
            invariant
                z <= TRANSLATION_COUNT,
                counts@ == Seq::new(z as nat, |i: int| 0u64),
            decreases TRANSLATION_COUNT - z,
        {
            counts.push(0);
            assert(counts@ =~= Seq::new((z + 1) as nat, |i: int| 0u64));
            z = z + 1;
        }
        let fresh = VerseStats { counts, highlights: Vec::new() };
        assert(stats_model(fresh).places =~= Set::empty());
        assert(stats_model(fresh) == zero_stats());
        let ki = self.ensure_entry(key, fresh);
        let ghost mid = *self;
        let ghost rows_mid = postings_model(mid);
        proof {
            if before.holds(key@) {
                let i = before.place_of(key@);
                assert(rows_before[i].0 == key@);
                assert(rows_mid =~= rows_before);
            } else {
                lemma_gap(rows_before, key@, ki as int);
                assert(rows_mid =~= rows_before.insert(ki as int, (key@, zero_stats())));
                assert forall|j: int| 0 <= j < mid.values@.len() implies stats_wf(
                    #[trigger] mid.values@[j],
                ) && mid.keys@[j]@.len() == 3 by {
                    if j < ki {
                        assert(mid.values@[j] == before.values@[j]);
                        assert(mid.keys@[j] == before.keys@[j]);
                    } else if j > ki {
                        assert(mid.values@[j] == before.values@[j - 1]);
                        assert(mid.keys@[j] == before.keys@[j - 1]);
                    }
                }
            }
            assert(rows_mid == ensure(rows_before, key@, zero_stats()));
            assert(postings_wf(mid));
            assert(entry_keys(rows_mid) =~= mid.key_list());
            lemma_place_in(rows_mid, ki as int);
        }
        let ghost stats_before = mid.values@[ki as int];
        assert(stats_wf(stats_before));
        let count = self.values[ki].counts[t];
        if count < u64::MAX {
            self.values[ki].counts[t] = count + 1;
        }
        let base = t as u64 * TEXT_LIMIT;
        insert_range(&mut self.values[ki].highlights, base + first, base + last);
        proof {
            let stats_after = self.values@[ki as int];
            assert(base + first == place_number(t as int, first as int));
            assert(base + last == place_number(t as int, last as int));
            assert(stats_after.counts@ == stats_before.counts@.update(
                t as int,
                bump64(stats_before.counts@[t as int]),
            ));
            assert forall|i: int| 0 <= i < stats_after.highlights@.len() implies #[trigger] stats_after.highlights@[i]
                < SPAN_LIMIT by {
                let x = stats_after.highlights@[i];
                assert(stats_after.highlights@.to_set().contains(x));
                if stats_before.highlights@.to_set().contains(x) {
                    let j = choose|j: int|
                        0 <= j < stats_before.highlights@.len() && stats_before.highlights@[j]
                            == x;
                    assert(stats_before.highlights@[j] < SPAN_LIMIT);
                } else {
                    assert(range_set((base + first) as u64, (base + last) as u64).contains(x));
                }
            }
            let counted = StatsModel {
                counts: stats_before.counts@.update(
                    t as int,
                    bump64(stats_before.counts@[t as int]),
                ),
                places: stats_before.highlights@.to_set().union(
                    range_set(
                        place_number(t as int, first as int),
                        place_number(t as int, last as int),
                    ),
                ),
            };
            assert(stats_model(stats_after) == counted);
            assert(postings_model(*self) =~= rows_mid.update(ki as int, (key@, counted)));
            assert(self.keys@ == mid.keys@);
            assert(self.values@.len() == mid.values@.len());
            assert(stats_wf(stats_after));
            assert(mid.wf());
            assert(self.key_list() =~= mid.key_list());
            assert(self.wf());
            assert forall|j: int| 0 <= j < self.values@.len() implies stats_wf(
                #[trigger] self.values@[j],
            ) && self.keys@[j]@.len() == 3 by {
                if j != ki {
                    assert(self.values@[j] == mid.values@[j]);
                    assert(stats_wf(mid.values@[j]));
                } else {
                    assert(self.values@[j] == stats_after);
                }
                assert(self.keys@[j] == mid.keys@[j]);
                assert(mid.keys@[j]@.len() == 3);
            }
            if postings_counted(before) {
                assert forall|j: int| 0 <= j < self.values@.len() implies some_count(
                    (#[trigger] self.values@[j]).counts@,
                ) by {
                    if j == ki {
                        assert(stats_after.counts@[t as int] > 0);
                    } else {
                        assert(self.values@[j] == mid.values@[j]);
                        if before.holds(key@) {
                            assert(mid.values@[j] == before.values@[j]);
                        } else if j < ki {
                            assert(mid.values@[j] == before.values@[j]);
                        } else {
                            assert(mid.values@[j] == before.values@[j - 1]);
                        }
                    }
                }
            }
        }
    }
}

impl Corpus {
    /// The corpus as plain values.
    pub open spec fn model(&self) -> CorpusModel {
        CorpusModel {
            texts: strings_model(self.translation_verses),
            citations: numbers_model(self.verse_counts),
            tokens: tokens_model(self.wip_token_counts),
        }
    }

    /// Every table is in key order, the table of every token is well formed and holds only
    /// verses in which the token was counted, a text stands under four bytes and a citation
    /// count under three.
    pub open spec fn wf(&self) -> bool {
        &&& self.translation_verses.wf()
        &&& self.verse_counts.wf()
        &&& self.wip_token_counts.wf()
        &&& forall|i: int|
            0 <= i < self.wip_token_counts.values@.len() ==> postings_wf(
                #[trigger] self.wip_token_counts.values@[i],
            ) && postings_counted(self.wip_token_counts.values@[i])
        &&& forall|i: int|
            0 <= i < self.verse_counts.keys@.len() ==> (#[trigger] self.verse_counts.keys@[i])@.len()
                == 3
        &&& forall|i: int|
            0 <= i < self.translation_verses.keys@.len() ==> (
            #[trigger] self.translation_verses.keys@[i])@.len() == 4
    }

    /// A corpus of which nothing has been read.
    pub fn new() -> (c: Corpus)
        ensures
            c.wf(),
            c.model() == (CorpusModel {
                texts: Seq::empty(),
                citations: Seq::empty(),
                tokens: Seq::empty(),
            }),
    {
        let c = Corpus {
            translation_verses: Table::new(),
            verse_counts: Table::new(),
            wip_token_counts: Table::new(),
        };
        assert(c.model().texts =~= Seq::empty());
        assert(c.model().citations =~= Seq::empty());
        assert(c.model().tokens =~= Seq::empty());
        c
    }

    /// Takes note of one word of a verse in translation `t`.
    pub fn note_token(&mut self, t: usize, key_bytes: &[u8], word: &Located)
        requires
            old(self).wf(),
            t < TRANSLATION_COUNT,
            key_bytes@.len() == 3,
            word.first <= word.last < TEXT_LIMIT,
        ensures
            final(self).wf(),
            final(self).model() == note_token(
                old(self).model(),
                t as int,
                key_bytes@,
                (word.first as int, word.last as int),
                word.word.token@,
            ),
    {
        let ghost tb = encode_utf8(word.word.token@);
        let ghost m0 = self.model();
        proof {
            assert(entry_keys(m0.tokens) =~= self.wip_token_counts.key_list());
        }
        let ghost tokens_before = self.wip_token_counts;
        let ti = self.wip_token_counts.ensure_entry(
            word.word.token.as_str().as_bytes(),
            Table::new(),
        );
        let ghost tokens1 = tokens_model(self.wip_token_counts);
        proof {
            if tokens_before.holds(tb) {
                let i = tokens_before.place_of(tb);
                assert(m0.tokens[i].0 == tb);
                assert(tokens1 =~= m0.tokens);
            } else {
                lemma_gap(m0.tokens, tb, ti as int);
                let fresh = self.wip_token_counts.values@[ti as int];
                assert(postings_model(fresh) =~= Seq::empty());
                assert(tokens1 =~= m0.tokens.insert(ti as int, (tb, Seq::empty())));
                assert forall|i: int|
                    0 <= i < self.wip_token_counts.values@.len() implies postings_wf(
                    #[trigger] self.wip_token_counts.values@[i],
                ) && postings_counted(self.wip_token_counts.values@[i]) by {
                    if i < ti {
                        assert(self.wip_token_counts.values@[i] == tokens_before.values@[i]);
                    } else if i > ti {
                        assert(self.wip_token_counts.values@[i] == tokens_before.values@[i - 1]);
                    }
                }
            }
            assert(tokens1 == ensure(m0.tokens, tb, Seq::empty()));
            assert(entry_keys(tokens1) =~= self.wip_token_counts.key_list());
            lemma_place_in(tokens1, ti as int);
            assert(place_in(tokens1, tb) == ti);
        }
        let ghost tokens_mid = self.wip_token_counts;
        assert(postings_wf(self.wip_token_counts.values@[ti as int]));
        assert(postings_counted(self.wip_token_counts.values@[ti as int]));
        self.wip_token_counts.values[ti].count(t, key_bytes, word.first as u64, word.last as u64);
        proof {
            let after = self.wip_token_counts;
            assert(after.keys@ == tokens_mid.keys@);
            assert(after.values@ =~= tokens_mid.values@.update(
                ti as int,
                after.values@[ti as int],
            ));
            assert(tokens_model(after) =~= tokens1.update(
                ti as int,
                (tb, postings_model(after.values@[ti as int])),
            ));
            assert forall|i: int| 0 <= i < after.values@.len() implies postings_wf(
                #[trigger] after.values@[i],
            ) && postings_counted(after.values@[i]) by {
                if i != ti {
                    assert(after.values@[i] == tokens_mid.values@[i]);
                }
            }
        }
    }

    /// Takes note of one verse of a translation: keeps its text unless the translation has
    /// a text for the verse already, makes sure that the verse has a citation count, and
    /// takes note of every word of the text and of its place.
    pub fn note_verse(&mut self, translation: Translation, key: &VerseKey, text: &str)
        requires
            old(self).wf(),
            key.is_valid(),
            text@.len() < TEXT_LIMIT,
        ensures
            final(self).wf(),
            final(self).model() == note_verse(
                old(self).model(),
                translation.spec_ordinal(),
                *key,
                text@,
            ),
    {
        let t = translation.ordinal();
        let text_key_bytes = translation_verses_bytes_key(t as u8, key);
        let key_bytes = key.to_be_bytes();
        let ghost m0 = self.model();
        proof {
            assert(entry_keys(m0.texts) =~= self.translation_verses.key_list());
            assert(entry_keys(m0.citations) =~= self.verse_counts.key_list());
        }
        let ghost texts_before = self.translation_verses;
        match self.translation_verses.find(text_key_bytes.as_slice()) {
            Ok(i) => {
                proof {
                    assert(m0.texts[i as int].0 == text_key_bytes@);
                }
            },
            Err(at) => {
                self.translation_verses.insert_at(at, text_key_bytes, text.to_owned());
                proof {
                    lemma_gap(m0.texts, text_key(t as u8, *key), at as int);
                    assert(strings_model(self.translation_verses) =~= m0.texts.insert(
                        at as int,
                        (text_key(t as u8, *key), text@),
                    ));
                    assert forall|i: int|
                        0 <= i < self.translation_verses.keys@.len() implies (
                    #[trigger] self.translation_verses.keys@[i])@.len() == 4 by {
                        if i < at {
                            assert(self.translation_verses.keys@[i] == texts_before.keys@[i]);
                        } else if i > at {
                            assert(self.translation_verses.keys@[i] == texts_before.keys@[i - 1]);
                        }
                    }
                }
            },
        }
        assert(strings_model(self.translation_verses) == ensure(
            m0.texts,
            text_key(t as u8, *key),
            text@,
        ));
        let ghost counts_before = self.verse_counts;
        let ci = self.verse_counts.ensure_entry(key_bytes.as_slice(), 0);
        proof {
            if counts_before.holds(key.bytes()) {
                let i = counts_before.place_of(key.bytes());
                assert(m0.citations[i].0 == key.bytes());
                assert(numbers_model(self.verse_counts) =~= m0.citations);
            } else {
                lemma_gap(m0.citations, key.bytes(), ci as int);
                assert(numbers_model(self.verse_counts) =~= m0.citations.insert(
                    ci as int,
                    (key.bytes(), 0u64),
                ));
                assert forall|i: int|
                    0 <= i < self.verse_counts.keys@.len() implies (
                #[trigger] self.verse_counts.keys@[i])@.len() == 3 by {
                    if i < ci {
                        assert(self.verse_counts.keys@[i] == counts_before.keys@[i]);
                    } else if i > ci {
                        assert(self.verse_counts.keys@[i] == counts_before.keys@[i - 1]);
                    }
                }
            }
            assert(numbers_model(self.verse_counts) == ensure(m0.citations, key.bytes(), 0u64));
        }
        let ghost with_text = self.model();
        let words = locate(text);
        let mut n: usize = 0;
        while n < words.len()
            invariant
                n <= words.len(),
                self.wf(),
                t < TRANSLATION_COUNT,
                key_bytes@ == key.bytes(),
                key_bytes@.len() == 3,
                text@.len() < TEXT_LIMIT,
                located_view(words@) == located_of(text@),
                forall|i: int|
                    0 <= i < words@.len() ==> (#[trigger] words@[i]).first <= words@[i].last
                        && words@[i].last < text@.len(),
                self.model() == note_tokens(
                    with_text,
                    t as int,
                    key.bytes(),
                    located_of(text@),
                    n as int,
                ),
            decreases words.len() - n,
        {
            assert(located_view(words@)[n as int] == (
                (words@[n as int].first as int, words@[n as int].last as int),
                (words@[n as int].word.source@, words@[n as int].word.token@),
            ));
            self.note_token(t, key_bytes.as_slice(), &words[n]);
            n = n + 1;
        }
    }

    /// Takes the verses of one translation into the corpus. Nothing is taken where a verse
    /// has no key, a key with a field that does not fit in a byte, or a text too long for
    /// its places to be numbered: the first such verse says which of these is reported.
    pub fn process_verses(&mut self, translation_key: Translation, verses: &Vec<VerseText>) -> (r:
        Result<(), BuildError>)
        requires
            old(self).wf(),
        ensures
            final(self).wf(),
            match r {
                Ok(_) => first_fault(verses@, verses@.len() as int) is None && final(self).model()
                    == note_verses(
                    old(self).model(),
                    translation_key.spec_ordinal(),
                    verses@,
                    verses@.len() as int,
                ),
                Err(e) => first_fault(verses@, verses@.len() as int) == Some(e) && *final(self)
                    == *old(self),
            },
    {
        let mut i: usize = 0;
        while i < verses.len()
            invariant
                i <= verses.len(),
                *self == *old(self),
                self.wf(),
                first_fault(verses@, i as int) is None,
                forall|j: int|
                    0 <= j < i ==> (#[trigger] verses@[j]).key is Some
                        && verses@[j].key->0.is_valid() && verses@[j].text@.len() < TEXT_LIMIT,
            decreases verses.len() - i,
        {
            match &verses[i].key {
                None => {
                    proof {
                        lemma_fault_stays(verses@, i + 1, verses@.len() as int);
                    }
                    return Err(BuildError::MissingKey);
                },
                Some(key) => {
                    if !key.fits() {
                        proof {
                            lemma_fault_stays(verses@, i + 1, verses@.len() as int);
                        }
                        return Err(BuildError::KeyOutOfRange);
                    }
                    if verses[i].text.as_str().unicode_len() as u64 >= TEXT_LIMIT {
                        proof {
                            lemma_fault_stays(verses@, i + 1, verses@.len() as int);
                        }
                        return Err(BuildError::TextTooLong);
                    }
                },
            }
            i = i + 1;
        }
        let mut n: usize = 0;
        while n < verses.len()
            invariant
                n <= verses.len(),
                self.wf(),
                forall|j: int|
                    0 <= j < verses@.len() ==> (#[trigger] verses@[j]).key is Some
                        && verses@[j].key->0.is_valid() && verses@[j].text@.len() < TEXT_LIMIT,
                self.model() == note_verses(
                    old(self).model(),
                    translation_key.spec_ordinal(),
                    verses@,
                    n as int,
                ),
            decreases verses.len() - n,
        {
            match &verses[n].key {
                Some(key) => {
                    self.note_verse(translation_key, key, verses[n].text.as_str());
                },
                None => {},
            }
            n = n + 1;
        }
        Ok(())
    }
}

/// Once something is wrong with one of the first verses, it stays what is reported.
pub proof fn lemma_fault_stays(verses: Seq<VerseText>, n: int, m: int)
    requires
        first_fault(verses, n) is Some,
        n <= m,
    ensures
        first_fault(verses, m) == first_fault(verses, n),
    decreases m - n,
{
    if n < m {
        lemma_fault_stays(verses, n, m - 1);
    }
}

} // verus!
