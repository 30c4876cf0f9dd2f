//! A query from text to results: tokenize, expand, choose the candidates, score, rank and
//! put the results together.

use crate::expand::{discovered, distinct_ids, lemma_discovered_words, tokens_in, Discovered};
use crate::index::VersearchIndex;
use crate::postings::every_row_counts;
use crate::lex::{is_listing, lemma_lex_trichotomy, sorted_keys, strictly_sorted};
use crate::rank::{
    candidates_wf, is_ranking, lemma_ranking_lists_all, lemma_ranking_unique, rank,
};
use crate::ranking::Ranking;
use crate::score::{cited, lemma_tally_words, lemma_token_is_counted, tallied, tally};
use crate::select::{is_seed, seed, select_seed, MAX_RESULTS};
use crate::text::chars_of;
use crate::tokenizer::{
    lemma_located_stand_in_text, located_of, source_of, tokenize, tokenize_word, tokenized_view,
    tokens_of,
};
use crate::reading::map_get;
use crate::translation::{place_number, TEXT_LIMIT, TRANSLATION_COUNT};
use crate::verse_key::{lemma_bytes_round_trip, text_key, translation_verses_bytes_key, VerseKey};
use crate::verse_match::{
    lemma_exact_listed_first, lemma_listing_is_strict_order, lemma_top_exists, VerseMatch,
};
use vstd::prelude::*;

verus! {

/// One verse of an answer.
#[derive(Clone, Debug, PartialEq, Eq)]
pub struct VerseResult {
    pub key: VerseKey,
    /// The place of the translation in which the verse ranks best.
    pub top_translation: i32,
    /// The text of the verse in each translation; empty where the index has none.
    pub text: Vec<String>,
    /// The words to highlight: for each span, the source form of what stands there in the
    /// text.
    pub highlights: Vec<String>,
    /// The statistics in each translation.
    pub rankings: Vec<Ranking>,
    /// The number of times the verse is cited.
    pub popularity: u64,
}

/// The answer to a query: the best verses, the best first.
#[derive(Clone, Debug, PartialEq, Eq)]
pub struct Response {
    pub results: Vec<VerseResult>,
}

/// What a result says.
pub struct Answer {
    pub key: VerseKey,
    pub top_translation: int,
    pub text: Seq<Seq<char>>,
    pub highlights: Seq<Seq<char>>,
    pub rankings: Seq<Ranking>,
    pub popularity: u64,
}

impl VerseResult {
    /// What the result says.
    pub open spec fn answer(&self) -> Answer {
        Answer {
            key: self.key,
            top_translation: self.top_translation as int,
            text: Seq::new(self.text@.len(), |i: int| self.text@[i]@),
            highlights: Seq::new(self.highlights@.len(), |i: int| self.highlights@[i]@),
            rankings: self.rankings@,
            popularity: self.popularity,
        }
    }
}

/// What each result says.
pub open spec fn answers(results: Seq<VerseResult>) -> Seq<Answer> {
    Seq::new(results.len(), |i: int| results[i].answer())
}

/// The list of the best candidates, `limit` of them at most, the best first.
pub open spec fn ranking_of(matches: Seq<VerseMatch>, limit: int) -> Seq<usize> {
    choose|order: Seq<usize>| is_ranking(order, matches, matches.len() as int, limit)
}

/// The source form of what a span marks in the texts of a verse. The span names a
/// translation and, in that translation's text, a first place and a last one; what lies
/// between them, both included, is what it marks. A span that reaches over the end of that
/// text marks nothing.
pub open spec fn span_text(texts: Seq<Seq<char>>, span: (u64, u64)) -> Seq<char> {
    let t = span.0 as int / TEXT_LIMIT as int;
    let first = span.0 as int % TEXT_LIMIT as int;
    let last = span.1 - t * TEXT_LIMIT;
    if t < texts.len() && first <= last < texts[t].len() {
        source_of(texts[t].subrange(first, last + 1))
    } else {
        Seq::empty()
    }
}

/// The words of a query.
pub open spec fn query_of(text: Seq<char>) -> Seq<Seq<char>> {
    Seq::new(tokens_of(text).len(), |i: int| tokens_of(text)[i].1)
}

/// Gives the source form of what a span marks in the texts of a verse.
pub fn span_string(texts: &Vec<Vec<char>>, first: u64, last: u64) -> (r: String)
    ensures
        r@ == span_text(Seq::new(texts@.len(), |j: int| texts@[j]@), (first, last)),
{
    let ghost all = Seq::new(texts@.len(), |j: int| texts@[j]@);
    let t = first / TEXT_LIMIT;
    let count = texts.len();
    if t >= count as u64 || last < first {
        return String::new();
    }
    let text = &texts[t as usize];
    assert(all[t as int] == text@);
    let from = first % TEXT_LIMIT;
    let to = last - t * TEXT_LIMIT;
    let len = text.len();
    if to >= len as u64 {
        return String::new();
    }
    let mut word: Vec<char> = Vec::new();
    let mut i: usize = from as usize;
    let end = to as usize;
    assert(text@.subrange(from as int, from as int) =~= Seq::<char>::empty());
    while i <= end
        invariant
            from <= i <= end + 1,
            end < len,
            len == text@.len(),
            word@ == text@.subrange(from as int, i as int),
        decreases end + 1 - i,
    {
        word.push(text[i]);
        assert(text@.subrange(from as int, i as int).push(text@[i as int]) =~= text@.subrange(
            from as int,
            i + 1,
        ));
        i = i + 1;
    }
    let w = tokenize_word(&word);
    w.source
}

impl VersearchIndex {
    /// The text of a verse in one translation; empty where the index has none.
    pub open spec fn text_of(&self, translation: int, key: VerseKey) -> Seq<char> {
        let k = text_key(translation as u8, key);
        if self.verses().dom().contains(k) && self.verses()[k] < self.texts().len() {
            self.texts()[self.verses()[k] as int]
        } else {
            Seq::empty()
        }
    }

    /// The text of a verse in each translation.
    pub open spec fn texts_for(&self, key: VerseKey) -> Seq<Seq<char>> {
        Seq::new(TRANSLATION_COUNT as nat, |i: int| self.text_of(i, key))
    }

    /// What the result for a candidate says.
    pub open spec fn answer_for(&self, m: &VerseMatch) -> Answer {
        Answer {
            key: m.key,
            top_translation: m.top(),
            text: self.texts_for(m.key),
            highlights: Seq::new(
                m.highlights@.len(),
                |i: int| span_text(self.texts_for(m.key), m.highlights@[i]),
            ),
            rankings: m.stats(),
            popularity: m.popularity,
        }
    }

    /// The number of verses in the postings of each token that the query reached.
    pub open spec fn sizes_of(&self, found: Seq<Discovered>) -> Seq<usize> {
        Seq::new(found.len(), |i: int| self.reverse_index@[found[i].id as int].size() as usize)
    }

    /// The bytes of the keys of the candidate verses, in order: the verses in the postings
    /// of the seed.
    pub open spec fn candidate_keys(&self, found: Seq<Discovered>) -> Seq<Seq<u8>> {
        sorted_keys(
            self.postings()[found[seed(found, self.sizes_of(found))].id as int].dom(),
        )
    }

    /// `matches` holds the scored candidates for a query that reached `found`, tokens of the
    /// index all: one for each candidate verse, in the order of the keys, with the verse's
    /// popularity and with what the tokens say about the verse.
    pub open spec fn scored(&self, found: Seq<Discovered>, matches: Seq<VerseMatch>) -> bool {
        let keys = self.candidate_keys(found);
        &&& forall|i: int|
            0 <= i < found.len() ==> (#[trigger] found[i]).id < self.reverse_index@.len()
        &&& is_seed(found, self.sizes_of(found), seed(found, self.sizes_of(found)))
        &&& is_listing(
            keys,
            self.postings()[found[seed(found, self.sizes_of(found))].id as int].dom(),
        )
        &&& matches.len() == keys.len()
        &&& candidates_wf(matches)
        &&& forall|i: int|
            0 <= i < matches.len() ==> {
                &&& (#[trigger] matches[i]).key == VerseKey::of_bytes(keys[i])
                &&& matches[i].popularity == cited(self.popularity(), keys[i])
                &&& tallied(&matches[i], tally(self.postings(), found, found.len() as int, keys[i]))
            }
    }

    /// `results` answers the query `text`: nothing where the query has no word or reaches no
    /// token; else the results for the best candidates, the best first.
    pub open spec fn is_answer(&self, text: Seq<char>, results: Seq<Answer>) -> bool {
        let query = query_of(text);
        let found = discovered(self.tokens(), query, query.len() as int);
        if found.len() == 0 {
            results.len() == 0
        } else {
            exists|matches: Seq<VerseMatch>|
                #![trigger self.scored(found, matches)]
                {
                    &&& self.scored(found, matches)
                    &&& is_ranking(
                        ranking_of(matches, MAX_RESULTS as int),
                        matches,
                        matches.len() as int,
                        MAX_RESULTS as int,
                    )
                    &&& results == Seq::new(
                        ranking_of(matches, MAX_RESULTS as int).len(),
                        |a: int|
                            self.answer_for(
                                &matches[ranking_of(matches, MAX_RESULTS as int)[a] as int],
                            ),
                    )
                }
        }
    }

    /// Scores the candidate verses of a query: the verses in the postings of the seed.
    pub fn score_results(&self, found: &Vec<Discovered>) -> (matches: Vec<VerseMatch>)
        requires
            self.wf(),
            found@.len() > 0,
            distinct_ids(found@),
            forall|i: int| 0 <= i < found@.len() ==> (#[trigger] found@[i]).id
                < self.reverse_index@.len(),
        ensures
            self.scored(found@, matches@),
            is_seed(found@, self.sizes_of(found@), seed(found@, self.sizes_of(found@))),
            forall|i: int| 0 <= i < matches@.len() ==> (#[trigger] matches@[i]).key.is_valid(),
    {
        let mut sizes: Vec<usize> = Vec::with_capacity(found.len());
        let mut i: usize = 0;
        while i < found.len()
            invariant
                i <= found.len(),
                self.wf(),
                forall|j: int|
                    0 <= j < found@.len() ==> (#[trigger] found@[j]).id
                        < self.reverse_index@.len(),
                sizes@.len() == i,
                forall|j: int| 0 <= j < i ==> #[trigger] sizes@[j] == self.sizes_of(found@)[j],
            decreases found.len() - i,
        {
            let rows = self.reverse_index.len();
            let entry = &self.reverse_index[found[i].id as usize];
            assert(entry.wf());
            assert(self.postings()[found@[i as int].id as int] == entry.postings());
            sizes.push(entry.len());
            i = i + 1;
        }
        assert(sizes@ =~= self.sizes_of(found@));
        let c = select_seed(found, &sizes);
        let rows = self.reverse_index.len();
        let entry = &self.reverse_index[found[c].id as usize];
        assert(entry.wf());
        assert(self.postings()[found@[c as int].id as int] == entry.postings());
        let keys = entry.get_verse_keys();
        let ghost key_list = self.candidate_keys(found@);
        assert(keys.deep_view() == key_list);
        let mut matches: Vec<VerseMatch> = Vec::with_capacity(keys.len());
        let mut k: usize = 0;
        while k < keys.len()
            invariant
                k <= keys.len(),
                self.wf(),
                forall|j: int|
                    0 <= j < found@.len() ==> (#[trigger] found@[j]).id
                        < self.reverse_index@.len(),
                keys.deep_view() == key_list,
                forall|j: int| 0 <= j < keys@.len() ==> (#[trigger] keys@[j])@.len() == 3,
                matches@.len() == k,
                forall|j: int|
                    0 <= j < k ==> {
                        &&& (#[trigger] matches@[j]).wf()
                        &&& matches@[j].key == VerseKey::of_bytes(key_list[j])
                        &&& matches@[j].key.is_valid()
                        &&& matches@[j].popularity == cited(self.popularity(), key_list[j])
                        &&& tallied(
                            &matches@[j],
                            tally(self.postings(), found@, found@.len() as int, key_list[j]),
                        )
                    },
            decreases keys.len() - k,
        {
            assert(keys.deep_view()[k as int] == keys@[k as int]@);
            let m = self.score_verse(found, keys[k].as_slice());
            matches.push(m);
            k = k + 1;
        }
        proof {
            assert(strictly_sorted(key_list));
            assert forall|a: int, b: int|
                0 <= a < matches@.len() && 0 <= b < matches@.len() && a != b implies (
            #[trigger] matches@[a]).key != (#[trigger] matches@[b]).key by {
                assert(key_list[a] == keys@[a]@ && key_list[b] == keys@[b]@);
                lemma_bytes_round_trip(key_list[a]);
                lemma_bytes_round_trip(key_list[b]);
                if a < b {
                    lemma_lex_trichotomy(key_list[a], key_list[b]);
                } else {
                    lemma_lex_trichotomy(key_list[b], key_list[a]);
                }
            }
        }
        matches
    }

    /// Puts the result for a candidate together.
    pub fn assemble(&self, m: &VerseMatch) -> (r: VerseResult)
        requires
            self.wf(),
            m.wf(),
            m.key.is_valid(),
        ensures
            r.answer() == self.answer_for(m),
    {
        let mut text: Vec<String> = Vec::with_capacity(TRANSLATION_COUNT);
        let mut chars: Vec<Vec<char>> = Vec::with_capacity(TRANSLATION_COUNT);
        let mut i: usize = 0;
        while i < TRANSLATION_COUNT
            invariant
                i <= TRANSLATION_COUNT,
                self.wf(),
                m.key.is_valid(),
                text@.len() == i,
                chars@.len() == i,
                forall|j: int| 0 <= j < i ==> (#[trigger] text@[j])@ == self.text_of(j, m.key),
                forall|j: int| 0 <= j < i ==> (#[trigger] chars@[j])@ == self.text_of(j, m.key),
            decreases TRANSLATION_COUNT - i,
        {
            let key = translation_verses_bytes_key(i as u8, &m.key);
            let count = self.translation_verses_strings.len();
            let verse = match map_get(&self.translation_verses_map, key.as_slice()) {
                Some(at) => {
                    if at < count as u64 {
                        self.translation_verses_strings[at as usize].clone()
                    } else {
                        String::new()
                    }
                },
                None => String::new(),
            };
            chars.push(chars_of(verse.as_str()));
            text.push(verse);
            i = i + 1;
        }
        let ghost texts = self.texts_for(m.key);
        assert(texts =~= Seq::new(TRANSLATION_COUNT as nat, |j: int| chars@[j]@));
        let mut highlights: Vec<String> = Vec::with_capacity(m.highlights.len());
        let mut h: usize = 0;
        while h < m.highlights.len()
            invariant
                h <= m.highlights.len(),
                chars@.len() == TRANSLATION_COUNT,
                texts.len() == TRANSLATION_COUNT,
                forall|j: int| 0 <= j < TRANSLATION_COUNT ==> (#[trigger] chars@[j])@ == texts[j],
                highlights@.len() == h,
                forall|j: int|
                    0 <= j < h ==> (#[trigger] highlights@[j])@ == span_text(
                        texts,
                        m.highlights@[j],
                    ),
            decreases m.highlights.len() - h,
        {
            let (first, last) = m.highlights[h];
            highlights.push(span_string(&chars, first, last));
            h = h + 1;
        }
        let r = VerseResult {
            key: m.key,
            top_translation: m.top_translation(),
            text,
            highlights,
            rankings: m.to_service_rankings(),
            popularity: m.popularity,
        };
        proof {
            assert(r.answer().text =~= self.answer_for(m).text);
            assert(r.answer().highlights =~= self.answer_for(m).highlights);
        }
        r
    }

    /// Ranks the candidates and puts together the results for the best of them, the best
    /// first.
    pub fn collect_results(&self, matches: &Vec<VerseMatch>) -> (results: Vec<VerseResult>)
        requires
            self.wf(),
            candidates_wf(matches@),
            forall|i: int| 0 <= i < matches@.len() ==> (#[trigger] matches@[i]).key.is_valid(),
        ensures
            results@.len() <= MAX_RESULTS,
            is_ranking(
                ranking_of(matches@, MAX_RESULTS as int),
                matches@,
                matches@.len() as int,
                MAX_RESULTS as int,
            ),
            answers(results@) == Seq::new(
                ranking_of(matches@, MAX_RESULTS as int).len(),
                |a: int|
                    self.answer_for(&matches@[ranking_of(matches@, MAX_RESULTS as int)[a] as int]),
            ),
    {
        let order = rank(matches, MAX_RESULTS);
        proof {
            lemma_ranking_unique(
                order@,
                ranking_of(matches@, MAX_RESULTS as int),
                matches@,
                MAX_RESULTS as int,
            );
        }
        let mut results: Vec<VerseResult> = Vec::with_capacity(order.len());
        let mut a: usize = 0;
        while a < order.len()
            invariant
                a <= order.len(),
                self.wf(),
                candidates_wf(matches@),
                is_ranking(order@, matches@, matches@.len() as int, MAX_RESULTS as int),
                forall|i: int|
                    0 <= i < matches@.len() ==> (#[trigger] matches@[i]).key.is_valid(),
                results@.len() == a,
                forall|b: int|
                    0 <= b < a ==> (#[trigger] results@[b]).answer() == self.answer_for(
                        &matches@[order@[b] as int],
                    ),
            decreases order.len() - a,
        {
            let at = order[a];
            assert(at < matches@.len());
            let m = &matches[at];
            assert(m.wf() && m.key.is_valid());
            results.push(self.assemble(m));
            a = a + 1;
        }
        assert(answers(results@) =~= Seq::new(
            ranking_of(matches@, MAX_RESULTS as int).len(),
            |a: int|
                self.answer_for(&matches@[ranking_of(matches@, MAX_RESULTS as int)[a] as int]),
        ));
        results
    }

    /// Answers a query: the best verses for the words of `text`, `MAX_RESULTS` at most, the
    /// best first. A query without a word, or one whose words reach no token, has no
    /// results.
    pub fn search(&self, text: &str) -> (response: Response)
        requires
            self.wf(),
        ensures
            response.results@.len() <= MAX_RESULTS,
            tokens_of(text@).len() == 0 ==> response.results@.len() == 0,
            self.is_answer(text@, answers(response.results@)),
    {
        let tokens = tokenize(text);
        assert(tokens_in(tokens@) =~= query_of(text@)) by {
            assert(tokenized_view(tokens@) == tokens_of(text@));
            assert forall|i: int| 0 <= i < tokens@.len() implies tokens_in(tokens@)[i] == query_of(
                text@,
            )[i] by {
                assert(tokenized_view(tokens@)[i].1 == tokens@[i].token@);
            }
        }
        if tokens.len() == 0 {
            return Response { results: Vec::new() };
        }
        let found = self.traverse_fst(&tokens);
        if found.len() == 0 {
            return Response { results: Vec::new() };
        }
        let matches = self.score_results(&found);
        let results = self.collect_results(&matches);
        Response { results }
    }
}

/// The statistics by which a result is ranked: those of its best translation.
pub open spec fn best_of(a: Answer) -> Ranking {
    a.rankings[a.top_translation]
}

/// The candidates that stand behind the results of a query that found something.
pub open spec fn candidates_of(index: &VersearchIndex, text: Seq<char>, results: Seq<Answer>) -> Seq<
    VerseMatch,
> {
    let query = query_of(text);
    let found = discovered(index.tokens(), query, query.len() as int);
    choose|matches: Seq<VerseMatch>|
        #![trigger index.scored(found, matches)]
        {
            &&& index.scored(found, matches)
            &&& is_ranking(
                ranking_of(matches, MAX_RESULTS as int),
                matches,
                matches.len() as int,
                MAX_RESULTS as int,
            )
            &&& results == Seq::new(
                ranking_of(matches, MAX_RESULTS as int).len(),
                |a: int|
                    index.answer_for(&matches[ranking_of(matches, MAX_RESULTS as int)[a] as int]),
            )
        }
}

/// Every result of an answer holds a text and the statistics for each translation, the
/// texts are those of its verse, one of the translations is its best, and no two results
/// are for one verse. There are `MAX_RESULTS` results at most.
pub proof fn lemma_results_are_whole(
    index: &VersearchIndex,
    text: Seq<char>,
    results: Seq<Answer>,
    a: int,
    b: int,
)
    requires
        index.is_answer(text, results),
        0 <= a < results.len(),
        0 <= b < results.len(),
    ensures
        results.len() <= MAX_RESULTS,
        results[a].text.len() == TRANSLATION_COUNT,
        results[a].text == index.texts_for(results[a].key),
        results[a].rankings.len() == TRANSLATION_COUNT,
        0 <= results[a].top_translation < TRANSLATION_COUNT,
        a != b ==> results[a].key != results[b].key,
{
    let matches = candidates_of(index, text, results);
    let order = ranking_of(matches, MAX_RESULTS as int);
    let x = order[a] as int;
    let y = order[b] as int;
    assert(results[a] == index.answer_for(&matches[x]));
    assert(results[b] == index.answer_for(&matches[y]));
    assert(matches[x].wf());
    lemma_top_exists(&matches[x]);
    if a != b && x == y {
        if a < b {
            assert(matches[order[a] as int].listed_before(&matches[order[b] as int]));
        } else {
            assert(matches[order[b] as int].listed_before(&matches[order[a] as int]));
        }
        lemma_listing_is_strict_order(&matches[x], &matches[x], &matches[x]);
    }
}

/// Of two results of an answer that match as many words of the query, the one that has
/// more of them as they stand in the query comes first, however often the other is cited.
pub proof fn lemma_exact_results_first(
    index: &VersearchIndex,
    text: Seq<char>,
    results: Seq<Answer>,
    a: int,
    b: int,
)
    requires
        index.is_answer(text, results),
        0 <= a < results.len(),
        0 <= b < results.len(),
        best_of(results[a]).query_words == best_of(results[b]).query_words,
        best_of(results[a]).exact > best_of(results[b]).exact,
    ensures
        a < b,
{
    let matches = candidates_of(index, text, results);
    let order = ranking_of(matches, MAX_RESULTS as int);
    let x = order[a] as int;
    let y = order[b] as int;
    assert(results[a] == index.answer_for(&matches[x]));
    assert(results[b] == index.answer_for(&matches[y]));
    assert(matches[x].wf() && matches[y].wf());
    lemma_top_exists(&matches[x]);
    lemma_top_exists(&matches[y]);
    lemma_exact_listed_first(&matches[x], &matches[y]);
    if b < a {
        assert(matches[order[b] as int].listed_before(&matches[order[a] as int]));
        lemma_listing_is_strict_order(&matches[x], &matches[y], &matches[x]);
    }
}

/// Where a query has no more candidates than `MAX_RESULTS`, every candidate verse is among
/// the results, and there are as many results as candidates.
pub proof fn lemma_few_candidates_are_all_listed(
    index: &VersearchIndex,
    text: Seq<char>,
    results: Seq<Answer>,
    key: Seq<u8>,
)
    requires
        index.is_answer(text, results),
        discovered(index.tokens(), query_of(text), query_of(text).len() as int).len() > 0,
        index.candidate_keys(
            discovered(index.tokens(), query_of(text), query_of(text).len() as int),
        ).len() <= MAX_RESULTS,
        index.candidate_keys(
            discovered(index.tokens(), query_of(text), query_of(text).len() as int),
        ).contains(key),
    ensures
        results.len() == index.candidate_keys(
            discovered(index.tokens(), query_of(text), query_of(text).len() as int),
        ).len(),
        exists|a: int| 0 <= a < results.len() && (#[trigger] results[a]).key == VerseKey::of_bytes(key),
{
    let found = discovered(index.tokens(), query_of(text), query_of(text).len() as int);
    let keys = index.candidate_keys(found);
    let matches = candidates_of(index, text, results);
    let order = ranking_of(matches, MAX_RESULTS as int);
    let k = choose|k: int| 0 <= k < keys.len() && keys[k] == key;
    lemma_ranking_lists_all(order, matches, MAX_RESULTS as int, k);
    let a = choose|a: int| 0 <= a < order.len() && #[trigger] order[a] == k;
    assert(results[a] == index.answer_for(&matches[order[a] as int]));
    assert(matches[k].key == VerseKey::of_bytes(keys[k]));
}

/// Every result is for a verse in the postings of the seed, and where the token of the seed
/// stands in a translation of the verse, the result has a word of the query in that
/// translation.
pub proof fn lemma_results_count_the_seed(
    index: &VersearchIndex,
    text: Seq<char>,
    results: Seq<Answer>,
    a: int,
    i: int,
)
    requires
        index.is_answer(text, results),
        0 <= a < results.len(),
        0 <= i < TRANSLATION_COUNT,
    ensures
        ({
            let found = discovered(index.tokens(), query_of(text), query_of(text).len() as int);
            let at = seed(found, index.sizes_of(found));
            let postings = index.postings()[found[at].id as int];
            exists|key: Seq<u8>|
                {
                    &&& #[trigger] postings.dom().contains(key)
                    &&& results[a].key == VerseKey::of_bytes(key)
                    &&& postings[key].counts[i] > 0 ==> results[a].rankings[i].query_words > 0
                }
        }),
{
    let found = discovered(index.tokens(), query_of(text), query_of(text).len() as int);
    let at = seed(found, index.sizes_of(found));
    let postings = index.postings()[found[at].id as int];
    let keys = index.candidate_keys(found);
    let matches = candidates_of(index, text, results);
    let order = ranking_of(matches, MAX_RESULTS as int);
    let x = order[a] as int;
    assert(results[a] == index.answer_for(&matches[x]));
    let key = keys[x];
    assert(keys.contains(key));
    assert(postings.dom().contains(key));
    assert(tallied(&matches[x], tally(index.postings(), found, found.len() as int, key)));
    if postings[key].counts[i] > 0 {
        lemma_token_is_counted(index.postings(), found, found.len() as int, key, at, i);
    }
}

/// No result has more words of the query in a translation than the query has words.
pub proof fn lemma_query_words_bounded(
    index: &VersearchIndex,
    text: Seq<char>,
    results: Seq<Answer>,
    a: int,
    i: int,
)
    requires
        index.is_answer(text, results),
        text.len() <= usize::MAX,
        0 <= a < results.len(),
        0 <= i < TRANSLATION_COUNT,
    ensures
        results[a].rankings[i].query_words <= query_of(text).len(),
        query_of(text).len() <= text.len(),
{
    let query = query_of(text);
    let found = discovered(index.tokens(), query, query.len() as int);
    let keys = index.candidate_keys(found);
    let matches = candidates_of(index, text, results);
    let order = ranking_of(matches, MAX_RESULTS as int);
    let x = order[a] as int;
    assert(results[a] == index.answer_for(&matches[x]));
    crate::tokenizer::lemma_token_count(text);
    let t = tally(index.postings(), found, found.len() as int, keys[x]);
    assert(tallied(&matches[x], t));
    lemma_tally_words(index.postings(), found, found.len() as int, keys[x], i);
    lemma_discovered_words(index.tokens(), query, query.len() as int);
    let held = matches[x].rankings@[i].query_word_matches@;
    assert(matches[x].rankings@[i].wf());
    assert(matches[x].matched_words()[i] == held.to_set());
    let places = Seq::new(held.len(), |j: int| held[j] as int);
    assert forall|p: int, q: int| 0 <= p < places.len() && 0 <= q < places.len() && p
        != q implies places[p] != places[q] by {
        assert(held[p] != held[q]);
    }
    places.unique_seq_to_set();
    vstd::set_lib::lemma_int_range(0, query.len() as int);
    assert forall|v: int| places.to_set().contains(v) implies vstd::set_lib::set_int_range(
        0,
        query.len() as int,
    ).contains(v) by {
        let j = choose|j: int| 0 <= j < places.len() && places[j] == v;
        assert(held.to_set().contains(held[j]));
        assert(t.words[i].contains(held[j]));
    }
    vstd::set_lib::lemma_len_subset(
        places.to_set(),
        vstd::set_lib::set_int_range(0, query.len() as int),
    );
}

/// In an index where every verse in the postings of a token has the token in one of the
/// translations, as in every index that was built, each result has a word of the query in
/// one of the translations.
pub proof fn lemma_results_have_a_word(
    index: &VersearchIndex,
    text: Seq<char>,
    results: Seq<Answer>,
    a: int,
)
    requires
        index.counted(),
        index.is_answer(text, results),
        0 <= a < results.len(),
    ensures
        exists|i: int| 0 <= i < TRANSLATION_COUNT && (#[trigger] results[a].rankings[i]).query_words > 0,
{
    let found = discovered(index.tokens(), query_of(text), query_of(text).len() as int);
    let at = seed(found, index.sizes_of(found));
    let postings = index.postings()[found[at].id as int];
    let keys = index.candidate_keys(found);
    let matches = candidates_of(index, text, results);
    let order = ranking_of(matches, MAX_RESULTS as int);
    let x = order[a] as int;
    assert(results[a] == index.answer_for(&matches[x]));
    let key = keys[x];
    assert(keys.contains(key));
    assert(postings.dom().contains(key));
    assert(found[at].id < index.reverse_index@.len());
    assert(every_row_counts(index.postings()[found[at].id as int]));
    let i = choose|i: int| 0 <= i < TRANSLATION_COUNT && #[trigger] postings[key].counts[i] > 0;
    assert(tallied(&matches[x], tally(index.postings(), found, found.len() as int, key)));
    lemma_token_is_counted(index.postings(), found, found.len() as int, key, at, i);
    assert(results[a].rankings[i].query_words > 0);
}

/// The span under which a word of a text is kept gives the word's source form back: for
/// the word at place `i` among the words of the text of translation `t`, the span from the
/// number of its first place to the number of its last marks its source form.
pub proof fn lemma_span_gives_source(texts: Seq<Seq<char>>, t: int, i: int)
    requires
        0 <= t < texts.len(),
        t < TRANSLATION_COUNT,
        texts[t].len() < TEXT_LIMIT,
        0 <= i < located_of(texts[t]).len(),
    ensures
        span_text(
            texts,
            (
                place_number(t, located_of(texts[t])[i].0.0),
                place_number(t, located_of(texts[t])[i].0.1),
            ),
        ) == located_of(texts[t])[i].1.0,
{
    lemma_located_stand_in_text(texts[t], i);
    let first = located_of(texts[t])[i].0.0;
    let last = located_of(texts[t])[i].0.1;
    let limit = TEXT_LIMIT as int;
    assert((t * limit + first) / limit == t && (t * limit + first) % limit == first) by (nonlinear_arith)
        requires
            0 <= first < limit,
            0 <= t,
            limit > 0,
    ;
    assert(0 <= t * limit + first <= t * limit + last < 0x2_0000_0000) by (nonlinear_arith)
        requires
            0 <= first <= last < limit,
            0 <= t < 2,
            limit == 0x1_0000_0000,
    ;
}

} // verus!
