//! From the words of a query to the tokens of the index that they reach: by prefix, and
//! where no token has the word as a prefix, by edit distance.

use crate::index::VersearchIndex;
use crate::lex::{lemma_listing_unique, lex_compare, LexOrder};
use crate::tokenizer::Tokenized;
use crate::reading::{map_search_automaton, map_search_prefix};
use crate::transducer::{
    edit_distance_language, keys_of, levenshtein_new, lists_matches, prefix_language,
};
use vstd::prelude::*;
use vstd::string::StringSliceAdditionalSpecFns;
use vstd::utf8::encode_utf8;

verus! {

/// A word shorter than this is not looked for by edit distance.
pub const TYPO_1_LEN: usize = 4;

/// A word of this length or more may differ from a token by two edits, a shorter one by one.
pub const TYPO_2_LEN: usize = 8;

/// How a token of the index was reached from a word of the query.
#[derive(Clone, Copy, Debug, PartialEq, Eq, Structural)]
pub enum MatchType {
    /// The token is the word.
    Exact,
    /// The token begins with the word.
    Prefix,
    /// The token is within the allowed edit distance of the word.
    Typo,
}

impl MatchType {
    /// The smaller, the better.
    pub open spec fn grade(self) -> int {
        match self {
            MatchType::Exact => 0,
            MatchType::Prefix => 1,
            MatchType::Typo => 2,
        }
    }

    /// The better of two.
    pub open spec fn best(self, other: MatchType) -> MatchType {
        if other.grade() < self.grade() {
            other
        } else {
            self
        }
    }

    /// The better of two.
    pub fn better_of(self, other: MatchType) -> (r: MatchType)
        ensures
            r == self.best(other),
    {
        match (self, other) {
            (MatchType::Exact, _) => MatchType::Exact,
            (_, MatchType::Exact) => MatchType::Exact,
            (MatchType::Prefix, _) => MatchType::Prefix,
            (_, MatchType::Prefix) => MatchType::Prefix,
            _ => MatchType::Typo,
        }
    }
}

/// A token of the index that the query reached: the number of its postings, the best way in
/// which it was reached, and the place in the query of the first word that reached it.
#[derive(Clone, Copy, Debug, PartialEq, Eq, Structural)]
pub struct Discovered {
    pub id: u64,
    pub match_type: MatchType,
    pub qidx: usize,
}

/// The entries of `tokens` whose key is in `language`, in key order.
pub open spec fn hits(tokens: Map<Seq<u8>, u64>, language: Set<Seq<u8>>) -> Seq<(Seq<u8>, u64)> {
    choose|list: Seq<(Seq<u8>, u64)>| lists_matches(list, tokens, language)
}

/// The edit distance that is allowed to a word of `len` bytes.
pub open spec fn typo_distance(len: nat) -> u32 {
    if len >= TYPO_2_LEN {
        2
    } else {
        1
    }
}

/// What a word of the query reaches, and how a token that is not the word itself counts.
/// Edit distance is tried only where no token begins with the word and the word is long
/// enough.
pub open spec fn word_hits(tokens: Map<Seq<u8>, u64>, word: Seq<char>) -> (
    Seq<(Seq<u8>, u64)>,
    MatchType,
) {
    let bytes = encode_utf8(word);
    let by_prefix = hits(tokens, prefix_language(bytes));
    if by_prefix.len() > 0 {
        (by_prefix, MatchType::Prefix)
    } else if bytes.len() >= TYPO_1_LEN {
        match edit_distance_language(word, typo_distance(bytes.len())) {
            Some(language) => (hits(tokens, language), MatchType::Typo),
            None => (Seq::empty(), MatchType::Typo),
        }
    } else {
        (Seq::empty(), MatchType::Prefix)
    }
}

/// The language by which a word is looked for by edit distance, where it is: where no token
/// begins with the word, the word is long enough, and the automaton can be built.
pub open spec fn typo_language(tokens: Map<Seq<u8>, u64>, word: Seq<char>) -> Option<Set<Seq<u8>>> {
    let bytes = encode_utf8(word);
    if hits(tokens, prefix_language(bytes)).len() == 0 && bytes.len() >= TYPO_1_LEN {
        edit_distance_language(word, typo_distance(bytes.len()))
    } else {
        None
    }
}

/// How a token counts that was reached from a word: as exact where it is the word and the
/// word has more than one byte, else as the search that reached it says.
pub open spec fn classify(word: Seq<u8>, key: Seq<u8>, base: MatchType) -> MatchType {
    if key == word && word.len() > 1 {
        MatchType::Exact
    } else {
        base
    }
}

/// No two entries are for the same token.
pub open spec fn distinct_ids(found: Seq<Discovered>) -> bool {
    forall|i: int, j: int|
        0 <= i < found.len() && 0 <= j < found.len() && i != j ==> (#[trigger] found[i]).id != (
        #[trigger] found[j]).id
}

/// The token with number `id` has an entry.
pub open spec fn has_id(found: Seq<Discovered>, id: u64) -> bool {
    exists|i: int| 0 <= i < found.len() && (#[trigger] found[i]).id == id
}

/// The place of the entry of token `id`.
pub open spec fn place_of_id(found: Seq<Discovered>, id: u64) -> int {
    choose|i: int| 0 <= i < found.len() && (#[trigger] found[i]).id == id
}

/// Takes note that token `id` was reached as `class` from the word at place `q`: a token
/// that has an entry keeps the better class and its first word, any other gets an entry.
pub open spec fn record(found: Seq<Discovered>, id: u64, class: MatchType, q: usize) -> Seq<
    Discovered,
> {
    if has_id(found, id) {
        let i = place_of_id(found, id);
        found.update(i, Discovered { match_type: found[i].match_type.best(class), ..found[i] })
    } else {
        found.push(Discovered { id, match_type: class, qidx: q })
    }
}

/// Takes note of the first `n` hits of a word.
pub open spec fn record_hits(
    found: Seq<Discovered>,
    list: Seq<(Seq<u8>, u64)>,
    n: int,
    word: Seq<u8>,
    base: MatchType,
    q: usize,
) -> Seq<Discovered>
    decreases n,
{
    if n <= 0 {
        found
    } else {
        record(
            record_hits(found, list, n - 1, word, base, q),
            list[n - 1].1,
            classify(word, list[n - 1].0, base),
            q,
        )
    }
}

/// What the first `n` words of a query reach.
pub open spec fn discovered(tokens: Map<Seq<u8>, u64>, query: Seq<Seq<char>>, n: int) -> Seq<
    Discovered,
>
    decreases n,
{
    if n <= 0 {
        Seq::empty()
    } else {
        let (list, base) = word_hits(tokens, query[n - 1]);
        record_hits(
            discovered(tokens, query, n - 1),
            list,
            list.len() as int,
            encode_utf8(query[n - 1]),
            base,
            (n - 1) as usize,
        )
    }
}

/// The tokens of a list of words.
pub open spec fn tokens_in(words: Seq<Tokenized>) -> Seq<Seq<char>> {
    Seq::new(words.len(), |i: int| words[i].token@)
}

/// The entries of a map that a language picks can be listed in one way only.
pub proof fn lemma_hits_unique(
    list: Seq<(Seq<u8>, u64)>,
    tokens: Map<Seq<u8>, u64>,
    language: Set<Seq<u8>>,
)
    requires
        lists_matches(list, tokens, language),
    ensures
        hits(tokens, language) == list,
{
    let other = hits(tokens, language);
    assert(lists_matches(other, tokens, language));
    let a = keys_of(list);
    let b = keys_of(other);
    assert forall|k: Seq<u8>| a.contains(k) <==> b.contains(k) by {
        if a.contains(k) {
            let i = choose|i: int| 0 <= i < a.len() && a[i] == k;
            assert(language.contains(list[i].0) && tokens.contains_pair(list[i].0, list[i].1));
            let j = choose|j: int| 0 <= j < other.len() && (#[trigger] other[j]).0 == k;
            assert(b[j] == k);
        }
        if b.contains(k) {
            let i = choose|i: int| 0 <= i < b.len() && b[i] == k;
            assert(language.contains(other[i].0) && tokens.contains_pair(
                other[i].0,
                other[i].1,
            ));
            let j = choose|j: int| 0 <= j < list.len() && (#[trigger] list[j]).0 == k;
            assert(a[j] == k);
        }
    }
    lemma_listing_unique(a, b);
    assert forall|i: int| 0 <= i < list.len() implies list[i] == other[i] by {
        assert(a[i] == b[i]);
        assert(tokens.contains_pair(list[i].0, list[i].1));
        assert(tokens.contains_pair(other[i].0, other[i].1));
    }
    assert(a.len() == b.len());
    assert(list =~= other);
}

/// Taking note of a token keeps the entries apart, and brings in no token but this one.
pub proof fn lemma_record_keeps_distinct(
    found: Seq<Discovered>,
    id: u64,
    class: MatchType,
    q: usize,
)
    requires
        distinct_ids(found),
    ensures
        distinct_ids(record(found, id, class, q)),
        forall|i: int|
            0 <= i < record(found, id, class, q).len() ==> (#[trigger] record(
                found,
                id,
                class,
                q,
            )[i]).id == id || has_id(found, record(found, id, class, q)[i].id),
{
    let after = record(found, id, class, q);
    if has_id(found, id) {
        assert forall|i: int, j: int|
            0 <= i < after.len() && 0 <= j < after.len() && i != j implies (
        #[trigger] after[i]).id != (#[trigger] after[j]).id by {
            assert(after[i].id == found[i].id && after[j].id == found[j].id);
        }
        assert forall|i: int| 0 <= i < after.len() implies (#[trigger] after[i]).id == id
            || has_id(found, after[i].id) by {
            assert(after[i].id == found[i].id);
        }
    } else {
        assert forall|i: int, j: int|
            0 <= i < after.len() && 0 <= j < after.len() && i != j implies (
        #[trigger] after[i]).id != (#[trigger] after[j]).id by {
            if i < found.len() {
                assert(after[i] == found[i]);
            }
            if j < found.len() {
                assert(after[j] == found[j]);
            }
        }
        assert forall|i: int| 0 <= i < after.len() implies (#[trigger] after[i]).id == id
            || has_id(found, after[i].id) by {
            if i < found.len() {
                assert(after[i] == found[i]);
            }
        }
    }
}

/// Every entry of `before` stands at its place in `after`, for the same token and the same
/// word of the query, with a class that is no worse.
pub open spec fn keeps_entries(before: Seq<Discovered>, after: Seq<Discovered>) -> bool {
    &&& before.len() <= after.len()
    &&& forall|i: int|
        0 <= i < before.len() ==> (#[trigger] after[i]).id == before[i].id && after[i].qidx
            == before[i].qidx && after[i].match_type.grade() <= before[i].match_type.grade()
}

/// The token with number `id` has an entry, with a class at least as good as `class`.
pub open spec fn holds_as(found: Seq<Discovered>, id: u64, class: MatchType) -> bool {
    exists|i: int|
        0 <= i < found.len() && (#[trigger] found[i]).id == id && found[i].match_type.grade()
            <= class.grade()
}

/// What is held stays held when entries are kept.
pub proof fn lemma_held_stays(
    before: Seq<Discovered>,
    after: Seq<Discovered>,
    id: u64,
    class: MatchType,
)
    requires
        keeps_entries(before, after),
        holds_as(before, id, class),
    ensures
        holds_as(after, id, class),
{
    let i = choose|i: int|
        0 <= i < before.len() && (#[trigger] before[i]).id == id && before[i].match_type.grade()
            <= class.grade();
    assert(after[i].id == id && after[i].match_type.grade() <= class.grade());
}

/// A token that is a word of the query, of more than one byte, counts as exact, however it
/// was reached.
pub proof fn lemma_word_itself_is_exact(word: Seq<u8>, base: MatchType)
    requires
        word.len() > 1,
    ensures
        classify(word, word, base) == MatchType::Exact,
{
}

/// After note was taken of a token, the token has one entry, and its class there is at
/// least as good as the class with which it was reached; and no other entry has changed its
/// class for the worse.
pub proof fn lemma_record_keeps_best(found: Seq<Discovered>, id: u64, class: MatchType, q: usize)
    requires
        distinct_ids(found),
    ensures
        has_id(record(found, id, class, q), id),
        record(found, id, class, q)[place_of_id(record(found, id, class, q), id)].match_type.grade()
            <= class.grade(),
        forall|i: int|
            0 <= i < found.len() ==> (#[trigger] record(found, id, class, q)[i]).id == found[i].id
                && record(found, id, class, q)[i].qidx == found[i].qidx && record(
                found,
                id,
                class,
                q,
            )[i].match_type.grade() <= found[i].match_type.grade(),
        keeps_entries(found, record(found, id, class, q)),
        holds_as(record(found, id, class, q), id, class),
{
    let after = record(found, id, class, q);
    lemma_record_keeps_distinct(found, id, class, q);
    if has_id(found, id) {
        let p = place_of_id(found, id);
        assert(after[p].id == id);
        let at = place_of_id(after, id);
        if at != p {
            assert(after[at].id != after[p].id);
        }
    } else {
        assert(after[found.len() as int].id == id);
        let at = place_of_id(after, id);
        if at != found.len() {
            assert(after[at].id != after[found.len() as int].id);
        }
    }
    let at = place_of_id(after, id);
    assert(after[at].id == id && after[at].match_type.grade() <= class.grade());
}

/// Takes note that token `id` was reached as `class` from the word at place `q`.
pub fn record_hit(found: &mut Vec<Discovered>, id: u64, class: MatchType, q: usize)
    requires
        distinct_ids(old(found)@),
    ensures
        final(found)@ == record(old(found)@, id, class, q),
        distinct_ids(final(found)@),
        forall|i: int|
            0 <= i < final(found)@.len() ==> (#[trigger] final(found)@[i]).id == id || has_id(
                old(found)@,
                final(found)@[i].id,
            ),
        keeps_entries(old(found)@, final(found)@),
        holds_as(final(found)@, id, class),
{
    proof {
        lemma_record_keeps_distinct(found@, id, class, q);
        lemma_record_keeps_best(found@, id, class, q);
    }
    let mut i: usize = 0;
    while i < found.len()
        invariant
            i <= found.len(),
            *found == *old(found),
            distinct_ids(found@),
            forall|j: int| 0 <= j < i ==> (#[trigger] found@[j]).id != id,
        decreases found.len() - i,
    {
        if found[i].id == id {
            proof {
                lemma_record_keeps_distinct(found@, id, class, q);
                lemma_record_keeps_best(found@, id, class, q);
                assert(has_id(found@, id));
                let p = place_of_id(found@, id);
                if p != i {
                    assert(found@[p].id != found@[i as int].id);
                }
            }
            let entry = found[i];
            let better = entry.match_type.better_of(class);
            found[i] = Discovered { match_type: better, ..entry };
            return ;
        }
        i = i + 1;
    }
    proof {
        if has_id(found@, id) {
            let p = place_of_id(found@, id);
            assert(found@[p].id != id);
        }
    }
    found.push(Discovered { id, match_type: class, qidx: q });
}

/// Takes note of all hits of a word.
pub fn record_word(
    found: &mut Vec<Discovered>,
    list: &Vec<(Vec<u8>, u64)>,
    word: &[u8],
    base: MatchType,
    q: usize,
)
    requires
        distinct_ids(old(found)@),
    ensures
        final(found)@ == record_hits(
            old(found)@,
            list.deep_view(),
            list@.len() as int,
            word@,
            base,
            q,
        ),
        distinct_ids(final(found)@),
        forall|i: int|
            0 <= i < final(found)@.len() ==> has_id(old(found)@, (#[trigger] final(found)@[i]).id)
                || exists|h: int|
                0 <= h < list@.len() && (#[trigger] list.deep_view()[h]).1 == final(found)@[i].id,
        keeps_entries(old(found)@, final(found)@),
        forall|h: int|
            0 <= h < list@.len() ==> holds_as(
                final(found)@,
                (#[trigger] list.deep_view()[h]).1,
                classify(word@, list.deep_view()[h].0, base),
            ),
{
    let mut h: usize = 0;
    while h < list.len()
        invariant
            h <= list.len(),
            distinct_ids(found@),
            found@ == record_hits(old(found)@, list.deep_view(), h as int, word@, base, q),
            forall|i: int|
                0 <= i < found@.len() ==> has_id(old(found)@, (#[trigger] found@[i]).id)
                    || exists|h: int|
                    0 <= h < list@.len() && (#[trigger] list.deep_view()[h]).1 == found@[i].id,
            keeps_entries(old(found)@, found@),
            forall|g: int|
                0 <= g < h ==> holds_as(
                    found@,
                    (#[trigger] list.deep_view()[g]).1,
                    classify(word@, list.deep_view()[g].0, base),
                ),
        decreases list.len() - h,
    {
        let ghost hit = list.deep_view()[h as int];
        let ghost before = found@;
        assert(hit.0 == list@[h as int].0@ && hit.1 == list@[h as int].1);
        let same = match lex_compare(list[h].0.as_slice(), word) {
            LexOrder::Same => true,
            _ => false,
        };
        let class = if same && word.len() > 1 {
            MatchType::Exact
        } else {
            base
        };
        record_hit(found, list[h].1, class, q);
        proof {
            assert forall|i: int| 0 <= i < found@.len() implies has_id(
                old(found)@,
                (#[trigger] found@[i]).id,
            ) || exists|h: int|
                0 <= h < list@.len() && (#[trigger] list.deep_view()[h]).1 == found@[i].id by {
                if found@[i].id == hit.1 {
                    assert(list.deep_view()[h as int].1 == found@[i].id);
                } else {
                    let p = place_of_id(before, found@[i].id);
                    assert(before[p].id == found@[i].id);
                }
            }
            assert forall|g: int| 0 <= g < h + 1 implies holds_as(
                found@,
                (#[trigger] list.deep_view()[g]).1,
                classify(word@, list.deep_view()[g].0, base),
            ) by {
                if g < h {
                    lemma_held_stays(
                        before,
                        found@,
                        list.deep_view()[g].1,
                        classify(word@, list.deep_view()[g].0, base),
                    );
                }
            }
        }
        h = h + 1;
    }
}

impl VersearchIndex {
    /// Looks up one word of the query: the tokens that begin with it, or, where there is
    /// none and the word is long enough, the tokens within the allowed edit distance.
    pub fn word_matches(&self, word: &str) -> (r: (Vec<(Vec<u8>, u64)>, MatchType))
        requires
            self.wf(),
        ensures
            (r.0.deep_view(), r.1) == word_hits(self.tokens(), word@),
            forall|h: int|
                0 <= h < r.0@.len() ==> (#[trigger] r.0.deep_view()[h]).1
                    < self.reverse_index@.len(),
            lists_matches(
                hits(self.tokens(), prefix_language(encode_utf8(word@))),
                self.tokens(),
                prefix_language(encode_utf8(word@)),
            ),
            typo_language(self.tokens(), word@) matches Some(language) ==> lists_matches(
                hits(self.tokens(), language),
                self.tokens(),
                language,
            ),
    {
        let by_prefix = map_search_prefix(&self.fst_map, word);
        proof {
            lemma_hits_unique(
                by_prefix.deep_view(),
                self.tokens(),
                prefix_language(word.spec_bytes()),
            );
        }
        if by_prefix.len() > 0 {
            proof {
                self.lemma_hits_in_range(by_prefix.deep_view(), prefix_language(word.spec_bytes()));
            }
            return (by_prefix, MatchType::Prefix);
        }
        let len = word.as_bytes().len();
        if len >= TYPO_1_LEN {
            let distance: u32 = if len >= TYPO_2_LEN {
                2
            } else {
                1
            };
            match levenshtein_new(word, distance) {
                Some(automaton) => {
                    let by_distance = map_search_automaton(&self.fst_map, &automaton);
                    proof {
                        let language = edit_distance_language(word@, distance)->0;
                        lemma_hits_unique(by_distance.deep_view(), self.tokens(), language);
                        self.lemma_hits_in_range(by_distance.deep_view(), language);
                    }
                    (by_distance, MatchType::Typo)
                },
                None => {
                    let nothing: Vec<(Vec<u8>, u64)> = Vec::new();
                    assert(nothing.deep_view() =~= Seq::<(Seq<u8>, u64)>::empty());
                    (nothing, MatchType::Typo)
                },
            }
        } else {
            let nothing: Vec<(Vec<u8>, u64)> = Vec::new();
            assert(nothing.deep_view() =~= Seq::<(Seq<u8>, u64)>::empty());
            (nothing, MatchType::Prefix)
        }
    }

    /// What the word reaches is what the index lists for the language by which the word was
    /// looked for: every token of the language, once, in key order.
    pub open spec fn searched(&self, word: Seq<char>) -> bool {
        &&& lists_matches(
            hits(self.tokens(), prefix_language(encode_utf8(word))),
            self.tokens(),
            prefix_language(encode_utf8(word)),
        )
        &&& typo_language(self.tokens(), word) matches Some(language) ==> lists_matches(
            hits(self.tokens(), language),
            self.tokens(),
            language,
        )
    }

    /// A word of the query that is a token of the index is among what the word reaches.
    pub proof fn lemma_word_is_listed(
        &self,
        word: Seq<char>,
        list: Seq<(Seq<u8>, u64)>,
        base: MatchType,
    )
        requires
            (list, base) == word_hits(self.tokens(), word),
            lists_matches(
                hits(self.tokens(), prefix_language(encode_utf8(word))),
                self.tokens(),
                prefix_language(encode_utf8(word)),
            ),
            self.tokens().dom().contains(encode_utf8(word)),
        ensures
            exists|h: int|
                0 <= h < list.len() && (#[trigger] list[h]).0 == encode_utf8(word) && list[h].1
                    == self.tokens()[encode_utf8(word)],
    {
        let w = encode_utf8(word);
        let by_prefix = hits(self.tokens(), prefix_language(w));
        assert(w.subrange(0, w.len() as int) =~= w);
        assert(prefix_language(w).contains(w));
        let h = choose|h: int| 0 <= h < by_prefix.len() && (#[trigger] by_prefix[h]).0 == w;
        assert(by_prefix.len() > 0);
        assert(list == by_prefix);
        assert(self.tokens().contains_pair(list[h].0, list[h].1));
    }

    /// Every token that a search lists has postings.
    pub proof fn lemma_hits_in_range(&self, list: Seq<(Seq<u8>, u64)>, language: Set<Seq<u8>>)
        requires
            self.wf(),
            lists_matches(list, self.tokens(), language),
        ensures
            forall|h: int| 0 <= h < list.len() ==> (#[trigger] list[h]).1
                < self.reverse_index@.len(),
    {
        assert forall|h: int| 0 <= h < list.len() implies (#[trigger] list[h]).1
            < self.reverse_index@.len() by {
            assert(self.tokens().contains_pair(list[h].0, list[h].1));
            assert(self.tokens().dom().contains(list[h].0));
        }
    }

    /// Looks up each word of the query in the index, by prefix and, where no token begins
    /// with the word and the word is long enough, by edit distance, and gives the tokens
    /// that were reached, once each, in the order in which they were first reached.
    pub fn traverse_fst(&self, tokens: &Vec<Tokenized>) -> (found: Vec<Discovered>)
        requires
            self.wf(),
        ensures
            found@ == discovered(self.tokens(), tokens_in(tokens@), tokens@.len() as int),
            distinct_ids(found@),
            forall|i: int| 0 <= i < found@.len() ==> (#[trigger] found@[i]).id
                < self.reverse_index@.len(),
            forall|q: int|
                0 <= q < tokens@.len() && self.tokens().dom().contains(
                    encode_utf8(#[trigger] tokens_in(tokens@)[q]),
                ) && encode_utf8(tokens_in(tokens@)[q]).len() > 1 ==> holds_as(
                    found@,
                    self.tokens()[encode_utf8(tokens_in(tokens@)[q])],
                    MatchType::Exact,
                ),
            forall|q: int|
                0 <= q < tokens@.len() ==> self.searched(#[trigger] tokens_in(tokens@)[q]),
    {
        let mut found: Vec<Discovered> = Vec::new();
        let mut q: usize = 0;
        while q < tokens.len()
            invariant
                q <= tokens.len(),
                self.wf(),
                distinct_ids(found@),
                found@ == discovered(self.tokens(), tokens_in(tokens@), q as int),
                forall|i: int|
                    0 <= i < found@.len() ==> (#[trigger] found@[i]).id
                        < self.reverse_index@.len(),
                forall|p: int|
                    0 <= p < q && self.tokens().dom().contains(
                        encode_utf8(#[trigger] tokens_in(tokens@)[p]),
                    ) && encode_utf8(tokens_in(tokens@)[p]).len() > 1 ==> holds_as(
                        found@,
                        self.tokens()[encode_utf8(tokens_in(tokens@)[p])],
                        MatchType::Exact,
                    ),
                forall|p: int| 0 <= p < q ==> self.searched(#[trigger] tokens_in(tokens@)[p]),
            decreases tokens.len() - q,
        {
            let word: &str = tokens[q].token.as_str();
            assert(word@ == tokens_in(tokens@)[q as int]);
            let (list, base) = self.word_matches(word);
            let ghost before = found@;
            record_word(&mut found, &list, word.as_bytes(), base, q);
            proof {
                let all = tokens_in(tokens@);
                assert forall|p: int|
                    0 <= p < q + 1 && self.tokens().dom().contains(
                        encode_utf8(#[trigger] all[p]),
                    ) && encode_utf8(all[p]).len() > 1 implies holds_as(
                    found@,
                    self.tokens()[encode_utf8(all[p])],
                    MatchType::Exact,
                ) by {
                    let w = encode_utf8(all[p]);
                    if p < q {
                        lemma_held_stays(before, found@, self.tokens()[w], MatchType::Exact);
                    } else {
                        self.lemma_word_is_listed(word@, list.deep_view(), base);
                        let h = choose|h: int|
                            0 <= h < list.deep_view().len() && (#[trigger] list.deep_view()[h]).0
                                == w && list.deep_view()[h].1 == self.tokens()[w];
                        assert(classify(w, list.deep_view()[h].0, base) == MatchType::Exact);
                    }
                }
            }
            proof {
                assert forall|i: int| 0 <= i < found@.len() implies (#[trigger] found@[i]).id
                    < self.reverse_index@.len() by {
                    if has_id(before, found@[i].id) {
                        let p = place_of_id(before, found@[i].id);
                        assert(before[p].id < self.reverse_index@.len());
                    } else {
                        let h = choose|h: int|
                            0 <= h < list@.len() && (#[trigger] list.deep_view()[h]).1
                                == found@[i].id;
                    }
                }
            }
            q = q + 1;
        }
        found
    }
}

/// Taking note of the hits of the word at place `q` leaves every entry with the place of
/// a word before `bound`, where `q` is before `bound` and the entries were so.
pub proof fn lemma_record_hits_words(
    found: Seq<Discovered>,
    list: Seq<(Seq<u8>, u64)>,
    n: int,
    word: Seq<u8>,
    base: MatchType,
    q: usize,
    bound: int,
)
    requires
        q < bound,
        forall|i: int| 0 <= i < found.len() ==> (#[trigger] found[i]).qidx < bound,
    ensures
        forall|i: int|
            0 <= i < record_hits(found, list, n, word, base, q).len() ==> (#[trigger] record_hits(
                found,
                list,
                n,
                word,
                base,
                q,
            )[i]).qidx < bound,
    decreases n,
{
    if n > 0 {
        lemma_record_hits_words(found, list, n - 1, word, base, q, bound);
    }
}

/// Every token that the first `n` words of a query reach was reached from one of these
/// words.
pub proof fn lemma_discovered_words(tokens: Map<Seq<u8>, u64>, query: Seq<Seq<char>>, n: int)
    requires
        n <= usize::MAX,
    ensures
        forall|i: int|
            0 <= i < discovered(tokens, query, n).len() ==> (#[trigger] discovered(
                tokens,
                query,
                n,
            )[i]).qidx < n,
    decreases n,
{
    if n > 0 {
        lemma_discovered_words(tokens, query, n - 1);
        let (list, base) = word_hits(tokens, query[n - 1]);
        lemma_record_hits_words(
            discovered(tokens, query, n - 1),
            list,
            list.len() as int,
            encode_utf8(query[n - 1]),
            base,
            (n - 1) as usize,
            n,
        );
    }
}

} // verus!
