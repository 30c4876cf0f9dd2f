//! From the corpus to the index file: every table is written, in key order, into a
//! transducer, and the postings of every token into rows of bytes.
//!
//! A row of postings holds, for one verse, the count of the token in each translation, eight
//! bytes each with the heaviest byte first, and the places at which the token stands in the
//! texts of the verse. The places are numbered as
//! [`place_number`](crate::translation::place_number) says and written as runs, as long as
//! they can be: for each run its first and its last number, eight bytes each.

use crate::be64::{lemma_u64s_round_trip, u64s_bytes, write_u64s};
use crate::citation::cite_lines;
use crate::corpus::{
    first_fault, note_verses, postings_counted, postings_wf, some_count, stats_wf, Corpus,
    CorpusModel, StatsModel, TranslationData, VerseStats,
};
use crate::error::BuildError;
use crate::idset::{increasing, lemma_is_sorted_ids, sorted_ids};
use crate::index::{loadable, written_by_builder, IndexData, VersearchIndex};
use crate::lex::strictly_sorted;
use crate::postings::{every_row_counts, stored_postings, Posting, ReverseIndexEntryBytes};
use crate::reading::lemma_contents_of_image;
use crate::runs::{
    compress, ids_of, lemma_runs_round_trip, longest_runs, runs_bytes, runs_for, runs_of_bytes,
    valid_runs, write_runs,
};
use crate::table::{entry_keys, key_seq, lemma_place_in, place_in, Table};
use crate::transducer::{
    builder_entries, builder_insert, builder_into_inner, builder_memory, fst_image,
    image_contents, is_source, keys_of, map_of, takes_next, written,
};
use crate::translation::{Translation, SPAN_LIMIT, TRANSLATION_COUNT};
use vstd::prelude::*;

verus! {

/// The keys with the numbers of their places.
pub open spec fn numbered(keys: Seq<Seq<u8>>) -> Seq<(Seq<u8>, u64)> {
    Seq::new(keys.len(), |i: int| (keys[i], i as u64))
}

/// The keys with the values at their places.
pub open spec fn paired(keys: Seq<Seq<u8>>, values: Seq<u64>) -> Seq<(Seq<u8>, u64)> {
    Seq::new(keys.len(), |i: int| (keys[i], values[i]))
}

/// The postings of one token as bytes.
pub struct EntryImage {
    pub map: Seq<u8>,
    pub counts: Seq<Seq<u8>>,
    pub highlights: Seq<Seq<u8>>,
}

/// What the stored postings hold.
pub open spec fn entry_image(e: ReverseIndexEntryBytes) -> EntryImage {
    EntryImage {
        map: e.map_bytes@,
        counts: Seq::new(e.counts_map_data@.len(), |r: int| e.counts_map_data@[r]@),
        highlights: Seq::new(e.highlights_map_data@.len(), |r: int| e.highlights_map_data@[r]@),
    }
}

/// The runs that are written for a set of places.
pub open spec fn place_runs(places: Set<u64>) -> Seq<(u64, u64)> {
    runs_for(sorted_ids(places))
}

/// The runs that are written for a set of places hold the places and nothing else, in
/// order; they are as long as they can be, and they end below the limit of the places.
pub open spec fn runs_hold(places: Set<u64>) -> bool {
    &&& longest_runs(place_runs(places))
    &&& valid_runs(place_runs(places), SPAN_LIMIT)
    &&& increasing(ids_of(place_runs(places)))
    &&& ids_of(place_runs(places)).to_set() == places
}

/// For every token and every verse of the corpus, the runs that are written hold the
/// places of the token.
pub open spec fn places_in_runs(m: CorpusModel) -> bool {
    forall|i: int, j: int|
        0 <= i < m.tokens.len() && 0 <= j < m.tokens[i].1.len() ==> runs_hold(
            (#[trigger] m.tokens[i].1[j]).1.places,
        )
}

/// The postings of one token written out: a transducer from the key of each verse to the
/// number of its row, and for each row the counts, eight bytes each, and the places of the
/// token in runs.
pub open spec fn written_postings(postings: Seq<(Seq<u8>, StatsModel)>) -> EntryImage {
    EntryImage {
        map: fst_image(numbered(entry_keys(postings))),
        counts: Seq::new(postings.len(), |r: int| u64s_bytes(postings[r].1.counts)),
        highlights: Seq::new(
            postings.len(),
            |r: int| runs_bytes(place_runs(postings[r].1.places)),
        ),
    }
}

/// What the postings of one token say about each verse, under the bytes of the verse's
/// key: the counts, and the places of the token in runs.
pub open spec fn postings_map(postings: Seq<(Seq<u8>, StatsModel)>) -> Map<Seq<u8>, Posting> {
    Map::new(
        |k: Seq<u8>| crate::table::has_key(postings, k),
        |k: Seq<u8>|
            Posting {
                counts: postings[place_in(postings, k)].1.counts,
                highlights: place_runs(postings[place_in(postings, k)].1.places),
            },
    )
}

/// A transducer of keys in order with values holds each value under its key, and nothing
/// else.
pub proof fn lemma_map_of_paired(keys: Seq<Seq<u8>>, values: Seq<u64>)
    requires
        strictly_sorted(keys),
        keys.len() == values.len(),
    ensures
        forall|k: Seq<u8>| #[trigger]
            map_of(paired(keys, values)).dom().contains(k) <==> keys.contains(k),
        forall|i: int|
            0 <= i < keys.len() ==> map_of(paired(keys, values)).dom().contains(
                #[trigger] keys[i],
            ) && map_of(paired(keys, values))[keys[i]] == values[i],
{
    let list = paired(keys, values);
    let m = map_of(list);
    assert forall|k: Seq<u8>| #[trigger] m.dom().contains(k) <==> keys.contains(k) by {
        if m.dom().contains(k) {
            let i = choose|i: int| 0 <= i < list.len() && #[trigger] list[i].0 == k;
            assert(keys[i] == k);
        }
        if keys.contains(k) {
            let i = choose|i: int| 0 <= i < keys.len() && keys[i] == k;
            assert(list[i].0 == k);
        }
    }
    assert forall|i: int| 0 <= i < keys.len() implies m.dom().contains(#[trigger] keys[i])
        && m[keys[i]] == values[i] by {
        assert(list[i].0 == keys[i]);
        assert(entry_keys(list) =~= keys);
        lemma_place_in(list, i);
        let j = choose|j: int| 0 <= j < list.len() && #[trigger] list[j].0 == keys[i];
        assert(j == place_in(list, keys[i]));
    }
}

/// Where every verse in the table of a token has the token in one of the translations, so
/// has every verse of the postings that are written for the table.
pub proof fn lemma_counted_rows(postings: Table<VerseStats>)
    requires
        postings_wf(postings),
        postings_counted(postings),
    ensures
        every_row_counts(postings_map(crate::corpus::postings_model(postings))),
{
    let model = crate::corpus::postings_model(postings);
    let map = postings_map(model);
    assert forall|k: Seq<u8>| #[trigger] map.dom().contains(k) implies exists|t: int|
        0 <= t < TRANSLATION_COUNT && #[trigger] map[k].counts[t] > 0 by {
        let j = place_in(model, k);
        assert(entry_keys(model) =~= postings.key_list());
        let i = choose|i: int| 0 <= i < model.len() && model[i].0 == k;
        lemma_place_in(model, i);
        assert(some_count(postings.values@[j].counts@));
        let t = choose|t: int|
            0 <= t < TRANSLATION_COUNT && #[trigger] postings.values@[j].counts@[t] > 0;
        assert(map[k].counts[t] > 0);
    }
}

/// Writes a transducer that holds `values[i]` under `keys[i]`.
pub fn build_fst(keys: &Vec<Vec<u8>>, values: &Vec<u64>) -> (image: Vec<u8>)
    requires
        keys@.len() == values@.len(),
        strictly_sorted(key_seq(keys@)),
    ensures
        image@ == fst_image(paired(key_seq(keys@), values@)),
        written(image@),
        image_contents(image@) == map_of(paired(key_seq(keys@), values@)),
{
    let ghost all = paired(key_seq(keys@), values@);
    let mut builder = builder_memory();
    let mut i: usize = 0;
    while i < keys.len()
        invariant
            i <= keys.len(),
            keys@.len() == values@.len(),
            strictly_sorted(key_seq(keys@)),
            all == paired(key_seq(keys@), values@),
            builder_entries(builder) == all.subrange(0, i as int),
        decreases keys.len() - i,
    {
        proof {
            let taken = all.subrange(0, i as int);
            if i > 0 {
                assert(taken.last() == all[i - 1]);
                assert(crate::lex::lex_lt(key_seq(keys@)[i - 1], key_seq(keys@)[i as int]));
            }
            assert(takes_next(taken, keys@[i as int]@));
            assert(taken.push((keys@[i as int]@, values@[i as int])) =~= all.subrange(0, i + 1));
        }
        match builder_insert(&mut builder, keys[i].as_slice(), values[i]) {
            Ok(_) => {},
            Err(_) => {
                assert(false);
            },
        }
        i = i + 1;
    }
    assert(all.subrange(0, keys@.len() as int) =~= all);
    assert(keys_of(all) =~= key_seq(keys@));
    match builder_into_inner(builder) {
        Ok(image) => {
            proof {
                assert(is_source(all, image@));
                lemma_contents_of_image(image@, all);
            }
            image
        },
        Err(_) => {
            assert(false);
            Vec::new()
        },
    }
}

/// The numbers from 0 up to `n`, `n` not included.
pub fn numbers_upto(n: usize) -> (v: Vec<u64>)
    ensures
        v@ == Seq::new(n as nat, |i: int| i as u64),
{
    let mut v: Vec<u64> = Vec::with_capacity(n);
    let mut i: usize = 0;
    while i < n
        invariant
            i <= n,
            v@ == Seq::new(i as nat, |j: int| j as u64),
        decreases n - i,
    {
        v.push(i as u64);
        assert(v@ =~= Seq::new((i + 1) as nat, |j: int| j as u64));
        i = i + 1;
    }
    v
}

/// Writes the row of one verse in the postings of one token: the counts, and the places of
/// the token in runs.
pub fn build_row(stats: &VerseStats) -> (r: (Vec<u8>, Vec<u8>))
    requires
        stats_wf(*stats),
    ensures
        r.0@ == u64s_bytes(stats.counts@),
        r.1@ == runs_bytes(place_runs(stats.highlights@.to_set())),
        runs_hold(stats.highlights@.to_set()),
{
    let counts = write_u64s(stats.counts.as_slice());
    proof {
        lemma_is_sorted_ids(stats.highlights@);
    }
    let runs = compress(stats.highlights.as_slice());
    let highlights = write_runs(&runs);
    (counts, highlights)
}

/// Writes the postings of one token.
pub fn build_entry(postings: &Table<VerseStats>) -> (e: ReverseIndexEntryBytes)
    requires
        postings_wf(*postings),
    ensures
        entry_image(e) == written_postings(crate::corpus::postings_model(*postings)),
        written(e.map_bytes@),
        stored_postings(e) == Some(postings_map(crate::corpus::postings_model(*postings))),
        forall|j: int|
            0 <= j < postings.values@.len() ==> runs_hold(
                (#[trigger] crate::corpus::postings_model(*postings)[j]).1.places,
            ),
{
    let ghost model = crate::corpus::postings_model(*postings);
    let rows = postings.len();
    let row_numbers = numbers_upto(rows);
    assert(paired(key_seq(postings.keys@), row_numbers@) =~= numbered(entry_keys(model)));
    let map_bytes = build_fst(&postings.keys, &row_numbers);
    let mut counts_map_data: Vec<Vec<u8>> = Vec::with_capacity(rows);
    let mut highlights_map_data: Vec<Vec<u8>> = Vec::with_capacity(rows);
    let mut r: usize = 0;
    while r < rows
        invariant
            r <= rows,
            rows == postings.values@.len(),
            postings_wf(*postings),
            model == crate::corpus::postings_model(*postings),
            counts_map_data@.len() == r,
            highlights_map_data@.len() == r,
            forall|j: int|
                0 <= j < r ==> (#[trigger] counts_map_data@[j])@ == u64s_bytes(model[j].1.counts),
            forall|j: int|
                0 <= j < r ==> (#[trigger] highlights_map_data@[j])@ == runs_bytes(
                    place_runs(model[j].1.places),
                ),
            forall|j: int| 0 <= j < r ==> runs_hold((#[trigger] model[j]).1.places),
        decreases rows - r,
    {
        assert(stats_wf(postings.values@[r as int]));
        let (counts, highlights) = build_row(&postings.values[r]);
        counts_map_data.push(counts);
        highlights_map_data.push(highlights);
        r = r + 1;
    }
    let e = ReverseIndexEntryBytes { map_bytes, counts_map_data, highlights_map_data };
    proof {
        assert(entry_image(e).counts =~= written_postings(model).counts);
        assert(entry_image(e).highlights =~= written_postings(model).highlights);
        let keys = postings.key_list();
        assert(entry_keys(model) =~= keys);
        lemma_map_of_paired(keys, row_numbers@);
        let m = map_of(paired(keys, row_numbers@));
        assert(image_contents(e.map_bytes@) == m);
        assert forall|k: Seq<u8>| #[trigger] m.dom().contains(k) implies k.len() == 3 && m[k]
            < rows by {
            let i = choose|i: int| 0 <= i < keys.len() && keys[i] == k;
            assert(keys[i] == postings.keys@[i]@);
        }
        assert forall|r: int| 0 <= r < rows implies (#[trigger] e.counts_map_data@[r])@.len() == 8
            * TRANSLATION_COUNT by {
            lemma_u64s_round_trip(model[r].1.counts);
            assert(stats_wf(postings.values@[r]));
        }
        assert forall|r: int| 0 <= r < rows implies (#[trigger] e.highlights_map_data@[r])@.len()
            % 16 == 0 && valid_runs(runs_of_bytes(e.highlights_map_data@[r]@), SPAN_LIMIT) by {
            let runs = place_runs(model[r].1.places);
            assert(valid_runs(place_runs(model[r].1.places), SPAN_LIMIT));
            lemma_runs_round_trip(runs);
        }
        let stored = stored_postings(e)->0;
        let wanted = postings_map(model);
        assert(stored_postings(e) is Some);
        assert forall|k: Seq<u8>| stored.dom().contains(k) <==> wanted.dom().contains(k) by {
            if m.dom().contains(k) {
                let i = choose|i: int| 0 <= i < keys.len() && keys[i] == k;
                assert(model[i].0 == k);
            }
            if crate::table::has_key(model, k) {
                let i = place_in(model, k);
                assert(keys[i] == k);
            }
        }
        assert forall|k: Seq<u8>| stored.dom().contains(k) implies stored[k] == wanted[k] by {
            assert(m.dom().contains(k));
            let i = choose|i: int| 0 <= i < keys.len() && keys[i] == k;
            assert(model[i].0 == k);
            lemma_place_in(model, i);
            assert(m[keys[i]] == row_numbers@[i]);
            let runs = place_runs(model[i].1.places);
            assert(valid_runs(place_runs(model[i].1.places), SPAN_LIMIT));
            lemma_runs_round_trip(runs);
            lemma_u64s_round_trip(model[i].1.counts);
        }
        assert(stored =~= wanted);
    }
    e
}

/// The index file as plain values.
pub struct IndexImage {
    pub fst: Seq<u8>,
    pub entries: Seq<EntryImage>,
    pub verses: Seq<u8>,
    pub texts: Seq<Seq<char>>,
    pub popularity: Seq<u8>,
}

/// What an index file holds.
pub open spec fn index_image(data: IndexData) -> IndexImage {
    IndexImage {
        fst: data.fst@,
        entries: Seq::new(
            data.reverse_index_entries@.len(),
            |i: int| entry_image(data.reverse_index_entries@[i]),
        ),
        verses: data.translation_verses@,
        texts: Seq::new(
            data.translation_verses_strings@.len(),
            |i: int| data.translation_verses_strings@[i]@,
        ),
        popularity: data.popularity@,
    }
}

/// The index file that is written for a corpus: the tokens, in order, with the numbers of
/// their places; the postings of each token; the texts, in the order of their keys, and
/// their keys with the numbers of their places; and the citation count of each verse.
pub open spec fn written_index(m: CorpusModel) -> IndexImage {
    IndexImage {
        fst: fst_image(numbered(entry_keys(m.tokens))),
        entries: Seq::new(m.tokens.len(), |i: int| written_postings(m.tokens[i].1)),
        verses: fst_image(numbered(entry_keys(m.texts))),
        texts: Seq::new(m.texts.len(), |i: int| m.texts[i].1),
        popularity: fst_image(m.citations),
    }
}

/// Writes the postings of every token, entry `i` for the token at place `i` in the order of
/// the tokens, and the transducer from each token to the number of its place.
pub fn build_reverse_index(wip_token_counts: &Table<Table<VerseStats>>) -> (r: (
    Vec<ReverseIndexEntryBytes>,
    Vec<u8>,
))
    requires
        wip_token_counts.wf(),
        forall|i: int|
            0 <= i < wip_token_counts.values@.len() ==> postings_wf(
                #[trigger] wip_token_counts.values@[i],
            ),
    ensures
        r.1@ == fst_image(numbered(wip_token_counts.key_list())),
        written(r.1@),
        image_contents(r.1@) == map_of(numbered(wip_token_counts.key_list())),
        r.0@.len() == wip_token_counts.keys@.len(),
        forall|i: int|
            0 <= i < r.0@.len() ==> entry_image(#[trigger] r.0@[i]) == written_postings(
                crate::corpus::postings_model(wip_token_counts.values@[i]),
            ) && written(r.0@[i].map_bytes@) && stored_postings(r.0@[i]) == Some(
                postings_map(crate::corpus::postings_model(wip_token_counts.values@[i])),
            ),
        forall|i: int, j: int|
            0 <= i < wip_token_counts.values@.len() && 0 <= j
                < wip_token_counts.values@[i].values@.len() ==> runs_hold(
                (#[trigger] crate::corpus::postings_model(wip_token_counts.values@[i])[j]).1.places,
            ),
{
    let count = wip_token_counts.len();
    let token_numbers = numbers_upto(count);
    assert(paired(key_seq(wip_token_counts.keys@), token_numbers@) =~= numbered(
        wip_token_counts.key_list(),
    ));
    let fst_bytes = build_fst(&wip_token_counts.keys, &token_numbers);
    let mut reverse_index: Vec<ReverseIndexEntryBytes> = Vec::with_capacity(count);
    let mut i: usize = 0;
    while i < count
        invariant
            i <= count,
            count == wip_token_counts.values@.len(),
            forall|i: int|
                0 <= i < wip_token_counts.values@.len() ==> postings_wf(
                    #[trigger] wip_token_counts.values@[i],
                ),
            reverse_index@.len() == i,
            forall|k: int|
                0 <= k < i ==> entry_image(#[trigger] reverse_index@[k]) == written_postings(
                    crate::corpus::postings_model(wip_token_counts.values@[k]),
                ) && written(reverse_index@[k].map_bytes@) && stored_postings(reverse_index@[k])
                    == Some(
                    postings_map(crate::corpus::postings_model(wip_token_counts.values@[k])),
                ),
            forall|k: int, j: int|
                0 <= k < i && 0 <= j < wip_token_counts.values@[k].values@.len() ==> runs_hold(
                    (#[trigger] crate::corpus::postings_model(wip_token_counts.values@[k])[j]).1.places,
                ),
        decreases count - i,
    {
        assert(postings_wf(wip_token_counts.values@[i as int]));
        reverse_index.push(build_entry(&wip_token_counts.values[i]));
        i = i + 1;
    }
    (reverse_index, fst_bytes)
}

/// Writes the transducer from the key of each text to the number of its place, and the
/// texts in the order of their keys.
pub fn build_translation_verses_bytes(translation_verses: &Table<String>) -> (r: (
    Vec<u8>,
    Vec<String>,
))
    requires
        translation_verses.wf(),
    ensures
        r.0@ == fst_image(numbered(translation_verses.key_list())),
        written(r.0@),
        image_contents(r.0@) == map_of(numbered(translation_verses.key_list())),
        r.1@.len() == translation_verses.values@.len(),
        forall|i: int| 0 <= i < r.1@.len() ==> #[trigger] r.1@[i] == translation_verses.values@[i],
{
    let count = translation_verses.len();
    let numbers = numbers_upto(count);
    assert(paired(key_seq(translation_verses.keys@), numbers@) =~= numbered(
        translation_verses.key_list(),
    ));
    let bytes = build_fst(&translation_verses.keys, &numbers);
    let mut strings: Vec<String> = Vec::with_capacity(count);
    let mut i: usize = 0;
    while i < count
        invariant
            i <= count,
            count == translation_verses.values@.len(),
            strings@.len() == i,
            forall|k: int| 0 <= k < i ==> #[trigger] strings@[k] == translation_verses.values@[k],
        decreases count - i,
    {
        strings.push(translation_verses.values[i].clone());
        i = i + 1;
    }
    (bytes, strings)
}

/// Writes the transducer from the key of each verse to the number of times it is cited.
pub fn build_verse_counts_fst(verse_counts: &Table<u64>) -> (bytes: Vec<u8>)
    requires
        verse_counts.wf(),
    ensures
        bytes@ == fst_image(crate::corpus::numbers_model(*verse_counts)),
        written(bytes@),
        image_contents(bytes@) == map_of(crate::corpus::numbers_model(*verse_counts)),
{
    assert(paired(key_seq(verse_counts.keys@), verse_counts.values@)
        =~= crate::corpus::numbers_model(*verse_counts));
    build_fst(&verse_counts.keys, &verse_counts.values)
}

impl Corpus {
    /// Writes the index file for the corpus.
    pub fn write_index(&self) -> (data: IndexData)
        requires
            self.wf(),
        ensures
            index_image(data) == written_index(self.model()),
            written_by_builder(data),
            loadable(data),
            is_index_of(data, self.model()),
            rows_counted(data),
            places_in_runs(self.model()),
    {
        let (reverse_index_entries, fst) = build_reverse_index(&self.wip_token_counts);
        let (translation_verses, translation_verses_strings) = build_translation_verses_bytes(
            &self.translation_verses,
        );
        let popularity = build_verse_counts_fst(&self.verse_counts);
        let data = IndexData {
            fst,
            reverse_index_entries,
            translation_verses,
            translation_verses_strings,
            popularity,
        };
        proof {
            let m = self.model();
            assert(entry_keys(m.tokens) =~= self.wip_token_counts.key_list());
            assert(entry_keys(m.texts) =~= self.translation_verses.key_list());
            assert(index_image(data).entries =~= written_index(m).entries);
            assert(index_image(data).texts =~= written_index(m).texts);
            let keys = self.wip_token_counts.key_list();
            let numbers = Seq::new(keys.len(), |i: int| i as u64);
            assert(paired(keys, numbers) =~= numbered(keys));
            lemma_map_of_paired(keys, numbers);
            let tokens = image_contents(data.fst@);
            assert forall|k: Seq<u8>| #[trigger] tokens.dom().contains(k) implies tokens[k]
                < data.reverse_index_entries@.len() by {
                let i = choose|i: int| 0 <= i < keys.len() && keys[i] == k;
                assert(tokens[keys[i]] == numbers[i]);
            }
            assert forall|i: int|
                0 <= i < data.reverse_index_entries@.len() implies stored_postings(
                #[trigger] data.reverse_index_entries@[i],
            ) == Some(postings_map(m.tokens[i].1)) && every_row_counts(
                postings_map(m.tokens[i].1),
            ) by {
                lemma_counted_rows(self.wip_token_counts.values@[i]);
            }
        }
        data
    }
}

/// Every verse in the postings of the index file has the token of the postings in one of
/// the translations.
pub open spec fn rows_counted(data: IndexData) -> bool {
    forall|i: int|
        0 <= i < data.reverse_index_entries@.len() ==> stored_postings(
            #[trigger] data.reverse_index_entries@[i],
        ) is Some && every_row_counts(stored_postings(data.reverse_index_entries@[i])->0)
}

/// The index file holds what the corpus says: its transducers read back as the tables of
/// the corpus with the numbers of their places, and the postings of each token read back
/// as the counts and the places of the token in each verse.
pub open spec fn is_index_of(data: IndexData, m: CorpusModel) -> bool {
    &&& image_contents(data.fst@) == map_of(numbered(entry_keys(m.tokens)))
    &&& image_contents(data.translation_verses@) == map_of(numbered(entry_keys(m.texts)))
    &&& image_contents(data.popularity@) == map_of(m.citations)
    &&& data.reverse_index_entries@.len() == m.tokens.len()
    &&& forall|i: int|
        0 <= i < m.tokens.len() ==> stored_postings(#[trigger] data.reverse_index_entries@[i])
            == Some(postings_map(m.tokens[i].1))
}

/// Two index files that were written for one corpus hold the same bytes and the same
/// texts.
pub proof fn lemma_same_corpus_same_index(first: IndexData, second: IndexData, m: CorpusModel)
    requires
        index_image(first) == written_index(m),
        index_image(second) == written_index(m),
    ensures
        index_image(first) == index_image(second),
        first.fst@ == second.fst@,
        first.translation_verses@ == second.translation_verses@,
        first.popularity@ == second.popularity@,
        first.reverse_index_entries@.len() == second.reverse_index_entries@.len(),
        forall|i: int|
            0 <= i < first.reverse_index_entries@.len() ==> entry_image(
                #[trigger] first.reverse_index_entries@[i],
            ) == entry_image(second.reverse_index_entries@[i]),
{
    let a = index_image(first).entries;
    let b = index_image(second).entries;
    assert(a == b);
    assert(a.len() == first.reverse_index_entries@.len());
    assert(b.len() == second.reverse_index_entries@.len());
    assert forall|i: int| 0 <= i < first.reverse_index_entries@.len() implies entry_image(
        #[trigger] first.reverse_index_entries@[i],
    ) == entry_image(second.reverse_index_entries@[i]) by {
        assert(a[i] == entry_image(first.reverse_index_entries@[i]));
        assert(b[i] == entry_image(second.reverse_index_entries@[i]));
    }
}

/// A corpus of which nothing has been read.
pub open spec fn empty_corpus() -> CorpusModel {
    CorpusModel { texts: Seq::empty(), citations: Seq::empty(), tokens: Seq::empty() }
}

/// What the corpus becomes by the verses of one translation, or what is wrong with them.
pub open spec fn read_translation(m: CorpusModel, data: TranslationData) -> Result<
    CorpusModel,
    BuildError,
> {
    if data.translation < 0 || data.translation >= TRANSLATION_COUNT {
        Err(BuildError::UnknownTranslation)
    } else {
        match first_fault(data.verses@, data.verses@.len() as int) {
            Some(e) => Err(e),
            None => Ok(
                note_verses(m, data.translation as int, data.verses@, data.verses@.len() as int),
            ),
        }
    }
}

/// The corpus after the first `n` translations, or what is wrong with the first of them
/// with which something is wrong.
pub open spec fn read_translations(translations: Seq<TranslationData>, n: int) -> Result<
    CorpusModel,
    BuildError,
>
    decreases n,
{
    if n <= 0 {
        Ok(empty_corpus())
    } else {
        match read_translations(translations, n - 1) {
            Err(e) => Err(e),
            Ok(m) => read_translation(m, translations[n - 1]),
        }
    }
}

/// Once something is wrong with one of the first translations, it stays what is reported.
pub proof fn lemma_error_stays(translations: Seq<TranslationData>, n: int, m: int)
    requires
        read_translations(translations, n) is Err,
        n <= m,
    ensures
        read_translations(translations, m) == read_translations(translations, n),
    decreases m - n,
{
    if n < m {
        lemma_error_stays(translations, n, m - 1);
    }
}

/// Builds the index file for a corpus: the verses of each translation are taken in, then
/// the citations among `citations` are counted, then the index is written. Nothing is
/// built where a translation has a number that is none of this index, or where a verse has
/// no key, a key that does not fit in three bytes, or a text too long for its places to be
/// numbered.
pub fn create_index_proto_struct(translations: &Vec<TranslationData>, citations: &Vec<String>) -> (r:
    Result<IndexData, BuildError>)
    ensures
        match r {
            Ok(data) => read_translations(translations@, translations@.len() as int) is Ok
                && written_by_builder(data) && loadable(data) && rows_counted(data)
                && places_in_runs(
                (CorpusModel {
                    citations: cite_lines(
                        read_translations(translations@, translations@.len() as int)->Ok_0.citations,
                        citations@,
                        citations@.len() as int,
                    ),
                    ..read_translations(translations@, translations@.len() as int)->Ok_0
                }),
            ) && is_index_of(
                data,
                (CorpusModel {
                    citations: cite_lines(
                        read_translations(translations@, translations@.len() as int)->Ok_0.citations,
                        citations@,
                        citations@.len() as int,
                    ),
                    ..read_translations(translations@, translations@.len() as int)->Ok_0
                }),
            ) && index_image(data) == written_index(
                (CorpusModel {
                    citations: cite_lines(
                        read_translations(translations@, translations@.len() as int)->Ok_0.citations,
                        citations@,
                        citations@.len() as int,
                    ),
                    ..read_translations(translations@, translations@.len() as int)->Ok_0
                }),
            ),
            Err(e) => read_translations(translations@, translations@.len() as int) == Err::<
                CorpusModel,
                BuildError,
            >(e),
        },
{
    let mut corpus = Corpus::new();
    let mut n: usize = 0;
    while n < translations.len()
        invariant
            n <= translations.len(),
            corpus.wf(),
            read_translations(translations@, n as int) == Ok::<CorpusModel, BuildError>(
                corpus.model(),
            ),
        decreases translations.len() - n,
    {
        let data = &translations[n];
        let translation = match Translation::from_ordinal(data.translation) {
            Some(translation) => translation,
            None => {
                proof {
                    lemma_error_stays(translations@, n + 1, translations@.len() as int);
                }
                return Err(BuildError::UnknownTranslation);
            },
        };
        match corpus.process_verses(translation, &data.verses) {
            Ok(_) => {},
            Err(e) => {
                proof {
                    lemma_error_stays(translations@, n + 1, translations@.len() as int);
                }
                return Err(e);
            },
        }
        n = n + 1;
    }
    let ghost read = corpus.model();
    corpus.load_crawl_data(citations);
    let data = corpus.write_index();
    proof {
        let cited = CorpusModel {
            citations: cite_lines(read.citations, citations@, citations@.len() as int),
            ..read
        };
        assert(corpus.model() == cited);
    }
    Ok(data)
}

/// The corpus that the translations and the citations give, or what is wrong with the
/// translations.
pub open spec fn read_corpus(translations: Seq<TranslationData>, citations: Seq<String>) -> Result<
    CorpusModel,
    BuildError,
> {
    match read_translations(translations, translations.len() as int) {
        Err(e) => Err(e),
        Ok(m) => Ok(
            CorpusModel {
                citations: cite_lines(m.citations, citations, citations.len() as int),
                ..m
            },
        ),
    }
}

/// Builds the index for a corpus and loads it. What was built always loads: the index holds
/// the tokens of the corpus with the numbers of their places, for each token the counts and
/// the places of the token in each verse, and the citation count of each verse. The places
/// stand in runs that hold them and nothing else, and every verse in the postings of a
/// token has the token in one of the translations.
pub fn build_index(translations: &Vec<TranslationData>, citations: &Vec<String>) -> (r: Result<
    VersearchIndex,
    BuildError,
>)
    ensures
        match r {
            Ok(index) => {
                &&& index.wf()
                &&& read_corpus(translations@, citations@) is Ok
                &&& index.tokens() == map_of(
                    numbered(entry_keys(read_corpus(translations@, citations@)->Ok_0.tokens)),
                )
                &&& index.verses() == map_of(
                    numbered(entry_keys(read_corpus(translations@, citations@)->Ok_0.texts)),
                )
                &&& index.popularity() == map_of(
                    read_corpus(translations@, citations@)->Ok_0.citations,
                )
                &&& index.postings().len() == read_corpus(
                    translations@,
                    citations@,
                )->Ok_0.tokens.len()
                &&& forall|i: int|
                    0 <= i < index.postings().len() ==> #[trigger] index.postings()[i]
                        == postings_map(read_corpus(translations@, citations@)->Ok_0.tokens[i].1)
                &&& places_in_runs(read_corpus(translations@, citations@)->Ok_0)
                &&& index.counted()
            },
            Err(e) => read_corpus(translations@, citations@) == Err::<CorpusModel, BuildError>(e),
        },
{
    let data = match create_index_proto_struct(translations, citations) {
        Ok(data) => data,
        Err(e) => {
            return Err(e);
        },
    };
    let ghost m = read_corpus(translations@, citations@)->Ok_0;
    assert(is_index_of(data, m));
    let ghost stored = data.reverse_index_entries@;
    match VersearchIndex::from_index_data_proto_struct(data) {
        Ok(index) => {
            proof {
                assert forall|i: int| 0 <= i < index.postings().len() implies #[trigger] index.postings()[i]
                    == postings_map(m.tokens[i].1) && every_row_counts(index.postings()[i]) by {
                    assert(Some(index.postings()[i]) == stored_postings(stored[i]));
                }
            }
            Ok(index)
        },
        Err(_) => {
            assert(false);
            Err(BuildError::MissingKey)
        },
    }
}

} // verus!
