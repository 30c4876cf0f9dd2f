//! The postings of one token: the verses in which it occurs, and for each of them how often
//! it occurs in each translation and where.
//!
//! Where a token occurs is kept as a set of places, counted in characters of the verse's
//! text and numbered as [`place_number`](crate::translation::place_number) says; the set is
//! written as runs, each the first and the last of a stretch of numbers without a gap.

use crate::be64::{read_u64s, u64s_of_bytes};
use crate::error::LoadError;
use crate::lex::{is_listing, lemma_listing_is_sorted_keys, sorted_keys};
use crate::reading::{map_entries, map_get};
use crate::runs::{check_runs, read_runs, runs_of_bytes, valid_runs};
use crate::transducer::{
    contents, image_contents, intact, keys_of, lists_matches, map_new, map_verify, written,
};
use crate::translation::{SPAN_LIMIT, TRANSLATION_COUNT};
use vstd::prelude::*;
use vstd::slice::slice_to_vec;

verus! {

/// The postings of one token as an index file holds them.
#[derive(Clone, Debug, PartialEq, Eq)]
pub struct ReverseIndexEntryBytes {
    /// A transducer from the three bytes of a verse key to the number of a row.
    pub map_bytes: Vec<u8>,
    /// For each row, the count in each translation, eight bytes each.
    pub counts_map_data: Vec<Vec<u8>>,
    /// For each row, the places at which the token stands in the texts of the verse, as
    /// runs: for each run its first and its last number, eight bytes each.
    pub highlights_map_data: Vec<Vec<u8>>,
}

/// What the postings of a token hold for one verse.
pub struct Posting {
    /// How often the token occurs in the verse, in each translation.
    pub counts: Seq<u64>,
    /// The spans to highlight: runs of places at which the token stands.
    pub highlights: Seq<(u64, u64)>,
}

/// The postings of one token, ready to be read.
pub struct ReverseIndexEntry {
    /// From the bytes of a verse key to the number of its row.
    pub map: fst::Map<Vec<u8>>,
    /// For each row, the count in each translation.
    pub counts: Vec<Vec<u64>>,
    /// For each row, the spans to highlight.
    pub highlights: Vec<Vec<(u64, u64)>>,
    /// The number of verses.
    pub verses: usize,
}

/// A row was read as `counts` and `highlights` from bytes that are sound.
pub open spec fn row_read(
    counts_bytes: Seq<u8>,
    highlights_bytes: Seq<u8>,
    counts: Seq<u64>,
    highlights: Seq<(u64, u64)>,
) -> bool {
    &&& counts_bytes.len() == 8 * TRANSLATION_COUNT
    &&& counts == u64s_of_bytes(counts_bytes)
    &&& counts.len() == TRANSLATION_COUNT
    &&& highlights_bytes.len() % 16 == 0
    &&& valid_runs(runs_of_bytes(highlights_bytes), SPAN_LIMIT)
    &&& highlights == runs_of_bytes(highlights_bytes)
}

/// The rows that stored postings hold, under the bytes of their verse keys; nothing where
/// the rows are damaged: where a key has not three bytes or no row, where a row has not a
/// count of eight bytes for each translation, or where the runs of a row are cut short, out
/// of order or out of range. The transducer is taken to be one that a builder wrote.
pub open spec fn stored_postings(input: ReverseIndexEntryBytes) -> Option<Map<Seq<u8>, Posting>> {
    let rows = input.counts_map_data@.len();
    let m = image_contents(input.map_bytes@);
    if input.highlights_map_data@.len() == rows && (forall|k: Seq<u8>| #[trigger]
        m.dom().contains(k) ==> k.len() == 3 && m[k] < rows) && (forall|r: int|
        0 <= r < rows ==> (#[trigger] input.counts_map_data@[r])@.len() == 8 * TRANSLATION_COUNT)
        && (forall|r: int|
        0 <= r < rows ==> (#[trigger] input.highlights_map_data@[r])@.len() % 16 == 0
            && valid_runs(runs_of_bytes(input.highlights_map_data@[r]@), SPAN_LIMIT)) {
        Some(
            Map::new(
                |k: Seq<u8>| m.dom().contains(k),
                |k: Seq<u8>|
                    Posting {
                        counts: u64s_of_bytes(input.counts_map_data@[m[k] as int]@),
                        highlights: runs_of_bytes(input.highlights_map_data@[m[k] as int]@),
                    },
            ),
        )
    } else {
        None
    }
}

/// Every verse of the postings has the token in one of the translations.
pub open spec fn every_row_counts(postings: Map<Seq<u8>, Posting>) -> bool {
    forall|k: Seq<u8>| #[trigger]
        postings.dom().contains(k) ==> exists|t: int|
            0 <= t < TRANSLATION_COUNT && #[trigger] postings[k].counts[t] > 0
}

impl ReverseIndexEntry {
    /// The transducer is one that a builder wrote, every key has three bytes and a row,
    /// every row has a count for each translation, and the number of verses is the number of
    /// keys.
    pub open spec fn wf(&self) -> bool {
        &&& intact(self.map)
        &&& self.counts@.len() == self.highlights@.len()
        &&& forall|k: Seq<u8>| #[trigger]
            contents(self.map).dom().contains(k) ==> k.len() == 3 && contents(self.map)[k]
                < self.counts@.len()
        &&& forall|r: int|
            0 <= r < self.counts@.len() ==> (#[trigger] self.counts@[r])@.len()
                == TRANSLATION_COUNT
        &&& is_listing(sorted_keys(contents(self.map).dom()), contents(self.map).dom())
        &&& self.verses == sorted_keys(contents(self.map).dom()).len()
    }

    /// What the postings hold for each verse, under the bytes of the verse's key.
    pub open spec fn postings(&self) -> Map<Seq<u8>, Posting> {
        Map::new(
            |k: Seq<u8>| contents(self.map).dom().contains(k),
            |k: Seq<u8>|
                Posting {
                    counts: self.counts@[contents(self.map)[k] as int]@,
                    highlights: self.highlights@[contents(self.map)[k] as int]@,
                },
        )
    }

    /// The number of verses in which the token occurs.
    pub open spec fn size(&self) -> nat {
        sorted_keys(self.postings().dom()).len()
    }

    /// Reads stored postings whose transducer a builder wrote. Postings with damaged rows
    /// are refused. So are postings whose transducer `fst` refuses by its header or by its
    /// checksum; `fst` reads no other transducer safely than one that a builder wrote, and
    /// that much is asked of the caller.
    pub fn from_bytes_struct(input: &ReverseIndexEntryBytes) -> (r: Result<
        ReverseIndexEntry,
        LoadError,
    >)
        requires
            written(input.map_bytes@),
        ensures
            match r {
                Ok(entry) => entry.wf() && stored_postings(*input) == Some(entry.postings()),
                Err(_) => stored_postings(*input) is None,
            },
    {
        let map = match map_new(slice_to_vec(input.map_bytes.as_slice())) {
            Ok(map) => map,
            Err(_) => {
                return Err(LoadError::new());
            },
        };
        if map_verify(&map).is_err() {
            return Err(LoadError::new());
        }
        let ghost m = contents(map);
        assert(image_contents(input.map_bytes@) == m);
        let rows = input.counts_map_data.len();
        if input.highlights_map_data.len() != rows {
            return Err(LoadError::new());
        }
        let entries = map_entries(&map);
        let mut i: usize = 0;
        while i < entries.len()
            invariant
                i <= entries.len(),
                image_contents(input.map_bytes@) == m,
                rows == input.counts_map_data@.len(),
                lists_matches(entries.deep_view(), m, Set::full()),
                forall|j: int|
                    0 <= j < i ==> (#[trigger] entries.deep_view()[j]).0.len() == 3
                        && entries.deep_view()[j].1 < rows,
            decreases entries.len() - i,
        {
            let ghost e = entries.deep_view()[i as int];
            assert(e.0 == entries@[i as int].0@ && e.1 == entries@[i as int].1);
            assert(m.contains_pair(e.0, e.1));
            if entries[i].0.len() != 3 || entries[i].1 >= rows as u64 {
                assert(m.dom().contains(e.0) && m[e.0] == e.1);
                return Err(LoadError::new());
            }
            i = i + 1;
        }
        assert forall|k: Seq<u8>| #[trigger] m.dom().contains(k) implies k.len() == 3 && m[k]
            < rows by {
            assert(Set::<Seq<u8>>::full().contains(k));
            let j = choose|j: int|
                0 <= j < entries.deep_view().len() && (#[trigger] entries.deep_view()[j]).0 == k;
            assert(m.contains_pair(entries.deep_view()[j].0, entries.deep_view()[j].1));
        }
        proof {
            let list = entries.deep_view();
            assert forall|k: Seq<u8>| keys_of(list).contains(k) <==> m.dom().contains(k) by {
                if keys_of(list).contains(k) {
                    let j = choose|j: int| 0 <= j < keys_of(list).len() && keys_of(list)[j] == k;
                    assert(m.contains_pair(list[j].0, list[j].1));
                }
                if m.dom().contains(k) {
                    assert(Set::<Seq<u8>>::full().contains(k));
                    let j = choose|j: int| 0 <= j < list.len() && (#[trigger] list[j]).0 == k;
                    assert(keys_of(list)[j] == k);
                }
            }
            lemma_listing_is_sorted_keys(keys_of(list), m.dom());
        }
        let verses = entries.len();
        let mut counts: Vec<Vec<u64>> = Vec::new();
        let mut highlights: Vec<Vec<(u64, u64)>> = Vec::new();
        let mut r: usize = 0;
        while r < rows
            invariant
                r <= rows,
                image_contents(input.map_bytes@) == m,
                rows == input.counts_map_data@.len(),
                rows == input.highlights_map_data@.len(),
                counts@.len() == r,
                highlights@.len() == r,
                forall|j: int|
                    0 <= j < r ==> row_read(
                        (#[trigger] input.counts_map_data@[j])@,
                        input.highlights_map_data@[j]@,
                        counts@[j]@,
                        highlights@[j]@,
                    ),
            decreases rows - r,
        {
            let row_counts = match read_u64s(input.counts_map_data[r].as_slice()) {
                Some(c) => c,
                None => {
                    return Err(LoadError::new());
                },
            };
            proof {
                crate::be64::lemma_u64s_round_trip(row_counts@);
            }
            if row_counts.len() != TRANSLATION_COUNT {
                return Err(LoadError::new());
            }
            let row_runs = match read_runs(input.highlights_map_data[r].as_slice()) {
                Some(runs) => runs,
                None => {
                    return Err(LoadError::new());
                },
            };
            if !check_runs(&row_runs, SPAN_LIMIT) {
                return Err(LoadError::new());
            }
            assert(row_read(
                input.counts_map_data@[r as int]@,
                input.highlights_map_data@[r as int]@,
                row_counts@,
                row_runs@,
            ));
            counts.push(row_counts);
            highlights.push(row_runs);
            r = r + 1;
        }
        let entry = ReverseIndexEntry { map, counts, highlights, verses };
        proof {
            assert forall|r: int| 0 <= r < rows implies (#[trigger] input.counts_map_data@[r])@.len()
                == 8 * TRANSLATION_COUNT by {}
            assert forall|r: int| 0 <= r < rows implies (
            #[trigger] input.highlights_map_data@[r])@.len() % 16 == 0 && valid_runs(
                runs_of_bytes(input.highlights_map_data@[r]@),
                SPAN_LIMIT,
            ) by {
                assert(row_read(
                    input.counts_map_data@[r]@,
                    input.highlights_map_data@[r]@,
                    entry.counts@[r]@,
                    entry.highlights@[r]@,
                ));
            }
            assert forall|r: int| 0 <= r < rows implies (#[trigger] entry.counts@[r])@.len()
                == TRANSLATION_COUNT by {
                assert(row_read(
                    input.counts_map_data@[r]@,
                    input.highlights_map_data@[r]@,
                    entry.counts@[r]@,
                    entry.highlights@[r]@,
                ));
            }
            assert(stored_postings(*input) is Some);
            assert forall|k: Seq<u8>| #[trigger]
                entry.postings().dom().contains(k) implies entry.postings()[k] == stored_postings(
                *input,
            )->0[k] by {
                assert(m.dom().contains(k));
                let r = m[k] as int;
                assert(row_read(
                    input.counts_map_data@[r]@,
                    input.highlights_map_data@[r]@,
                    entry.counts@[r]@,
                    entry.highlights@[r]@,
                ));
            }
            assert(entry.postings() =~= stored_postings(*input)->0);
        }
        Ok(entry)
    }

    /// The number of verses in which the token occurs.
    pub fn len(&self) -> (n: usize)
        requires
            self.wf(),
        ensures
            n == self.size(),
    {
        assert(self.postings().dom() =~= contents(self.map).dom());
        self.verses
    }

    /// How often the token occurs in a verse, in each translation, if it occurs there.
    pub fn get_counts(&self, verse_key: &[u8]) -> (r: Option<&Vec<u64>>)
        requires
            self.wf(),
        ensures
            match r {
                Some(c) => self.postings().dom().contains(verse_key@) && c@
                    == self.postings()[verse_key@].counts && c@.len() == TRANSLATION_COUNT,
                None => !self.postings().dom().contains(verse_key@),
            },
    {
        match map_get(&self.map, verse_key) {
            Some(row) => {
                assert(contents(self.map).dom().contains(verse_key@));
                assert(row < self.counts@.len());
                assert(self.postings().dom().contains(verse_key@));
                assert(self.postings()[verse_key@].counts == self.counts@[row as int]@);
                let rows = self.counts.len();
                let at = row as usize;
                assert(at as int == row as int);
                let c = &self.counts[at];
                assert(*c == self.counts@[row as int]);
                assert(c@ == self.postings()[verse_key@].counts);
                assert(c@.len() == TRANSLATION_COUNT);
                Some(c)
            },
            None => None,
        }
    }

    /// The bytes of the keys of the verses in which the token occurs, in order.
    pub fn get_verse_keys(&self) -> (keys: Vec<Vec<u8>>)
        requires
            self.wf(),
        ensures
            keys.deep_view() == sorted_keys(self.postings().dom()),
            is_listing(keys.deep_view(), self.postings().dom()),
            forall|i: int| 0 <= i < keys@.len() ==> (#[trigger] keys@[i])@.len() == 3,
    {
        let entries = map_entries(&self.map);
        let mut keys: Vec<Vec<u8>> = Vec::new();
        let mut i: usize = 0;
        while i < entries.len()
            invariant
                i <= entries.len(),
                keys@.len() == i,
                forall|j: int| 0 <= j < i ==> (#[trigger] keys@[j])@ == entries@[j].0@,
            decreases entries.len() - i,
        {
            keys.push(slice_to_vec(entries[i].0.as_slice()));
            i = i + 1;
        }
        proof {
            let list = entries.deep_view();
            assert(keys.deep_view() =~= keys_of(list)) by {
                assert forall|j: int| 0 <= j < keys@.len() implies keys.deep_view()[j] == keys_of(
                    list,
                )[j] by {
                    assert(list[j].0 == entries@[j].0@);
                }
            }
            let dom = self.postings().dom();
            assert forall|k: Seq<u8>| keys_of(list).contains(k) <==> dom.contains(k) by {
                if keys_of(list).contains(k) {
                    let j = choose|j: int| 0 <= j < keys_of(list).len() && keys_of(list)[j] == k;
                    assert(contents(self.map).contains_pair(list[j].0, list[j].1));
                }
                if dom.contains(k) {
                    assert(Set::<Seq<u8>>::full().contains(k));
                    let j = choose|j: int| 0 <= j < list.len() && (#[trigger] list[j]).0 == k;
                    assert(keys_of(list)[j] == k);
                }
            }
            lemma_listing_is_sorted_keys(keys.deep_view(), dom);
            assert forall|i: int| 0 <= i < keys@.len() implies (#[trigger] keys@[i])@.len()
                == 3 by {
                assert(keys_of(list)[i] == keys@[i]@);
                assert(keys_of(list).contains(keys@[i]@));
            }
        }
        keys
    }

    /// The spans to highlight in a verse, if the token occurs there.
    pub fn get_highlights(&self, verse_key: &[u8]) -> (r: Option<&Vec<(u64, u64)>>)
        requires
            self.wf(),
        ensures
            match r {
                Some(h) => self.postings().dom().contains(verse_key@) && h@
                    == self.postings()[verse_key@].highlights,
                None => !self.postings().dom().contains(verse_key@),
            },
    {
        match map_get(&self.map, verse_key) {
            Some(row) => {
                assert(contents(self.map).dom().contains(verse_key@));
                assert(row < self.highlights@.len());
                assert(self.postings().dom().contains(verse_key@));
                assert(self.postings()[verse_key@].highlights == self.highlights@[row as int]@);
                let rows = self.highlights.len();
                let at = row as usize;
                assert(at as int == row as int);
                let h = &self.highlights[at];
                assert(*h == self.highlights@[row as int]);
                assert(h@ == self.postings()[verse_key@].highlights);
                Some(h)
            },
            None => None,
        }
    }
}

} // verus!
