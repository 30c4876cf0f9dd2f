//! An index as a file holds it, and the same index loaded for reading.

use crate::error::LoadError;
use crate::postings::{
    every_row_counts, stored_postings, Posting, ReverseIndexEntry, ReverseIndexEntryBytes,
};
use crate::reading::{lemma_contents_finite, map_entries};
use crate::transducer::{
    contents, fst_bytes, image_contents, intact, lists_matches, map_new, map_verify, written,
};
use vstd::prelude::*;

verus! {

/// An index as a file holds it. It is built once and never changed.
#[derive(Clone, Debug, PartialEq, Eq)]
pub struct IndexData {
    /// A transducer from each token to the number of its postings.
    pub fst: Vec<u8>,
    /// The postings of each token.
    pub reverse_index_entries: Vec<ReverseIndexEntryBytes>,
    /// A transducer from a translation's number and a verse key, four bytes in all, to the
    /// number of a text.
    pub translation_verses: Vec<u8>,
    /// The texts.
    pub translation_verses_strings: Vec<String>,
    /// A transducer from a verse key to the number of times the verse is cited.
    pub popularity: Vec<u8>,
}

/// An index that is loaded. Nothing in it changes while queries are answered.
pub struct VersearchIndex {
    pub fst_map: fst::Map<Vec<u8>>,
    pub reverse_index: Vec<ReverseIndexEntry>,
    pub translation_verses_map: fst::Map<Vec<u8>>,
    pub translation_verses_strings: Vec<String>,
    pub verse_popularity: fst::Map<Vec<u8>>,
}

/// The characters of each string.
pub open spec fn texts_of(strings: Seq<String>) -> Seq<Seq<char>> {
    Seq::new(strings.len(), |i: int| strings[i]@)
}

/// Every transducer of the index file is one that a builder wrote. `fst` reads no other
/// safely: it looks at the header and the checksum of an image and leaves the rest to its
/// caller.
pub open spec fn written_by_builder(data: IndexData) -> bool {
    &&& written(data.fst@)
    &&& written(data.translation_verses@)
    &&& written(data.popularity@)
    &&& forall|i: int|
        0 <= i < data.reverse_index_entries@.len() ==> written(
            (#[trigger] data.reverse_index_entries@[i]).map_bytes@,
        )
}

/// The rows of the index file are sound: every token has postings, and all postings are
/// sound.
pub open spec fn loadable(data: IndexData) -> bool {
    &&& forall|k: Seq<u8>| #[trigger]
        image_contents(data.fst@).dom().contains(k) ==> image_contents(data.fst@)[k]
            < data.reverse_index_entries@.len()
    &&& forall|i: int|
        0 <= i < data.reverse_index_entries@.len() ==> stored_postings(
            #[trigger] data.reverse_index_entries@[i],
        ) is Some
}

impl VersearchIndex {
    /// The number of each token's postings, under the bytes of the token.
    pub open spec fn tokens(&self) -> Map<Seq<u8>, u64> {
        contents(self.fst_map)
    }

    /// The postings of each token.
    pub open spec fn postings(&self) -> Seq<Map<Seq<u8>, Posting>> {
        Seq::new(self.reverse_index@.len(), |i: int| self.reverse_index@[i].postings())
    }

    /// The number of each text, under a translation's number and the bytes of a verse key.
    pub open spec fn verses(&self) -> Map<Seq<u8>, u64> {
        contents(self.translation_verses_map)
    }

    /// The texts.
    pub open spec fn texts(&self) -> Seq<Seq<char>> {
        texts_of(self.translation_verses_strings@)
    }

    /// The number of times each verse is cited, under the bytes of its key.
    pub open spec fn popularity(&self) -> Map<Seq<u8>, u64> {
        contents(self.verse_popularity)
    }

    /// Every verse in the postings of a token has the token in one of the translations. An
    /// index that was built is so.
    pub open spec fn counted(&self) -> bool {
        forall|i: int|
            0 <= i < self.postings().len() ==> every_row_counts(#[trigger] self.postings()[i])
    }

    /// The transducers are ones that a builder wrote, every token has postings, and all
    /// postings are well formed.
    pub open spec fn wf(&self) -> bool {
        &&& intact(self.fst_map)
        &&& intact(self.translation_verses_map)
        &&& intact(self.verse_popularity)
        &&& forall|k: Seq<u8>| #[trigger]
            self.tokens().dom().contains(k) ==> self.tokens()[k] < self.reverse_index@.len()
        &&& forall|i: int|
            0 <= i < self.reverse_index@.len() ==> (#[trigger] self.reverse_index@[i]).wf()
    }

    /// The index holds finitely many tokens, verses and citation counts, and the postings
    /// of each token hold finitely many verses.
    pub proof fn lemma_index_is_finite(&self, i: int)
        ensures
            self.tokens().dom().finite(),
            self.verses().dom().finite(),
            self.popularity().dom().finite(),
            0 <= i < self.postings().len() ==> self.postings()[i].dom().finite(),
    {
        lemma_contents_finite(fst_bytes(self.fst_map));
        lemma_contents_finite(fst_bytes(self.translation_verses_map));
        lemma_contents_finite(fst_bytes(self.verse_popularity));
        if 0 <= i < self.postings().len() {
            lemma_contents_finite(fst_bytes(self.reverse_index@[i].map));
            assert(self.postings()[i].dom() =~= contents(self.reverse_index@[i].map).dom());
        }
    }

    /// Loads an index file whose transducers a builder wrote. A file whose rows are not
    /// sound is refused. So is a file with a transducer that `fst` refuses by its header or
    /// by its checksum; `fst` reads no other transducer safely than one that a builder
    /// wrote, and that much is asked of the caller.
    pub fn from_index_data_proto_struct(index_data: IndexData) -> (r: Result<
        VersearchIndex,
        LoadError,
    >)
        requires
            written_by_builder(index_data),
        ensures
            match r {
                Ok(index) => {
                    &&& loadable(index_data)
                    &&& index.wf()
                    &&& index.tokens() == image_contents(index_data.fst@)
                    &&& index.verses() == image_contents(index_data.translation_verses@)
                    &&& index.popularity() == image_contents(index_data.popularity@)
                    &&& index.translation_verses_strings
                        == index_data.translation_verses_strings
                    &&& index.reverse_index@.len() == index_data.reverse_index_entries@.len()
                    &&& forall|i: int|
                        0 <= i < index.reverse_index@.len() ==> Some(
                            #[trigger] index.postings()[i],
                        ) == stored_postings(index_data.reverse_index_entries@[i])
                },
                Err(_) => !loadable(index_data),
            },
    {
        let ghost data = index_data;
        let fst_map = match map_new(index_data.fst) {
            Ok(map) => map,
            Err(_) => {
                return Err(LoadError::new());
            },
        };
        if map_verify(&fst_map).is_err() {
            return Err(LoadError::new());
        }
        let translation_verses_map = match map_new(index_data.translation_verses) {
            Ok(map) => map,
            Err(_) => {
                return Err(LoadError::new());
            },
        };
        if map_verify(&translation_verses_map).is_err() {
            return Err(LoadError::new());
        }
        let verse_popularity = match map_new(index_data.popularity) {
            Ok(map) => map,
            Err(_) => {
                return Err(LoadError::new());
            },
        };
        if map_verify(&verse_popularity).is_err() {
            return Err(LoadError::new());
        }
        let ghost tokens = contents(fst_map);
        let stored = index_data.reverse_index_entries;
        let count = stored.len();
        let mut reverse_index: Vec<ReverseIndexEntry> = Vec::new();
        let mut i: usize = 0;
        while i < count
            invariant
                i <= count,
                count == stored@.len(),
                stored == data.reverse_index_entries,
                data == index_data,
                written_by_builder(data),
                reverse_index@.len() == i,
                forall|j: int|
                    0 <= j < i ==> (#[trigger] reverse_index@[j]).wf() && stored_postings(
                        stored@[j],
                    ) == Some(reverse_index@[j].postings()),
            decreases count - i,
        {
            assert(written(data.reverse_index_entries@[i as int].map_bytes@));
            match ReverseIndexEntry::from_bytes_struct(&stored[i]) {
                Ok(entry) => {
                    reverse_index.push(entry);
                },
                Err(_) => {
                    assert(stored_postings(data.reverse_index_entries@[i as int]) is None);
                    return Err(LoadError::new());
                },
            }
            i = i + 1;
        }
        let entries = map_entries(&fst_map);
        let mut j: usize = 0;
        while j < entries.len()
            invariant
                j <= entries.len(),
                count == data.reverse_index_entries@.len(),
                data == index_data,
                image_contents(data.fst@) == tokens,
                lists_matches(entries.deep_view(), tokens, Set::full()),
                forall|h: int| 0 <= h < j ==> (#[trigger] entries.deep_view()[h]).1 < count,
            decreases entries.len() - j,
        {
            let ghost e = entries.deep_view()[j as int];
            assert(e.0 == entries@[j as int].0@ && e.1 == entries@[j as int].1);
            assert(tokens.contains_pair(e.0, e.1));
            if entries[j].1 >= count as u64 {
                assert(tokens.dom().contains(e.0) && tokens[e.0] == e.1);
                assert(image_contents(index_data.fst@).dom().contains(e.0));
                assert(image_contents(index_data.fst@)[e.0] >= index_data.reverse_index_entries@.len());
                assert(!loadable(index_data));
                return Err(LoadError::new());
            }
            j = j + 1;
        }
        assert forall|k: Seq<u8>| #[trigger] tokens.dom().contains(k) implies tokens[k]
            < count by {
            assert(Set::<Seq<u8>>::full().contains(k));
            let h = choose|h: int|
                0 <= h < entries.deep_view().len() && (#[trigger] entries.deep_view()[h]).0 == k;
            assert(tokens.contains_pair(entries.deep_view()[h].0, entries.deep_view()[h].1));
        }
        let index = VersearchIndex {
            fst_map,
            reverse_index,
            translation_verses_map,
            translation_verses_strings: index_data.translation_verses_strings,
            verse_popularity,
        };
        proof {
            assert forall|i: int| 0 <= i < index.reverse_index@.len() implies Some(
                #[trigger] index.postings()[i],
            ) == stored_postings(index_data.reverse_index_entries@[i]) by {
                assert(index.reverse_index@[i].wf());
            }
            assert forall|i: int|
                0 <= i < index_data.reverse_index_entries@.len() implies stored_postings(
                #[trigger] index_data.reverse_index_entries@[i],
            ) is Some by {
                assert(index.reverse_index@[i].wf());
            }
        }
        Ok(index)
    }
}

} // verus!
