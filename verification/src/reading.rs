//! Reading a transducer that a builder wrote: what is read is what the builder was given.

use crate::transducer::{
    automaton_language, contents, fst_bytes, fst_entries, fst_get, fst_search_automaton,
    fst_search_prefix, image_contents, intact, is_source, keys_of, lists_matches, lookup,
    map_of, prefix_language, source_of, written,
};
use vstd::prelude::*;
use vstd::string::StringSliceAdditionalSpecFns;

verus! {

/// The entries that stand for an image that a builder wrote are entries from which a
/// builder writes it.
pub proof fn lemma_source(image: Seq<u8>)
    requires
        written(image),
    ensures
        is_source(source_of(image), image),
{
}

/// The value under `key`, if the map holds the key.
pub fn map_get(m: &fst::Map<Vec<u8>>, key: &[u8]) -> (r: Option<u64>)
    requires
        intact(*m),
    ensures
        r == lookup(contents(*m), key@),
{
    proof {
        lemma_source(fst_bytes(*m));
    }
    fst_get(m, key)
}

/// Every entry of the map, in key order.
pub fn map_entries(m: &fst::Map<Vec<u8>>) -> (list: Vec<(Vec<u8>, u64)>)
    requires
        intact(*m),
    ensures
        lists_matches(list.deep_view(), contents(*m), Set::full()),
{
    proof {
        lemma_source(fst_bytes(*m));
    }
    fst_entries(m)
}

/// The entries whose key begins with the bytes of `prefix`, in key order.
pub fn map_search_prefix(m: &fst::Map<Vec<u8>>, prefix: &str) -> (list: Vec<(Vec<u8>, u64)>)
    requires
        intact(*m),
    ensures
        lists_matches(list.deep_view(), contents(*m), prefix_language(prefix.spec_bytes())),
{
    proof {
        lemma_source(fst_bytes(*m));
    }
    fst_search_prefix(m, prefix)
}

/// The entries whose key the automaton accepts, in key order.
pub fn map_search_automaton(m: &fst::Map<Vec<u8>>, a: &fst::automaton::Levenshtein) -> (list:
    Vec<(Vec<u8>, u64)>)
    requires
        intact(*m),
    ensures
        lists_matches(list.deep_view(), contents(*m), automaton_language(*a)),
{
    proof {
        lemma_source(fst_bytes(*m));
    }
    fst_search_automaton(m, a)
}

/// An image that a builder wrote from entries in key order holds those entries, whatever
/// else might have given the same image.
pub proof fn lemma_contents_of_image(image: Seq<u8>, entries: Seq<(Seq<u8>, u64)>)
    requires
        is_source(entries, image),
        forall|other: Seq<(Seq<u8>, u64)>| #[trigger]
            is_source(other, image) ==> map_of(other) == map_of(entries),
    ensures
        written(image),
        image_contents(image) == map_of(entries),
{
    lemma_source(image);
}

/// What an image holds is finite: no more keys than the entries from which it was
/// written.
pub proof fn lemma_contents_finite(image: Seq<u8>)
    ensures
        image_contents(image).dom().finite(),
        image_contents(image).dom().len() <= source_of(image).len(),
{
    let entries = source_of(image);
    let keys = keys_of(entries);
    assert forall|k: Seq<u8>| map_of(entries).dom().contains(k) <==> keys.to_set().contains(
        k,
    ) by {
        if map_of(entries).dom().contains(k) {
            let i = choose|i: int| 0 <= i < entries.len() && #[trigger] entries[i].0 == k;
            assert(keys[i] == k);
        }
        if keys.to_set().contains(k) {
            let i = choose|i: int| 0 <= i < keys.len() && keys[i] == k;
            assert(entries[i].0 == k);
        }
    }
    assert(map_of(entries).dom() =~= keys.to_set());
    vstd::seq_lib::seq_to_set_is_finite(keys);
    keys.lemma_cardinality_of_set();
}

} // verus!
