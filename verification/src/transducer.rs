//! The finite-state transducers of the `fst` crate, as the engine sees them: an immutable
//! map from byte strings to numbers that is read in key order, and a builder that is fed in
//! key order.
//!
//! Nothing in this file is proved. Each function below makes one call into `fst`, and its
//! contract says what that call does, over the spec functions declared here. `fst` leaves it
//! to its caller that an image is a transducer, and may panic while it reads one that is
//! not: so every function that reads asks for a map made from an image that a builder
//! wrote.

use crate::lex::{lex_lt, starts_with, strictly_sorted};
use fst::{Automaton, IntoStreamer};
use vstd::prelude::*;
use vstd::string::StringSliceAdditionalSpecFns;

verus! {

/// `fst::Map`: a transducer that is read. Nothing is known of what is inside a value but
/// what the functions below say.
#[verifier::external_type_specification]
#[verifier::external_body]
#[verifier::reject_recursive_types(D)]
pub struct ExFstMap<D>(fst::Map<D>);

/// `fst::MapBuilder`: a transducer that is being written.
#[verifier::external_type_specification]
#[verifier::external_body]
#[verifier::reject_recursive_types(W)]
pub struct ExFstMapBuilder<W>(fst::MapBuilder<W>);

/// `fst::Error`: why `fst` refused an image or a key.
#[verifier::external_type_specification]
#[verifier::external_body]
pub struct ExFstError(fst::Error);

/// `fst::automaton::Levenshtein`: an automaton that accepts the keys near a word.
#[verifier::external_type_specification]
#[verifier::external_body]
pub struct ExLevenshtein(fst::automaton::Levenshtein);

/// The bytes that a map was made from.
pub uninterp spec fn fst_bytes(m: fst::Map<Vec<u8>>) -> Seq<u8>;

/// The image that a builder writes after it was given `entries` in this order.
pub uninterp spec fn fst_image(entries: Seq<(Seq<u8>, u64)>) -> Seq<u8>;

/// The entries that a builder has taken so far, in the order in which they came.
pub uninterp spec fn builder_entries(b: fst::MapBuilder<Vec<u8>>) -> Seq<(Seq<u8>, u64)>;

/// The byte strings that the automaton for `query` and `distance` accepts; nothing where
/// `fst` gives up building it.
pub uninterp spec fn edit_distance_language(query: Seq<char>, distance: u32) -> Option<
    Set<Seq<u8>>,
>;

/// The byte strings that an automaton accepts.
pub uninterp spec fn automaton_language(a: fst::automaton::Levenshtein) -> Set<Seq<u8>>;

/// `image` is what a builder wrote after it was given `entries`, which came in key order.
pub open spec fn is_source(entries: Seq<(Seq<u8>, u64)>, image: Seq<u8>) -> bool {
    strictly_sorted(keys_of(entries)) && image == fst_image(entries)
}

/// A builder wrote the image. `fst` reads no other image safely: it looks at the header and
/// the checksum of what it is given, and leaves it to its caller that the bytes between
/// them are a transducer.
pub open spec fn written(image: Seq<u8>) -> bool {
    exists|entries: Seq<(Seq<u8>, u64)>| is_source(entries, image)
}

/// Entries from which a builder wrote the image.
pub open spec fn source_of(image: Seq<u8>) -> Seq<(Seq<u8>, u64)> {
    choose|entries: Seq<(Seq<u8>, u64)>| is_source(entries, image)
}

/// What an image that a builder wrote holds.
pub open spec fn image_contents(image: Seq<u8>) -> Map<Seq<u8>, u64> {
    map_of(source_of(image))
}

/// The map was made from an image that a builder wrote.
pub open spec fn intact(m: fst::Map<Vec<u8>>) -> bool {
    written(fst_bytes(m))
}

/// The entries of a map that was made from an image that a builder wrote.
pub open spec fn contents(m: fst::Map<Vec<u8>>) -> Map<Seq<u8>, u64> {
    image_contents(fst_bytes(m))
}

/// What a map gives for a key.
pub open spec fn lookup(entries: Map<Seq<u8>, u64>, key: Seq<u8>) -> Option<u64> {
    if entries.dom().contains(key) {
        Some(entries[key])
    } else {
        None
    }
}

/// The keys of a list of entries.
pub open spec fn keys_of(list: Seq<(Seq<u8>, u64)>) -> Seq<Seq<u8>> {
    Seq::new(list.len(), |i: int| list[i].0)
}

/// The finite map that a list of entries stands for.
pub open spec fn map_of(list: Seq<(Seq<u8>, u64)>) -> Map<Seq<u8>, u64> {
    Map::new(
        |k: Seq<u8>| exists|i: int| 0 <= i < list.len() && #[trigger] list[i].0 == k,
        |k: Seq<u8>| list[choose|i: int| 0 <= i < list.len() && #[trigger] list[i].0 == k].1,
    )
}

/// `list` holds, in key order and once each, the entries of `entries` whose key is in
/// `language`.
pub open spec fn lists_matches(
    list: Seq<(Seq<u8>, u64)>,
    entries: Map<Seq<u8>, u64>,
    language: Set<Seq<u8>>,
) -> bool {
    &&& strictly_sorted(keys_of(list))
    &&& forall|i: int|
        0 <= i < list.len() ==> language.contains(#[trigger] list[i].0) && entries.contains_pair(
            list[i].0,
            list[i].1,
        )
    &&& forall|k: Seq<u8>|
        entries.dom().contains(k) && language.contains(k) ==> exists|i: int|
            0 <= i < list.len() && #[trigger] list[i].0 == k
}

/// The byte strings that begin with `prefix`.
pub open spec fn prefix_language(prefix: Seq<u8>) -> Set<Seq<u8>> {
    Set::new(|k: Seq<u8>| starts_with(k, prefix))
}

/// A builder takes a key that comes after the last one it took.
pub open spec fn takes_next(entries: Seq<(Seq<u8>, u64)>, key: Seq<u8>) -> bool {
    entries.len() == 0 || lex_lt(entries.last().0, key)
}

/// `fst::Map::new`. It looks at the header and the footer of the image only. It takes every
/// image that a builder wrote, and the map that it gives is made from the bytes it was
/// given.
#[verifier::external_body]
pub(crate) fn map_new(image: Vec<u8>) -> (r: Result<fst::Map<Vec<u8>>, fst::Error>)
    ensures
        match r {
            Ok(m) => fst_bytes(m) == image@,
            Err(_) => !written(image@),
        },
{
    fst::Map::new(image)
}

/// `fst::raw::Fst::verify`. It computes the checksum over the image and holds it against the
/// one stored at its end. An image that a builder wrote passes; that an image passes says
/// nothing of it.
#[verifier::external_body]
pub(crate) fn map_verify(m: &fst::Map<Vec<u8>>) -> (r: Result<(), fst::Error>)
    ensures
        r is Err ==> !intact(*m),
{
    m.as_fst().verify()
}

/// `fst::Map::get` on a map made from an image that a builder wrote: the value under `key`
/// among the entries that the builder was given, if the key is among them.
#[verifier::external_body]
pub(crate) fn fst_get(m: &fst::Map<Vec<u8>>, key: &[u8]) -> (r: Option<u64>)
    requires
        intact(*m),
    ensures
        forall|entries: Seq<(Seq<u8>, u64)>| #[trigger]
            is_source(entries, fst_bytes(*m)) ==> r == lookup(map_of(entries), key@),
{
    m.get(key)
}

/// `fst::Map::stream` on a map made from an image that a builder wrote, read to its end with
/// `into_byte_vec`: the entries that the builder was given, in key order.
#[verifier::external_body]
pub(crate) fn fst_entries(m: &fst::Map<Vec<u8>>) -> (list: Vec<(Vec<u8>, u64)>)
    requires
        intact(*m),
    ensures
        forall|entries: Seq<(Seq<u8>, u64)>| #[trigger]
            is_source(entries, fst_bytes(*m)) ==> lists_matches(
                list.deep_view(),
                map_of(entries),
                Set::full(),
            ),
{
    m.stream().into_byte_vec()
}

/// `fst::Map::search` with the automaton `Str::new(prefix).starts_with()`, on a map made
/// from an image that a builder wrote, read to its end: of the entries that the builder was
/// given, those whose key begins with the bytes of `prefix`, in key order.
#[verifier::external_body]
pub(crate) fn fst_search_prefix(m: &fst::Map<Vec<u8>>, prefix: &str) -> (list: Vec<
    (Vec<u8>, u64),
>)
    requires
        intact(*m),
    ensures
        forall|entries: Seq<(Seq<u8>, u64)>| #[trigger]
            is_source(entries, fst_bytes(*m)) ==> lists_matches(
                list.deep_view(),
                map_of(entries),
                prefix_language(prefix.spec_bytes()),
            ),
{
    m.search(fst::automaton::Str::new(prefix).starts_with()).into_stream().into_byte_vec()
}

/// `fst::automaton::Levenshtein::new`: the automaton that accepts the keys within `distance`
/// edits of `query`, counted in characters. It fails where the automaton grows over the
/// crate's limit of states.
#[verifier::external_body]
pub(crate) fn levenshtein_new(query: &str, distance: u32) -> (r: Option<
    fst::automaton::Levenshtein,
>)
    ensures
        match r {
            Some(a) => edit_distance_language(query@, distance) == Some(automaton_language(a)),
            None => edit_distance_language(query@, distance) is None,
        },
{
    fst::automaton::Levenshtein::new(query, distance).ok()
}

/// `fst::Map::search` with a Levenshtein automaton, on a map made from an image that a
/// builder wrote, read to its end: of the entries that the builder was given, those whose
/// key the automaton accepts, in key order.
#[verifier::external_body]
pub(crate) fn fst_search_automaton(
    m: &fst::Map<Vec<u8>>,
    a: &fst::automaton::Levenshtein,
) -> (list: Vec<(Vec<u8>, u64)>)
    requires
        intact(*m),
    ensures
        forall|entries: Seq<(Seq<u8>, u64)>| #[trigger]
            is_source(entries, fst_bytes(*m)) ==> lists_matches(
                list.deep_view(),
                map_of(entries),
                automaton_language(*a),
            ),
{
    m.search(a).into_stream().into_byte_vec()
}

/// `fst::MapBuilder::memory`: a builder that has taken nothing.
#[verifier::external_body]
pub(crate) fn builder_memory() -> (b: fst::MapBuilder<Vec<u8>>)
    ensures
        builder_entries(b) == Seq::<(Seq<u8>, u64)>::empty(),
{
    fst::MapBuilder::memory()
}

/// `fst::MapBuilder::insert`. The builder takes a key that comes after the last one it took
/// and refuses any other; a refusal leaves it as it was. Writing to memory cannot fail.
#[verifier::external_body]
pub(crate) fn builder_insert(b: &mut fst::MapBuilder<Vec<u8>>, key: &[u8], value: u64) -> (r:
    Result<(), fst::Error>)
    ensures
        r is Ok <==> takes_next(builder_entries(*old(b)), key@),
        r is Ok ==> builder_entries(*final(b)) == builder_entries(*old(b)).push((key@, value)),
        r is Err ==> builder_entries(*final(b)) == builder_entries(*old(b)),
{
    b.insert(key, value)
}

/// `fst::MapBuilder::into_inner`: the finished image. Writing to memory cannot fail. The
/// image is one that `fst` reads back as the entries taken, so no other entries give it.
#[verifier::external_body]
pub(crate) fn builder_into_inner(b: fst::MapBuilder<Vec<u8>>) -> (r: Result<Vec<u8>, fst::Error>)
    ensures
        r is Ok,
        r matches Ok(image) ==> image@ == fst_image(builder_entries(b)),
        r matches Ok(image) ==> forall|other: Seq<(Seq<u8>, u64)>| #[trigger]
            is_source(other, image@) ==> map_of(other) == map_of(builder_entries(b)),
{
    b.into_inner()
}

} // verus!
