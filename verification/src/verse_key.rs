//! The identifier of a verse and its form in three bytes.

use crate::book::Book;
use crate::error::DataInputError;
use crate::lex::{first_difference, lex_lt};
use vstd::prelude::*;

verus! {

/// Book, chapter and verse. The book is its place in the canonical order.
///
/// A key is written as three bytes, one for each field, so each field of a key that enters
/// an index fits in a byte: see [`VerseKey::is_valid`].
#[derive(Clone, Copy, Debug, PartialEq, Eq, Structural, PartialOrd, Ord, Hash)]
pub struct VerseKey {
    pub book: i32,
    pub chapter: u32,
    pub verse: u32,
}

impl VerseKey {
    /// Each field fits in one byte.
    pub open spec fn is_valid(self) -> bool {
        0 <= self.book <= 255 && self.chapter <= 255 && self.verse <= 255
    }

    /// The three bytes of a key: book, chapter, verse.
    pub open spec fn bytes(self) -> Seq<u8> {
        seq![self.book as u8, self.chapter as u8, self.verse as u8]
    }

    /// The key that three bytes stand for.
    pub open spec fn of_bytes(bytes: Seq<u8>) -> VerseKey {
        VerseKey { book: bytes[0] as i32, chapter: bytes[1] as u32, verse: bytes[2] as u32 }
    }

    /// The order of keys: by book, then by chapter, then by verse.
    pub open spec fn precedes(self, other: VerseKey) -> bool {
        self.book < other.book || (self.book == other.book && (self.chapter < other.chapter || (
        self.chapter == other.chapter && self.verse < other.verse)))
    }

    /// Tells whether each field fits in one byte.
    pub fn fits(&self) -> (b: bool)
        ensures
            b == self.is_valid(),
    {
        0 <= self.book && self.book <= 255 && self.chapter <= 255 && self.verse <= 255
    }

    /// The number of bytes in the written form of a key.
    pub fn get_byte_size() -> (n: usize)
        ensures
            n == 3,
    {
        3
    }

    /// Writes the key as three bytes.
    pub fn to_be_bytes(&self) -> (v: Vec<u8>)
        requires
            self.is_valid(),
        ensures
            v@ == self.bytes(),
            v@.len() == 3,
            VerseKey::of_bytes(v@) == *self,
    {
        let mut v: Vec<u8> = Vec::with_capacity(3);
        v.push(self.book as u8);
        v.push(self.chapter as u8);
        v.push(self.verse as u8);
        assert(v@ =~= self.bytes());
        v
    }

    /// Reads a key from its first three bytes.
    pub fn from_be_bytes(bytes: &[u8]) -> (key: VerseKey)
        requires
            bytes@.len() >= 3,
        ensures
            key == VerseKey::of_bytes(bytes@),
            key.is_valid(),
            key.bytes() == bytes@.subrange(0, 3),
    {
        let key = VerseKey {
            book: bytes[0] as i32,
            chapter: bytes[1] as u32,
            verse: bytes[2] as u32,
        };
        assert(key.bytes() =~= bytes@.subrange(0, 3));
        key
    }

    /// The key of a verse whose book is given by name, as a translation file spells it. A
    /// name that is no book's is refused.
    pub fn from(book: &str, chapter: u8, verse: u8) -> (r: Result<VerseKey, DataInputError>)
        ensures
            match r {
                Ok(key) => Book::of_short_name(book@) is Some && key == (VerseKey {
                    book: Book::of_short_name(book@)->0.spec_ordinal() as i32,
                    chapter: chapter as u32,
                    verse: verse as u32,
                }) && key.is_valid(),
                Err(_) => Book::of_short_name(book@) is None,
            },
    {
        match Book::from_str(book) {
            Ok(b) => Ok(VerseKey { book: b.ordinal(), chapter: chapter as u32, verse: verse as u32 }),
            Err(e) => Err(e),
        }
    }
}

/// The key under which the text of a verse in one translation is kept: the number of the
/// translation, then the three bytes of the verse key.
pub open spec fn text_key(tidx: u8, vkey: VerseKey) -> Seq<u8> {
    seq![tidx] + vkey.bytes()
}

/// Makes the key under which the text of a verse in one translation is kept.
pub fn translation_verses_bytes_key(tidx: u8, vkey: &VerseKey) -> (v: Vec<u8>)
    requires
        vkey.is_valid(),
    ensures
        v@ == text_key(tidx, *vkey),
        v@.len() == 4,
{
    let mut v: Vec<u8> = Vec::with_capacity(1 + VerseKey::get_byte_size());
    v.push(tidx);
    v.push(vkey.book as u8);
    v.push(vkey.chapter as u8);
    v.push(vkey.verse as u8);
    assert(v@ =~= text_key(tidx, *vkey));
    v
}

/// A valid key comes back unchanged from its three bytes.
pub proof fn lemma_key_round_trip(key: VerseKey)
    requires
        key.is_valid(),
    ensures
        VerseKey::of_bytes(key.bytes()) == key,
        key.bytes().len() == 3,
{
}

/// Three bytes come back unchanged from the key that they stand for.
pub proof fn lemma_bytes_round_trip(bytes: Seq<u8>)
    requires
        bytes.len() == 3,
    ensures
        VerseKey::of_bytes(bytes).is_valid(),
        VerseKey::of_bytes(bytes).bytes() == bytes,
{
    assert(VerseKey::of_bytes(bytes).bytes() =~= bytes);
}

/// Valid keys stand in the same order as their bytes.
pub proof fn lemma_key_order_is_byte_order(a: VerseKey, b: VerseKey)
    requires
        a.is_valid(),
        b.is_valid(),
    ensures
        a.precedes(b) <==> lex_lt(a.bytes(), b.bytes()),
{
    let x = a.bytes();
    let y = b.bytes();
    let k: int = if x[0] != y[0] {
        0
    } else if x[1] != y[1] {
        1
    } else if x[2] != y[2] {
        2
    } else {
        3
    };
    assert(first_difference(x, y, k));
    crate::lex::lemma_order_at_difference(x, y, k);
}

} // verus!
