//! Scripture references in free text, such as `John 3:16` or `Jude 3`.

use crate::idset::{increasing, insert_id};
use crate::table::{ensure, entry_keys, has_key, lemma_gap, lemma_place_in, place_in, Table};
use crate::text::{chars_of, str_equal, str_to_uppercase, uppercase};
use vstd::slice::slice_to_vec;
use vstd::utf8::encode_utf8;
use vstd::prelude::*;

verus! {

/// What a reference looks like: a book with several chapters, a chapter and a verse; or a
/// book with one chapter and a verse, with or without `1:` before it. Case does not matter.
pub const REFERENCE_PATTERN: &'static str = r"(?ix) # Case insensitive and whitespace insignificant
          # Match multi-chapter books
          (
            (?P<book>
            # Law
              Genesis|
              Exodus|
              Leviticus|
              Numbers|
              Deuteronomy|
            # Old Testament Narrative
              Joshua|
              Judges|
              Ruth|
              (?:First|1)\sSamuel|
              (?:Second|2)\sSamuel|
              (?:First|1)\sKings|
              (?:Second|2)\sKings|
              (?:First|1)\sChronicles|
              (?:Second|2)\sChronicles|
              Ezra|
              Nehemiah|
              Esther|
            # Wisdom Literature
              Job|
              Psalms?| # Match Psalm or Psalms
              Proverbs|
              Ecclesiastes|
              Song of Solomon|
              Isaiah|
              Jeremiah|
              Lamentations|
              Ezekiel|
              Daniel|
            # Minor Prophets|
              Hosea|
              Joel|
              Amos|
              Jonah|
              Micah|
              Nahum|
              Habakkuk|
              Zephaniah|
              Haggai|
              Zechariah|
              Malachi|
            # New Testament Narrative
              Matthew|
              Mark|
              Luke|
              John|
              Acts|
            # Pauline Epistles
              Romans|
              (?:First|1)\sCorinthians|
              (?:Second|2)\sCorinthians|
              Galatians|
              Ephesians|
              Philippians|
              Colossians|
              (?:First|1)\sThessalonians|
              (?:Second|2)\sThessalonians|
              (?:First|1)\sTimothy|
              (?:Second|2)\sTimothy|
              Titus|
              Philemon|
            # General Epistles
              Hebrews|
              James|
              (?:First|1)\sPeter|
              (?:Second|2)\sPeter|
              (?:First|1)\sJohn|
            # Apocalyptic Epistle
              Revelation
            )
            \s?
            (?P<chapter>\d+):(?P<verse>\d+)
          )
          # Match single-chapter books
          |(
            (?P<book_single>
            # Minor Prophets
              Obadiah|
            # Pauline Epistles
              Philemon|
            # General Epistles
              (?:Second|2)\sJohn|
              (?:Third|3)\sJohn|
              Jude
            )
            \s?
            (?:1:)?(?P<verse_single>\d+) # Optionally match `1:` followed by verse
          )";

/// A scripture reference that was found in a text.
#[derive(Clone, Debug, PartialEq, Eq)]
pub struct Match {
    pub book: String,
    pub chapter: u8,
    pub verse: u8,
}

/// The parts of a text that the pattern marks for one reference, each under the name that
/// the pattern gives it.
#[derive(Clone, Debug, PartialEq, Eq)]
pub struct Captured {
    pub book: Option<String>,
    pub chapter: Option<String>,
    pub verse: Option<String>,
    pub book_single: Option<String>,
    pub verse_single: Option<String>,
}

/// The characters of a part, if the part is there.
pub open spec fn part_view(part: Option<String>) -> Option<Seq<char>> {
    match part {
        Some(s) => Some(s@),
        None => None,
    }
}

/// The parts of one reference: book, chapter, verse, book of one chapter, verse of a book of
/// one chapter.
pub open spec fn captured_view(c: Captured) -> (
    Option<Seq<char>>,
    Option<Seq<char>>,
    Option<Seq<char>>,
    Option<Seq<char>>,
    Option<Seq<char>>,
) {
    (
        part_view(c.book),
        part_view(c.chapter),
        part_view(c.verse),
        part_view(c.book_single),
        part_view(c.verse_single),
    )
}

/// The parts of each reference.
pub open spec fn all_captured_view(v: Seq<Captured>) -> Seq<
    (Option<Seq<char>>, Option<Seq<char>>, Option<Seq<char>>, Option<Seq<char>>, Option<Seq<char>>),
> {
    Seq::new(v.len(), |i: int| captured_view(v[i]))
}

/// What the pattern marks in a text: the parts of each reference, from left to right, as the
/// `regex` crate finds them.
pub uninterp spec fn reference_captures(input: Seq<char>) -> Seq<
    (Option<Seq<char>>, Option<Seq<char>>, Option<Seq<char>>, Option<Seq<char>>, Option<Seq<char>>),
>;

/// A text in which every `from` is replaced by `to`, as `str::replace` writes it.
pub uninterp spec fn replaced(s: Seq<char>, from: Seq<char>, to: Seq<char>) -> Seq<char>;

/// `regex::Regex::captures_iter` with the pattern above, read to its end: for each match the
/// text of each named group.
#[verifier::external_body]
pub(crate) fn capture_references(input: &str) -> (r: Vec<Captured>)
    ensures
        all_captured_view(r@) == reference_captures(input@),
{
    let group = |c: &regex::Captures, n: &str| c.name(n).map(|m| m.as_str().to_string());
    match regex::Regex::new(REFERENCE_PATTERN) {
        Ok(re) => re.captures_iter(input).map(
            |c| Captured {
                book: group(&c, "book"),
                chapter: group(&c, "chapter"),
                verse: group(&c, "verse"),
                book_single: group(&c, "book_single"),
                verse_single: group(&c, "verse_single"),
            },
        ).collect(),
        Err(_) => Vec::new(),
    }
}

/// `str::replace`.
#[verifier::external_body]
pub(crate) fn str_replace(s: &str, from: &str, to: &str) -> (r: String)
    ensures
        r@ == replaced(s@, from@, to@),
{
    s.replace(from, to)
}

/// The number that digits spell, if it fits in a byte.
pub open spec fn byte_of_digits(s: Seq<char>, n: int) -> Option<u8>
    decreases n,
{
    if n <= 0 {
        Some(0)
    } else {
        match byte_of_digits(s, n - 1) {
            None => None,
            Some(v) => if '0' <= s[n - 1] && s[n - 1] <= '9' && v * 10 + ((s[n - 1] as u32) - ('0'
                as u32)) <= 255 {
                Some((v * 10 + ((s[n - 1] as u32) - ('0' as u32))) as u8)
            } else {
                None
            },
        }
    }
}

/// The number that a text spells, if the text is made of ASCII digits, one at least, and the
/// number fits in a byte.
pub open spec fn byte_of(s: Seq<char>) -> Option<u8> {
    if s.len() == 0 {
        None
    } else {
        byte_of_digits(s, s.len() as int)
    }
}

/// Reads a number that fits in a byte.
pub fn parse_byte(s: &str) -> (r: Option<u8>)
    ensures
        r == byte_of(s@),
{
    let chars = chars_of(s);
    if chars.len() == 0 {
        return None;
    }
    let mut value: u8 = 0;
    let mut i: usize = 0;
    while i < chars.len()
        invariant
            i <= chars.len(),
            chars@ == s@,
            chars@.len() > 0,
            byte_of_digits(chars@, i as int) == Some(value),
        decreases chars.len() - i,
    {
        let c = chars[i];
        if !('0' <= c && c <= '9') {
            proof {
                lemma_no_byte_stays(chars@, i + 1, chars@.len() as int);
            }
            return None;
        }
        let digit = c as u32 - '0' as u32;
        if value as u32 * 10 + digit > 255 {
            proof {
                lemma_no_byte_stays(chars@, i + 1, chars@.len() as int);
            }
            return None;
        }
        value = (value as u32 * 10 + digit) as u8;
        i = i + 1;
    }
    Some(value)
}

/// Once the first digits spell no byte, no more digits do.
pub proof fn lemma_no_byte_stays(s: Seq<char>, n: int, m: int)
    requires
        byte_of_digits(s, n) is None,
        n <= m,
    ensures
        byte_of_digits(s, m) is None,
    decreases m - n,
{
    if n < m {
        lemma_no_byte_stays(s, n, m - 1);
    }
}

/// The name under which a book is counted: in capitals, with a digit for the number of the
/// book, and `PSALMS` for a single psalm.
pub open spec fn book_label(name: Seq<char>) -> Seq<char> {
    let label = replaced(
        replaced(replaced(uppercase(name), "FIRST"@, "1"@), "SECOND"@, "2"@),
        "THIRD"@,
        "3"@,
    );
    if label == "PSALM"@ {
        "PSALMS"@
    } else {
        label
    }
}

/// The reference that the parts of a match stand for: the book, or else the book of one
/// chapter; the chapter, or else 1; the verse, or else the verse of a book of one chapter.
/// There is none where book or verse is missing or where a number does not fit in a byte.
pub open spec fn reference_of(
    c: (Option<Seq<char>>, Option<Seq<char>>, Option<Seq<char>>, Option<Seq<char>>, Option<Seq<char>>),
) -> Option<(Seq<char>, u8, u8)> {
    let book = if c.0 is Some {
        c.0
    } else {
        c.3
    };
    let chapter = match c.1 {
        Some(text) => byte_of(text),
        None => Some(1u8),
    };
    let verse = match c.2 {
        Some(text) => byte_of(text),
        None => match c.4 {
            Some(text) => byte_of(text),
            None => None,
        },
    };
    if book is Some && chapter is Some && verse is Some {
        Some((book_label(book->0), chapter->0, verse->0))
    } else {
        None
    }
}

/// The references among the first `n` matches, in order.
pub open spec fn references_upto(
    all: Seq<
        (
            Option<Seq<char>>,
            Option<Seq<char>>,
            Option<Seq<char>>,
            Option<Seq<char>>,
            Option<Seq<char>>,
        ),
    >,
    n: int,
) -> Seq<(Seq<char>, u8, u8)>
    decreases n,
{
    if n <= 0 {
        Seq::empty()
    } else {
        match reference_of(all[n - 1]) {
            Some(r) => references_upto(all, n - 1).push(r),
            None => references_upto(all, n - 1),
        }
    }
}

/// What each reference says.
pub open spec fn matches_view(v: Seq<Match>) -> Seq<(Seq<char>, u8, u8)> {
    Seq::new(v.len(), |i: int| (v[i].book@, v[i].chapter, v[i].verse))
}

/// What the pattern marks in a text: the parts of each reference, from left to right.
pub fn captures(input: &str) -> (r: Vec<Captured>)
    ensures
        all_captured_view(r@) == reference_captures(input@),
{
    capture_references(input)
}

/// Makes the reference that the parts of a match stand for.
pub fn to_match(c: &Captured) -> (r: Option<Match>)
    ensures
        match r {
            Some(m) => reference_of(captured_view(*c)) == Some((m.book@, m.chapter, m.verse)),
            None => reference_of(captured_view(*c)) is None,
        },
{
    let name: &str = match &c.book {
        Some(book) => book.as_str(),
        None => match &c.book_single {
            Some(book) => book.as_str(),
            None => {
                return None;
            },
        },
    };
    let chapter: u8 = match &c.chapter {
        Some(text) => match parse_byte(text.as_str()) {
            Some(n) => n,
            None => {
                return None;
            },
        },
        None => 1,
    };
    let verse_text: &str = match &c.verse {
        Some(text) => text.as_str(),
        None => match &c.verse_single {
            Some(text) => text.as_str(),
            None => {
                return None;
            },
        },
    };
    let verse: u8 = match parse_byte(verse_text) {
        Some(n) => n,
        None => {
            return None;
        },
    };
    let upper = str_to_uppercase(name);
    let first = str_replace(upper.as_str(), "FIRST", "1");
    let second = str_replace(first.as_str(), "SECOND", "2");
    let label = str_replace(second.as_str(), "THIRD", "3");
    let book = if str_equal(label.as_str(), "PSALM") {
        "PSALMS".to_owned()
    } else {
        label
    };
    Some(Match { book, chapter, verse })
}

/// Finds what looks like scripture references in a text and gives them in the order in
/// which they stand. A match whose chapter or verse does not fit in a byte is passed over.
pub fn get_matches(input: &str) -> (r: Vec<Match>)
    ensures
        matches_view(r@) == references_upto(
            reference_captures(input@),
            reference_captures(input@).len() as int,
        ),
{
    let found = capture_references(input);
    let ghost all = all_captured_view(found@);
    let mut out: Vec<Match> = Vec::new();
    let mut i: usize = 0;
    assert(matches_view(out@) =~= references_upto(all, 0));
    while i < found.len()
        invariant
            i <= found.len(),
            all == all_captured_view(found@),
            matches_view(out@) == references_upto(all, i as int),
        decreases found.len() - i,
    {
        let ghost before = matches_view(out@);
        assert(all[i as int] == captured_view(found@[i as int]));
        match to_match(&found[i]) {
            Some(m) => {
                out.push(m);
                assert(matches_view(out@) =~= before.push(reference_of(all[i as int])->0));
            },
            None => {},
        }
        i = i + 1;
    }
    out
}

/// A reference and the pages on which it was seen, each page once.
#[derive(Clone, Debug, PartialEq, Eq)]
pub struct Sighting {
    pub reference: Match,
    /// The numbers of the pages, in increasing order.
    pub pages: Vec<u64>,
}

/// A reference and the number of pages on which it was seen.
#[derive(Clone, Debug, PartialEq, Eq)]
pub struct Counted {
    pub book: String,
    pub chapter: u8,
    pub verse: u8,
    pub count: usize,
}

/// The references that were seen, by book, chapter and verse, with the pages on which each
/// was seen.
#[derive(Debug)]
pub struct Sightings {
    pub table: Table<Sighting>,
}

/// The key under which a reference is kept: the bytes of the book, a zero byte, the chapter
/// and the verse. Keys stand in the order of book, chapter and verse.
pub open spec fn sighting_key(book: Seq<char>, chapter: u8, verse: u8) -> Seq<u8> {
    encode_utf8(book) + seq![0u8, chapter, verse]
}

/// What is kept for each reference: the reference and its pages.
pub open spec fn sightings_view(t: Table<Sighting>) -> Seq<
    (Seq<u8>, ((Seq<char>, u8, u8), Seq<u64>)),
> {
    Seq::new(
        t.keys@.len(),
        |i: int|
            (
                t.keys@[i]@,
                (
                    (
                        t.values@[i].reference.book@,
                        t.values@[i].reference.chapter,
                        t.values@[i].reference.verse,
                    ),
                    t.values@[i].pages@,
                ),
            ),
    )
}

/// What is kept after a reference was seen on a page: the reference has an entry, and the
/// page is among its pages.
pub open spec fn seen_on(
    list: Seq<(Seq<u8>, ((Seq<char>, u8, u8), Seq<u64>))>,
    reference: (Seq<char>, u8, u8),
    pages: Seq<u64>,
) -> Seq<(Seq<u8>, ((Seq<char>, u8, u8), Seq<u64>))> {
    let key = sighting_key(reference.0, reference.1, reference.2);
    let with_entry = ensure(list, key, (reference, Seq::empty()));
    let at = place_in(with_entry, key);
    with_entry.update(at, (key, (with_entry[at].1.0, pages)))
}

impl Sightings {
    /// The table is in key order, and the pages of every reference increase.
    pub open spec fn wf(&self) -> bool {
        &&& self.table.wf()
        &&& forall|i: int|
            0 <= i < self.table.values@.len() ==> increasing(
                (#[trigger] self.table.values@[i]).pages@,
            )
    }

    /// Nothing seen.
    pub fn new() -> (s: Sightings)
        ensures
            s.wf(),
            s.table.keys@.len() == 0,
    {
        Sightings { table: Table::new() }
    }

    /// Takes note that a reference was seen on the page with the number `page`.
    pub fn note(&mut self, reference: &Match, page: u64)
        requires
            old(self).wf(),
        ensures
            final(self).wf(),
            exists|pages: Seq<u64>|
                #![trigger pages.to_set()]
                increasing(pages) && pages.to_set() == value_pages(
                    sightings_view(old(self).table),
                    sighting_key(reference.book@, reference.chapter, reference.verse),
                ).to_set().insert(page) && sightings_view(final(self).table) == seen_on(
                    sightings_view(old(self).table),
                    (reference.book@, reference.chapter, reference.verse),
                    pages,
                ),
    {
        let mut key = slice_to_vec(reference.book.as_str().as_bytes());
        key.push(0);
        key.push(reference.chapter);
        key.push(reference.verse);
        let ghost k = sighting_key(reference.book@, reference.chapter, reference.verse);
        assert(key@ =~= k);
        let ghost before = self.table;
        let ghost list = sightings_view(before);
        assert(entry_keys(list) =~= before.key_list());
        let fresh = Sighting { reference: reference.clone_match(), pages: Vec::new() };
        let at = self.table.ensure_entry(key.as_slice(), fresh);
        let ghost mid = self.table;
        let ghost with_entry = sightings_view(mid);
        proof {
            let r = (reference.book@, reference.chapter, reference.verse);
            if before.holds(k) {
                let i = before.place_of(k);
                assert(list[i].0 == k);
                assert(with_entry =~= list);
            } else {
                lemma_gap(list, k, at as int);
                assert(with_entry =~= list.insert(at as int, (k, (r, Seq::empty()))));
                assert forall|i: int| 0 <= i < mid.values@.len() implies increasing(
                    (#[trigger] mid.values@[i]).pages@,
                ) by {
                    if i < at {
                        assert(mid.values@[i] == before.values@[i]);
                    } else if i > at {
                        assert(mid.values@[i] == before.values@[i - 1]);
                    }
                }
            }
            assert(with_entry == ensure(list, k, (r, Seq::empty())));
            assert(entry_keys(with_entry) =~= mid.key_list());
            lemma_place_in(with_entry, at as int);
            if has_key(list, k) {
                lemma_place_in(list, at as int);
            }
            assert(with_entry[at as int].1.1 == value_pages(list, k));
        }
        insert_id(&mut self.table.values[at].pages, page);
        proof {
            let pages = self.table.values@[at as int].pages@;
            assert(self.table.key_list() =~= mid.key_list());
            assert(sightings_view(self.table) =~= with_entry.update(
                at as int,
                (k, (with_entry[at as int].1.0, pages)),
            ));
            assert forall|i: int| 0 <= i < self.table.values@.len() implies increasing(
                (#[trigger] self.table.values@[i]).pages@,
            ) by {
                if i != at {
                    assert(self.table.values@[i] == mid.values@[i]);
                }
            }
            assert(pages.to_set() == value_pages(list, k).to_set().insert(page));
        }
    }

    /// Gives each reference that was seen, in the order of book, chapter and verse, with
    /// the number of pages on which it was seen.
    pub fn make_counts_map(&self) -> (counts: Vec<Counted>)
        requires
            self.wf(),
        ensures
            counts@.len() == self.table.values@.len(),
            forall|i: int|
                0 <= i < counts@.len() ==> (#[trigger] counts@[i]).book@
                    == self.table.values@[i].reference.book@ && counts@[i].chapter
                    == self.table.values@[i].reference.chapter && counts@[i].verse
                    == self.table.values@[i].reference.verse && counts@[i].count
                    == self.table.values@[i].pages@.len(),
    {
        let mut counts: Vec<Counted> = Vec::with_capacity(self.table.values.len());
        let mut i: usize = 0;
        while i < self.table.values.len()
            invariant
                i <= self.table.values@.len(),
                counts@.len() == i,
                forall|j: int|
                    0 <= j < i ==> (#[trigger] counts@[j]).book@
                        == self.table.values@[j].reference.book@ && counts@[j].chapter
                        == self.table.values@[j].reference.chapter && counts@[j].verse
                        == self.table.values@[j].reference.verse && counts@[j].count
                        == self.table.values@[j].pages@.len(),
            decreases self.table.values@.len() - i,
        {
            let seen = &self.table.values[i];
            counts.push(
                Counted {
                    book: seen.reference.book.clone(),
                    chapter: seen.reference.chapter,
                    verse: seen.reference.verse,
                    count: seen.pages.len(),
                },
            );
            i = i + 1;
        }
        counts
    }
}

/// The pages that are kept under a key; none where nothing is kept under it.
pub open spec fn value_pages(
    list: Seq<(Seq<u8>, ((Seq<char>, u8, u8), Seq<u64>))>,
    key: Seq<u8>,
) -> Seq<u64> {
    if has_key(list, key) {
        list[place_in(list, key)].1.1
    } else {
        Seq::empty()
    }
}

impl Match {
    /// The same reference again.
    pub fn clone_match(&self) -> (m: Match)
        ensures
            m.book@ == self.book@,
            m.chapter == self.chapter,
            m.verse == self.verse,
    {
        Match { book: self.book.clone(), chapter: self.chapter, verse: self.verse }
    }
}

} // verus!
