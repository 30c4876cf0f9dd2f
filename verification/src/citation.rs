//! Citations: lines of the form `<BOOK> <chapter>:<verse>`, each of which counts once for
//! the verse that it names.

use crate::book::Book;
use crate::corpus::{bump64, numbers_model, Corpus};
use crate::table::{entry_keys, has_key, place_in};
use crate::text::{char_is_whitespace, chars_of, is_whitespace, string_of};
use crate::verse_key::VerseKey;
use vstd::prelude::*;

verus! {

/// An ASCII digit.
pub open spec fn is_digit(c: char) -> bool {
    '0' <= c && c <= '9'
}

/// The number that digits spell.
pub open spec fn digits_value(s: Seq<char>) -> nat
    decreases s.len(),
{
    if s.len() == 0 {
        0
    } else {
        digits_value(s.drop_last()) * 10 + ((s.last() as u32) - ('0' as u32)) as nat
    }
}

/// The number of digits at the end of a text, `max` at most.
pub open spec fn trailing_digits(s: Seq<char>, max: nat) -> nat
    decreases max,
{
    if max == 0 || s.len() == 0 || !is_digit(s.last()) {
        0
    } else {
        1 + trailing_digits(s.drop_last(), (max - 1) as nat)
    }
}

/// The verse that a line cites, if the line is a citation: the name of a book in full and
/// in capitals, one character of white space, one to three digits, a colon, and one to
/// three digits.
pub open spec fn citation_of(line: Seq<char>) -> Option<VerseKey> {
    let n2 = trailing_digits(line, 3);
    let upto_verse = line.subrange(0, line.len() - n2);
    if n2 == 0 || upto_verse.len() == 0 || upto_verse.last() != ':' {
        None
    } else {
        let upto_colon = upto_verse.drop_last();
        let n1 = trailing_digits(upto_colon, 3);
        let upto_chapter = upto_colon.subrange(0, upto_colon.len() - n1);
        if n1 == 0 || upto_chapter.len() == 0 || !is_whitespace(upto_chapter.last()) {
            None
        } else {
            match Book::of_long_name(upto_chapter.drop_last()) {
                None => None,
                Some(book) => Some(
                    VerseKey {
                        book: book.spec_ordinal() as i32,
                        chapter: digits_value(
                            upto_colon.subrange(upto_colon.len() - n1, upto_colon.len() as int),
                        ) as u32,
                        verse: digits_value(line.subrange(line.len() - n2, line.len() as int))
                            as u32,
                    },
                ),
            }
        }
    }
}

/// Counts the digits at the end of the first `end` characters, three at most, and reads
/// the number that they spell.
fn read_trailing_number(chars: &Vec<char>, end: usize) -> (r: (usize, u32))
    requires
        end <= chars@.len(),
    ensures
        r.0 == trailing_digits(chars@.subrange(0, end as int), 3),
        r.0 <= end,
        r.0 <= 3,
        r.1 == digits_value(chars@.subrange(end - r.0, end as int)),
        r.1 <= 999,
{
    let ghost s = chars@.subrange(0, end as int);
    let mut n: usize = 0;
    assert(s.subrange(0, end as int) =~= s);
    while n < 3 && n < end && '0' <= chars[end - n - 1] && chars[end - n - 1] <= '9'
        invariant
            n <= 3,
            n <= end,
            end <= chars@.len(),
            s == chars@.subrange(0, end as int),
            trailing_digits(s, 3) == n + trailing_digits(
                s.subrange(0, end - n),
                (3 - n) as nat,
            ),
            forall|i: int| end - n <= i < end ==> is_digit(#[trigger] chars@[i]),
        decreases 3 - n,
    {
        proof {
            let here = s.subrange(0, end - n);
            assert(here.last() == chars@[end - n - 1]);
            assert(here.drop_last() =~= s.subrange(0, end - n - 1));
        }
        n = n + 1;
    }
    proof {
        let here = s.subrange(0, end - n);
        if n < 3 && n < end {
            assert(here.last() == chars@[end - n - 1]);
        }
        assert(trailing_digits(here, (3 - n) as nat) == 0);
    }
    let mut value: u32 = 0;
    let mut i: usize = 0;
    let ghost digits = chars@.subrange(end - n, end as int);
    while i < n
        invariant
            i <= n,
            n <= 3,
            n <= end,
            end <= chars@.len(),
            digits == chars@.subrange(end - n, end as int),
            forall|j: int| end - n <= j < end ==> is_digit(#[trigger] chars@[j]),
            value == digits_value(digits.subrange(0, i as int)),
            value <= if i == 0 { 0int } else if i == 1 { 9int } else if i == 2 { 99int } else { 999int },
        decreases n - i,
    {
        let c = chars[end - n + i];
        proof {
            assert(is_digit(chars@[end - n + i]));
            let longer = digits.subrange(0, i + 1);
            assert(longer.drop_last() =~= digits.subrange(0, i as int));
            assert(longer.last() == c);
        }
        value = value * 10 + (c as u32 - '0' as u32);
        i = i + 1;
    }
    assert(digits.subrange(0, n as int) =~= digits);
    (n, value)
}

/// Reads a citation. Any other line is refused.
pub fn parse_citation(line: &str) -> (r: Option<VerseKey>)
    ensures
        r == citation_of(line@),
{
    let chars = chars_of(line);
    let len = chars.len();
    let (n2, verse) = read_trailing_number(&chars, len);
    assert(chars@.subrange(0, len as int) =~= chars@);
    if n2 == 0 || len - n2 == 0 || chars[len - n2 - 1] != ':' {
        proof {
            let upto_verse = chars@.subrange(0, len - n2);
            if upto_verse.len() > 0 {
                assert(upto_verse.last() == chars@[len - n2 - 1]);
            }
        }
        return None;
    }
    let colon = len - n2 - 1;
    let (n1, chapter) = read_trailing_number(&chars, colon);
    proof {
        let upto_verse = chars@.subrange(0, len - n2);
        assert(upto_verse.last() == chars@[colon as int]);
        assert(upto_verse.drop_last() =~= chars@.subrange(0, colon as int));
        let upto_colon = chars@.subrange(0, colon as int);
        assert(upto_colon.subrange(upto_colon.len() - n1, upto_colon.len() as int)
            =~= chars@.subrange(colon - n1, colon as int));
        assert(upto_colon.subrange(0, upto_colon.len() - n1) =~= chars@.subrange(0, colon - n1));
    }
    if n1 == 0 || colon - n1 == 0 || !char_is_whitespace(chars[colon - n1 - 1]) {
        proof {
            let upto_chapter = chars@.subrange(0, colon - n1);
            if upto_chapter.len() > 0 {
                assert(upto_chapter.last() == chars@[colon - n1 - 1]);
            }
        }
        return None;
    }
    let name_len = colon - n1 - 1;
    let mut name_chars: Vec<char> = Vec::with_capacity(name_len);
    let mut i: usize = 0;
    while i < name_len
        invariant
            i <= name_len,
            name_len <= chars@.len(),
            name_chars@ == chars@.subrange(0, i as int),
        decreases name_len - i,
    {
        name_chars.push(chars[i]);
        assert(chars@.subrange(0, i as int).push(chars@[i as int]) =~= chars@.subrange(0, i + 1));
        i = i + 1;
    }
    let name = string_of(&name_chars);
    proof {
        let upto_chapter = chars@.subrange(0, colon - n1);
        assert(upto_chapter.last() == chars@[colon - n1 - 1]);
        assert(upto_chapter.drop_last() =~= chars@.subrange(0, name_len as int));
    }
    match Book::from_string(name.as_str()) {
        Ok(book) => Some(VerseKey { book: book.ordinal(), chapter, verse }),
        Err(_) => None,
    }
}

/// The citation counts with one more citation of the verse with the key `key`, if the
/// verse is known.
pub open spec fn cite(citations: Seq<(Seq<u8>, u64)>, key: Seq<u8>) -> Seq<(Seq<u8>, u64)> {
    if has_key(citations, key) {
        let at = place_in(citations, key);
        citations.update(at, (key, bump64(citations[at].1)))
    } else {
        citations
    }
}

/// The citation counts after one more line: a citation of a known verse counts, any other
/// line does not.
pub open spec fn cite_line(citations: Seq<(Seq<u8>, u64)>, line: Seq<char>) -> Seq<(Seq<u8>, u64)> {
    match citation_of(line) {
        Some(key) => if key.is_valid() {
            cite(citations, key.bytes())
        } else {
            citations
        },
        None => citations,
    }
}

/// The citation counts after the first `n` lines.
pub open spec fn cite_lines(citations: Seq<(Seq<u8>, u64)>, lines: Seq<String>, n: int) -> Seq<
    (Seq<u8>, u64),
>
    decreases n,
{
    if n <= 0 {
        citations
    } else {
        cite_line(cite_lines(citations, lines, n - 1), lines[n - 1]@)
    }
}

impl Corpus {
    /// Counts the citations among `lines`: each line that cites a verse of the corpus counts
    /// once for that verse.
    pub fn load_crawl_data(&mut self, lines: &Vec<String>)
        requires
            old(self).wf(),
        ensures
            final(self).wf(),
            final(self).translation_verses == old(self).translation_verses,
            final(self).wip_token_counts == old(self).wip_token_counts,
            numbers_model(final(self).verse_counts) == cite_lines(
                numbers_model(old(self).verse_counts),
                lines@,
                lines@.len() as int,
            ),
    {
        let mut n: usize = 0;
        while n < lines.len()
            invariant
                n <= lines.len(),
                self.wf(),
                self.translation_verses == old(self).translation_verses,
                self.wip_token_counts == old(self).wip_token_counts,
                numbers_model(self.verse_counts) == cite_lines(
                    numbers_model(old(self).verse_counts),
                    lines@,
                    n as int,
                ),
            decreases lines.len() - n,
        {
            let ghost before = self.verse_counts;
            let ghost m = numbers_model(before);
            assert(entry_keys(m) =~= before.key_list());
            match parse_citation(lines[n].as_str()) {
                Some(key) => {
                    if key.fits() {
                        let key_bytes = key.to_be_bytes();
                        match self.verse_counts.find(key_bytes.as_slice()) {
                            Ok(at) => {
                                proof {
                                    assert(m[at as int].0 == key.bytes());
                                    crate::table::lemma_place_in(m, at as int);
                                }
                                let count = self.verse_counts.values[at];
                                if count < u64::MAX {
                                    self.verse_counts.values[at] = count + 1;
                                }
                                assert(numbers_model(self.verse_counts) =~= m.update(
                                    at as int,
                                    (key.bytes(), bump64(m[at as int].1)),
                                ));
                                assert(self.verse_counts.key_list() =~= before.key_list());
                            },
                            Err(at) => {
                                proof {
                                    crate::table::lemma_gap(m, key.bytes(), at as int);
                                }
                            },
                        }
                    }
                },
                None => {},
            }
            n = n + 1;
        }
    }
}

} // verus!
