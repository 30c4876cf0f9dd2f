//! The groups of three letters that follow one another in a text, with the place at which
//! each group begins.

use crate::text::{
    char_is_alphabetic, chars_of, is_alphabetic, str_equal, str_to_uppercase, uppercase,
};
use vstd::prelude::*;

verus! {

/// Three letters that follow one another in a text, other characters passed over.
#[derive(Clone, Copy, Debug, PartialEq, Eq, Structural, Hash)]
pub struct BGram(pub char, pub char, pub char);

/// Three letters and the place of the first of them in the text, counted in characters of
/// the text in capitals.
#[derive(Clone, Copy, Debug, PartialEq, Eq, Structural, Hash)]
pub struct IndexedBGram(pub usize, pub BGram);

/// The places of the letters among the first `n` characters of a text.
pub open spec fn letter_places(text: Seq<char>, n: int) -> Seq<int>
    decreases n,
{
    if n <= 0 {
        Seq::empty()
    } else if is_alphabetic(text[n - 1]) {
        letter_places(text, n - 1).push(n - 1)
    } else {
        letter_places(text, n - 1)
    }
}

/// The groups of three letters among the first `n` characters of a text, in order: every
/// letter that has two letters before it ends a group.
pub open spec fn bgrams_upto(text: Seq<char>, n: int) -> Seq<IndexedBGram>
    decreases n,
{
    if n <= 0 {
        Seq::empty()
    } else {
        let before = letter_places(text, n - 1);
        if is_alphabetic(text[n - 1]) && before.len() >= 2 {
            let first = before[before.len() - 2];
            let second = before[before.len() - 1];
            bgrams_upto(text, n - 1).push(
                IndexedBGram(first as usize, BGram(text[first], text[second], text[n - 1])),
            )
        } else {
            bgrams_upto(text, n - 1)
        }
    }
}

/// The groups of three letters of a text that is in capitals already, in order.
pub open spec fn bgrams_of(text: Seq<char>) -> Seq<IndexedBGram> {
    bgrams_upto(text, text.len() as int)
}

/// Every place of a letter is a place of the text, and the places increase.
pub proof fn lemma_letter_places(text: Seq<char>, n: int)
    requires
        n <= text.len(),
    ensures
        forall|k: int|
            0 <= k < letter_places(text, n).len() ==> 0 <= #[trigger] letter_places(text, n)[k]
                < n,
        forall|j: int, k: int|
            0 <= j < k < letter_places(text, n).len() ==> #[trigger] letter_places(text, n)[j]
                < #[trigger] letter_places(text, n)[k],
        letter_places(text, n).len() <= if n < 0 { 0 } else { n },
    decreases n,
{
    if n > 0 {
        lemma_letter_places(text, n - 1);
    }
}

/// Puts a text in capitals and gives its groups of three letters, in order, each with the
/// place of its first letter.
pub fn make_bgrams(text: &String) -> (out: Vec<IndexedBGram>)
    ensures
        out@ == bgrams_of(uppercase(text@)),
{
    let upper = str_to_uppercase(text.as_str());
    let chars = chars_of(upper.as_str());
    let ghost t = chars@;
    let mut out: Vec<IndexedBGram> = Vec::new();
    let mut seen: usize = 0;
    let mut before_last: (usize, char) = (0, ' ');
    let mut last: (usize, char) = (0, ' ');
    let mut i: usize = 0;
    while i < chars.len()
        invariant
            i <= chars.len(),
            t == chars@,
            seen == letter_places(t, i as int).len(),
            seen >= 1 ==> last.0 == letter_places(t, i as int)[seen - 1] && last.1 == t[last.0 as int],
            seen >= 2 ==> before_last.0 == letter_places(t, i as int)[seen - 2] && before_last.1
                == t[before_last.0 as int],
            out@ == bgrams_upto(t, i as int),
        decreases chars.len() - i,
    {
        let c = chars[i];
        proof {
            lemma_letter_places(t, i as int);
        }
        if char_is_alphabetic(c) {
            if seen >= 2 {
                out.push(IndexedBGram(before_last.0, BGram(before_last.1, last.1, c)));
            }
            before_last = last;
            last = (i, c);
            seen = seen + 1;
        }
        i = i + 1;
    }
    out
}

/// The distinct groups among the first `n` indexed groups, in the order in which they first
/// occur.
pub open spec fn grams_upto(bgrams: Seq<IndexedBGram>, n: int) -> Seq<BGram>
    decreases n,
{
    if n <= 0 {
        Seq::empty()
    } else if grams_upto(bgrams, n - 1).contains(bgrams[n - 1].1) {
        grams_upto(bgrams, n - 1)
    } else {
        grams_upto(bgrams, n - 1).push(bgrams[n - 1].1)
    }
}

/// The set of the groups of a text: each group once, in the order in which the groups first
/// occur.
pub fn make_gram_set(bgrams: &Vec<IndexedBGram>) -> (set: Vec<BGram>)
    ensures
        set@ == grams_upto(bgrams@, bgrams@.len() as int),
        set@.no_duplicates(),
        forall|g: BGram|
            set@.contains(g) <==> exists|i: int|
                0 <= i < bgrams@.len() && (#[trigger] bgrams@[i]).1 == g,
{
    let mut set: Vec<BGram> = Vec::new();
    let mut n: usize = 0;
    while n < bgrams.len()
        invariant
            n <= bgrams.len(),
            set@ == grams_upto(bgrams@, n as int),
            set@.no_duplicates(),
            forall|g: BGram|
                set@.contains(g) <==> exists|i: int|
                    0 <= i < n && (#[trigger] bgrams@[i]).1 == g,
        decreases bgrams.len() - n,
    {
        let gram = bgrams[n].1;
        let mut known = false;
        let mut j: usize = 0;
        while j < set.len()
            invariant
                j <= set.len(),
                known <==> exists|k: int| 0 <= k < j && set@[k] == gram,
            decreases set.len() - j,
        {
            if set[j] == gram {
                known = true;
            }
            j = j + 1;
        }
        let ghost before = set@;
        if !known {
            set.push(gram);
        }
        proof {
            assert(known == before.contains(gram));
            assert forall|g: BGram|
                set@.contains(g) <==> exists|i: int|
                    0 <= i < n + 1 && (#[trigger] bgrams@[i]).1 == g by {
                if set@.contains(g) {
                    let k = choose|k: int| 0 <= k < set@.len() && set@[k] == g;
                    if k < before.len() {
                        assert(before[k] == g);
                        assert(before.contains(g));
                        let i = choose|i: int| 0 <= i < n && (#[trigger] bgrams@[i]).1 == g;
                        assert(0 <= i < n + 1 && bgrams@[i].1 == g);
                    } else {
                        assert(bgrams@[n as int].1 == g);
                    }
                }
                if exists|i: int| 0 <= i < n + 1 && (#[trigger] bgrams@[i]).1 == g {
                    let i = choose|i: int| 0 <= i < n + 1 && (#[trigger] bgrams@[i]).1 == g;
                    if i < n {
                        assert(before.contains(g));
                        let k = choose|k: int| 0 <= k < before.len() && before[k] == g;
                        assert(set@[k] == g);
                    } else if known {
                        let k = choose|k: int| 0 <= k < before.len() && before[k] == g;
                        assert(set@[k] == g);
                    } else {
                        assert(set@[before.len() as int] == g);
                    }
                }
            }
        }
        n = n + 1;
    }
    set
}

/// A verse as a file of verses gives it.
#[derive(Clone, Debug, PartialEq, Eq)]
pub struct JsonVerse {
    pub book: String,
    pub chapter: u8,
    pub verse: u8,
    pub text: String,
}

/// The groups of one verse in one translation.
#[derive(Clone, Debug, PartialEq, Eq)]
pub struct VerseGrams {
    pub book: String,
    pub chapter: u8,
    pub verse: u8,
    pub translation: String,
    /// Each group of the text once.
    pub grams: Vec<BGram>,
}

/// The places at which one group stands in one verse in one translation.
#[derive(Clone, Debug, PartialEq, Eq)]
pub struct GramSpans {
    pub gram: BGram,
    pub book: String,
    pub chapter: u8,
    pub verse: u8,
    pub translation: String,
    /// For each place, the place of the first letter and the place two after it.
    pub highlights: Vec<(usize, usize)>,
}

/// What a query and one verse in one translation have in common.
#[derive(Clone, Debug, PartialEq, Eq)]
pub struct Overlap {
    pub book: String,
    pub chapter: u8,
    pub verse: u8,
    pub translation: String,
    /// The number of groups of the verse that are groups of the query.
    pub shared: usize,
    /// The number of groups of the verse and of the query together, a shared one counted
    /// once.
    pub total: usize,
    /// The places in the verse of the groups of the query.
    pub highlights: Vec<(usize, usize)>,
}

/// An index of verses by their groups of three letters.
#[derive(Clone, Debug, PartialEq, Eq)]
pub struct BGramIndex {
    /// The groups of each verse in each translation, in the order in which the verses came.
    pub verse_index: Vec<VerseGrams>,
    /// The places of each group in each verse in each translation, in the order in which
    /// they were first seen.
    pub gram_index: Vec<GramSpans>,
}

/// Book, chapter, verse and translation.
pub struct Place {
    pub book: Seq<char>,
    pub chapter: u8,
    pub verse: u8,
    pub translation: Seq<char>,
}

impl VerseGrams {
    /// The verse and the translation.
    pub open spec fn place(&self) -> Place {
        Place {
            book: self.book@,
            chapter: self.chapter,
            verse: self.verse,
            translation: self.translation@,
        }
    }
}

impl GramSpans {
    /// The verse and the translation.
    pub open spec fn place(&self) -> Place {
        Place {
            book: self.book@,
            chapter: self.chapter,
            verse: self.verse,
            translation: self.translation@,
        }
    }
}

/// The place, among the first `n` records, of the first record for a verse in a
/// translation; -1 if there is none.
pub open spec fn verse_place(list: Seq<VerseGrams>, at: Place, n: int) -> int
    decreases n,
{
    if n <= 0 {
        -1
    } else if verse_place(list, at, n - 1) >= 0 {
        verse_place(list, at, n - 1)
    } else if list[n - 1].place() == at {
        n - 1
    } else {
        -1
    }
}

/// The place, among the first `n` records, of the first record for a group in a verse in a
/// translation; -1 if there is none.
pub open spec fn gram_place(list: Seq<GramSpans>, gram: BGram, at: Place, n: int) -> int
    decreases n,
{
    if n <= 0 {
        -1
    } else if gram_place(list, gram, at, n - 1) >= 0 {
        gram_place(list, gram, at, n - 1)
    } else if list[n - 1].gram == gram && list[n - 1].place() == at {
        n - 1
    } else {
        -1
    }
}

/// The number of the first `n` groups that are among `query`.
pub open spec fn shared_upto(grams: Seq<BGram>, query: Seq<BGram>, n: int) -> nat
    decreases n,
{
    if n <= 0 {
        0
    } else if query.contains(grams[n - 1]) {
        shared_upto(grams, query, n - 1) + 1
    } else {
        shared_upto(grams, query, n - 1)
    }
}

/// The places, in a verse in a translation, of the first `n` groups of a query.
pub open spec fn spans_upto(list: Seq<GramSpans>, query: Seq<BGram>, at: Place, n: int) -> Seq<
    (usize, usize),
>
    decreases n,
{
    if n <= 0 {
        Seq::empty()
    } else {
        let found = gram_place(list, query[n - 1], at, list.len() as int);
        if found >= 0 {
            spans_upto(list, query, at, n - 1) + list[found].highlights@
        } else {
            spans_upto(list, query, at, n - 1)
        }
    }
}

/// One of the first `n` records of places is for a group of the query in the given verse,
/// in whatever translation.
pub open spec fn touched_upto(
    list: Seq<GramSpans>,
    query: Seq<BGram>,
    book: Seq<char>,
    chapter: u8,
    verse: u8,
    n: int,
) -> bool
    decreases n,
{
    if n <= 0 {
        false
    } else {
        touched_upto(list, query, book, chapter, verse, n - 1) || (query.contains(list[n - 1].gram)
            && list[n - 1].book@ == book && list[n - 1].chapter == chapter && list[n - 1].verse
            == verse)
    }
}

/// What a record of an answer says.
pub open spec fn overlap_view(o: Overlap) -> (Place, usize, usize, Seq<(usize, usize)>) {
    (
        Place { book: o.book@, chapter: o.chapter, verse: o.verse, translation: o.translation@ },
        o.shared,
        o.total,
        o.highlights@,
    )
}

/// What each record of an answer says.
pub open spec fn overlaps_view(v: Seq<Overlap>) -> Seq<(Place, usize, usize, Seq<(usize, usize)>)> {
    Seq::new(v.len(), |i: int| overlap_view(v[i]))
}

/// What the first `n` verses of the index have in common with a query: a record for each
/// verse in each translation, if the index has a place of a group of the query in that
/// verse.
pub open spec fn overlaps_upto(index: BGramIndex, query: Seq<BGram>, n: int) -> Seq<
    (Place, usize, usize, Seq<(usize, usize)>),
>
    decreases n,
{
    if n <= 0 {
        Seq::empty()
    } else {
        let v = index.verse_index@[n - 1];
        if touched_upto(
            index.gram_index@,
            query,
            v.book@,
            v.chapter,
            v.verse,
            index.gram_index@.len() as int,
        ) {
            let shared = shared_upto(v.grams@, query, v.grams@.len() as int);
            overlaps_upto(index, query, n - 1).push(
                (
                    v.place(),
                    shared as usize,
                    if v.grams@.len() - shared + query.len() <= usize::MAX {
                        (v.grams@.len() - shared + query.len()) as usize
                    } else {
                        usize::MAX
                    },
                    spans_upto(index.gram_index@, query, v.place(), query.len() as int),
                ),
            )
        } else {
            overlaps_upto(index, query, n - 1)
        }
    }
}

/// What each record of groups says.
pub open spec fn verses_view(list: Seq<VerseGrams>) -> Seq<(Place, Seq<BGram>)> {
    Seq::new(list.len(), |i: int| (list[i].place(), list[i].grams@))
}

/// The records of groups with the groups of a verse in a translation: in place of the
/// groups that there were for it, or else at the end.
pub open spec fn with_verse(list: Seq<VerseGrams>, at: Place, grams: Seq<BGram>) -> Seq<
    (Place, Seq<BGram>),
> {
    let found = verse_place(list, at, list.len() as int);
    if found >= 0 {
        verses_view(list).update(found, (at, grams))
    } else {
        verses_view(list).push((at, grams))
    }
}

/// What each record of places says.
pub open spec fn spans_view(list: Seq<GramSpans>) -> Seq<(BGram, Place, Seq<(usize, usize)>)> {
    Seq::new(list.len(), |i: int| (list[i].gram, list[i].place(), list[i].highlights@))
}

/// Tells whether a group is among `query`.
pub fn gram_among(query: &Vec<BGram>, gram: BGram) -> (r: bool)
    ensures
        r == query@.contains(gram),
{
    let mut j: usize = 0;
    while j < query.len()
        invariant
            j <= query.len(),
            forall|k: int| 0 <= k < j ==> query@[k] != gram,
        decreases query.len() - j,
    {
        if query[j] == gram {
            return true;
        }
        j = j + 1;
    }
    false
}

impl BGramIndex {
    /// An index without verses.
    pub fn new() -> (index: BGramIndex)
        ensures
            index.verse_index@.len() == 0,
            index.gram_index@.len() == 0,
    {
        BGramIndex { verse_index: Vec::new(), gram_index: Vec::new() }
    }

    /// Finds the record of places of a group in a verse in a translation.
    pub fn find_gram(
        &self,
        gram: BGram,
        book: &str,
        chapter: u8,
        verse: u8,
        translation: &str,
    ) -> (r: Option<usize>)
        ensures
            match r {
                Some(i) => i == gram_place(
                    self.gram_index@,
                    gram,
                    (Place { book: book@, chapter, verse, translation: translation@ }),
                    self.gram_index@.len() as int,
                ) && i < self.gram_index@.len(),
                None => gram_place(
                    self.gram_index@,
                    gram,
                    (Place { book: book@, chapter, verse, translation: translation@ }),
                    self.gram_index@.len() as int,
                ) < 0,
            },
    {
        let ghost at = Place { book: book@, chapter, verse, translation: translation@ };
        let mut i: usize = 0;
        while i < self.gram_index.len()
            invariant
                i <= self.gram_index@.len(),
                at == (Place { book: book@, chapter, verse, translation: translation@ }),
                gram_place(self.gram_index@, gram, at, i as int) < 0,
            decreases self.gram_index@.len() - i,
        {
            let r = &self.gram_index[i];
            if r.gram == gram && r.chapter == chapter && r.verse == verse && str_equal(
                r.book.as_str(),
                book,
            ) && str_equal(r.translation.as_str(), translation) {
                proof {
                    lemma_gram_place_stays(
                        self.gram_index@,
                        gram,
                        at,
                        i + 1,
                        self.gram_index@.len() as int,
                    );
                }
                return Some(i);
            }
            i = i + 1;
        }
        None
    }

    /// Takes a verse of a translation into the index: its groups become the groups of the
    /// verse in the translation, and each place of each group is taken note of.
    pub fn insert_verse(&mut self, translation: &String, verse: JsonVerse)
        ensures
            verses_view(final(self).verse_index@) == with_verse(
                old(self).verse_index@,
                (Place {
                    book: verse.book@,
                    chapter: verse.chapter,
                    verse: verse.verse,
                    translation: translation@,
                }),
                grams_upto(
                    bgrams_of(uppercase(verse.text@)),
                    bgrams_of(uppercase(verse.text@)).len() as int,
                ),
            ),
            spans_view(final(self).gram_index@) == spans_after(
                old(self).gram_index@,
                bgrams_of(uppercase(verse.text@)),
                (Place {
                    book: verse.book@,
                    chapter: verse.chapter,
                    verse: verse.verse,
                    translation: translation@,
                }),
                bgrams_of(uppercase(verse.text@)).len() as int,
            ),
    {
        let grams = make_bgrams(&verse.text);
        let set = make_gram_set(&grams);
        let ghost at = Place {
            book: verse.book@,
            chapter: verse.chapter,
            verse: verse.verse,
            translation: translation@,
        };
        let record = VerseGrams {
            book: verse.book.clone(),
            chapter: verse.chapter,
            verse: verse.verse,
            translation: translation.clone(),
            grams: set,
        };
        assert(record.place() == at);
        let ghost verses_before = self.verse_index@;
        let mut i: usize = 0;
        let mut known: Option<usize> = None;
        while i < self.verse_index.len() && known.is_none()
            invariant
                i <= self.verse_index@.len(),
                *self == *old(self),
                at == (Place {
                    book: verse.book@,
                    chapter: verse.chapter,
                    verse: verse.verse,
                    translation: translation@,
                }),
                match known {
                    Some(k) => k == verse_place(self.verse_index@, at, i as int) && k < i,
                    None => verse_place(self.verse_index@, at, i as int) < 0,
                },
            decreases self.verse_index@.len() - i + if known is None { 1int } else { 0int },
        {
            let r = &self.verse_index[i];
            if r.chapter == verse.chapter && r.verse == verse.verse && str_equal(
                r.book.as_str(),
                verse.book.as_str(),
            ) && str_equal(r.translation.as_str(), translation.as_str()) {
                known = Some(i);
            }
            i = i + 1;
        }
        proof {
            if known is Some {
                lemma_verse_place_stays(
                    self.verse_index@,
                    at,
                    i as int,
                    self.verse_index@.len() as int,
                );
            }
        }
        match known {
            Some(k) => {
                self.verse_index[k] = record;
                assert(verses_view(self.verse_index@) =~= verses_view(verses_before).update(
                    k as int,
                    (at, record.grams@),
                ));
            },
            None => {
                self.verse_index.push(record);
                assert(verses_view(self.verse_index@) =~= verses_view(verses_before).push(
                    (at, record.grams@),
                ));
            },
        }
        let ghost verses_after = self.verse_index@;
        let ghost all = grams@;
        let ghost spans_before = self.gram_index@;
        let mut n: usize = 0;
        while n < grams.len()
            invariant
                n <= grams.len(),
                all == grams@,
                self.verse_index@ == verses_after,
                at == (Place {
                    book: verse.book@,
                    chapter: verse.chapter,
                    verse: verse.verse,
                    translation: translation@,
                }),
                spans_view(self.gram_index@) == spans_after(spans_before, all, at, n as int),
            decreases grams.len() - n,
        {
            let IndexedBGram(start, gram) = grams[n];
            let span = (start, if start <= usize::MAX - 2 {
                start + 2
            } else {
                usize::MAX
            });
            let ghost before = self.gram_index@;
            proof {
                lemma_gram_place_is_place(before, gram, at, before.len() as int);
            }
            match self.find_gram(
                gram,
                verse.book.as_str(),
                verse.chapter,
                verse.verse,
                translation.as_str(),
            ) {
                Some(found) => {
                    self.gram_index[found].highlights.push(span);
                    assert(spans_view(self.gram_index@) =~= spans_view(before).update(
                        found as int,
                        (gram, at, before[found as int].highlights@.push(span)),
                    ));
                },
                None => {
                    let mut highlights: Vec<(usize, usize)> = Vec::new();
                    highlights.push(span);
                    self.gram_index.push(
                        GramSpans {
                            gram,
                            book: verse.book.clone(),
                            chapter: verse.chapter,
                            verse: verse.verse,
                            translation: translation.clone(),
                            highlights,
                        },
                    );
                    assert(spans_view(self.gram_index@) =~= spans_view(before).push(
                        (gram, at, seq![span]),
                    ));
                },
            }
            n = n + 1;
        }
    }

    /// Gives what the verses of the index have in common with a text: a record for each
    /// verse in each translation, in the order in which the verses came, if the index has a
    /// place of a group of the text in that verse.
    pub fn search(&self, text: &String) -> (r: Vec<Overlap>)
        ensures
            overlaps_view(r@) == overlaps_upto(
                *self,
                grams_upto(
                    bgrams_of(uppercase(text@)),
                    bgrams_of(uppercase(text@)).len() as int,
                ),
                self.verse_index@.len() as int,
            ),
    {
        let query = make_gram_set(&make_bgrams(text));
        let mut out: Vec<Overlap> = Vec::new();
        let mut n: usize = 0;
        assert(overlaps_view(out@) =~= overlaps_upto(*self, query@, 0));
        while n < self.verse_index.len()
            invariant
                n <= self.verse_index@.len(),
                overlaps_view(out@) == overlaps_upto(*self, query@, n as int),
            decreases self.verse_index@.len() - n,
        {
            let v = &self.verse_index[n];
            let ghost before = overlaps_view(out@);
            // Is there a place of a group of the query in this verse?
            let mut touched = false;
            let mut g: usize = 0;
            while g < self.gram_index.len()
                invariant
                    g <= self.gram_index@.len(),
                    touched == touched_upto(
                        self.gram_index@,
                        query@,
                        v.book@,
                        v.chapter,
                        v.verse,
                        g as int,
                    ),
                decreases self.gram_index@.len() - g,
            {
                let r = &self.gram_index[g];
                if !touched && r.chapter == v.chapter && r.verse == v.verse && str_equal(
                    r.book.as_str(),
                    v.book.as_str(),
                ) && gram_among(&query, r.gram) {
                    touched = true;
                }
                g = g + 1;
            }
            if touched {
                let mut shared: usize = 0;
                let mut k: usize = 0;
                while k < v.grams.len()
                    invariant
                        k <= v.grams@.len(),
                        shared == shared_upto(v.grams@, query@, k as int),
                        shared <= k,
                    decreases v.grams@.len() - k,
                {
                    if gram_among(&query, v.grams[k]) {
                        shared = shared + 1;
                    }
                    k = k + 1;
                }
                let mut highlights: Vec<(usize, usize)> = Vec::new();
                let mut q: usize = 0;
                while q < query.len()
                    invariant
                        q <= query@.len(),
                        highlights@ == spans_upto(self.gram_index@, query@, v.place(), q as int),
                    decreases query@.len() - q,
                {
                    match self.find_gram(
                        query[q],
                        v.book.as_str(),
                        v.chapter,
                        v.verse,
                        v.translation.as_str(),
                    ) {
                        Some(found) => {
                            let spans = &self.gram_index[found].highlights;
                            let mut h: usize = 0;
                            let ghost base = highlights@;
                            while h < spans.len()
                                invariant
                                    h <= spans@.len(),
                                    highlights@ == base + spans@.subrange(0, h as int),
                                decreases spans@.len() - h,
                            {
                                highlights.push(spans[h]);
                                assert(spans@.subrange(0, h as int).push(spans@[h as int])
                                    =~= spans@.subrange(0, h + 1));
                                assert(highlights@ =~= base + spans@.subrange(0, h + 1));
                                h = h + 1;
                            }
                            assert(spans@.subrange(0, spans@.len() as int) =~= spans@);
                        },
                        None => {},
                    }
                    q = q + 1;
                }
                let total = if query.len() - 0 <= usize::MAX - (v.grams.len() - shared) {
                    v.grams.len() - shared + query.len()
                } else {
                    usize::MAX
                };
                out.push(
                    Overlap {
                        book: v.book.clone(),
                        chapter: v.chapter,
                        verse: v.verse,
                        translation: v.translation.clone(),
                        shared,
                        total,
                        highlights,
                    },
                );
                assert(overlaps_view(out@) =~= before.push(
                    (
                        v.place(),
                        shared,
                        total,
                        spans_upto(self.gram_index@, query@, v.place(), query@.len() as int),
                    ),
                ));
            }
            n = n + 1;
        }
        out
    }
}

/// The place of the last letter of a group that begins at `start`, as far as places go.
pub open spec fn span_end(start: usize) -> usize {
    if start + 2 <= usize::MAX {
        (start + 2) as usize
    } else {
        usize::MAX
    }
}

/// The records of places after the first `n` groups of a verse were taken note of.
pub open spec fn spans_after(
    list: Seq<GramSpans>,
    grams: Seq<IndexedBGram>,
    at: Place,
    n: int,
) -> Seq<(BGram, Place, Seq<(usize, usize)>)>
    decreases n,
{
    if n <= 0 {
        spans_view(list)
    } else {
        with_span_view(
            spans_after(list, grams, at, n - 1),
            grams[n - 1].1,
            at,
            (grams[n - 1].0, span_end(grams[n - 1].0)),
        )
    }
}

/// The place, among the first `n` records, of the first record for a group in a verse in a
/// translation; -1 if there is none.
pub open spec fn gram_place_view(
    list: Seq<(BGram, Place, Seq<(usize, usize)>)>,
    gram: BGram,
    at: Place,
    n: int,
) -> int
    decreases n,
{
    if n <= 0 {
        -1
    } else if gram_place_view(list, gram, at, n - 1) >= 0 {
        gram_place_view(list, gram, at, n - 1)
    } else if list[n - 1].0 == gram && list[n - 1].1 == at {
        n - 1
    } else {
        -1
    }
}

/// The records of places with one more place of a group in a verse in a translation.
pub open spec fn with_span_view(
    list: Seq<(BGram, Place, Seq<(usize, usize)>)>,
    gram: BGram,
    at: Place,
    span: (usize, usize),
) -> Seq<(BGram, Place, Seq<(usize, usize)>)> {
    let found = gram_place_view(list, gram, at, list.len() as int);
    if found >= 0 {
        list.update(found, (gram, at, list[found].2.push(span)))
    } else {
        list.push((gram, at, seq![span]))
    }
}

/// Once a record is found among the first records, it stays the one that is found.
pub proof fn lemma_gram_place_stays(list: Seq<GramSpans>, gram: BGram, at: Place, n: int, m: int)
    requires
        gram_place(list, gram, at, n) >= 0,
        n <= m,
    ensures
        gram_place(list, gram, at, m) == gram_place(list, gram, at, n),
    decreases m - n,
{
    if n < m {
        lemma_gram_place_stays(list, gram, at, n, m - 1);
    }
}

/// Once a record is found among the first records, it stays the one that is found.
pub proof fn lemma_verse_place_stays(list: Seq<VerseGrams>, at: Place, n: int, m: int)
    requires
        verse_place(list, at, n) >= 0,
        n <= m,
    ensures
        verse_place(list, at, m) == verse_place(list, at, n),
    decreases m - n,
{
    if n < m {
        lemma_verse_place_stays(list, at, n, m - 1);
    }
}

/// Looking a record up among the records is looking it up among what the records say, and
/// what is found is a record for what was looked for.
pub proof fn lemma_gram_place_is_place(list: Seq<GramSpans>, gram: BGram, at: Place, n: int)
    requires
        0 <= n <= list.len(),
    ensures
        gram_place(list, gram, at, n) == gram_place_view(spans_view(list), gram, at, n),
        gram_place(list, gram, at, n) < n,
        gram_place(list, gram, at, n) >= 0 ==> list[gram_place(list, gram, at, n)].gram == gram
            && list[gram_place(list, gram, at, n)].place() == at,
    decreases n,
{
    if n > 0 {
        lemma_gram_place_is_place(list, gram, at, n - 1);
    }
}

} // verus!
