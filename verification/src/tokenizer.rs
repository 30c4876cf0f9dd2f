//! Free text is split into words at white space; each word gives a token to search by and a
//! source form to show.

use crate::text::{
    char_is_alphanumeric, char_is_whitespace, char_upper, chars_of, is_alphanumeric,
    is_whitespace, push_char, upper,
};
use vstd::prelude::*;

verus! {

/// A word of a text: the form to show and the token to search by.
#[derive(Clone, Debug, PartialEq, Eq, Hash)]
pub struct Tokenized {
    /// The letters and digits of the word, its inner apostrophes and its commas but a last
    /// one.
    pub source: String,
    /// The letters and digits of the word, in capitals.
    pub token: String,
}

impl Tokenized {
    /// Compares two words by the bytes of their tokens.
    pub fn compare(&self, other: &Tokenized) -> (r: crate::lex::LexOrder)
        ensures
            r == crate::lex::LexOrder::Before <==> crate::lex::lex_lt(
                vstd::utf8::encode_utf8(self.token@),
                vstd::utf8::encode_utf8(other.token@),
            ),
            r == crate::lex::LexOrder::Same <==> self.token@ == other.token@,
            r == crate::lex::LexOrder::After <==> crate::lex::lex_lt(
                vstd::utf8::encode_utf8(other.token@),
                vstd::utf8::encode_utf8(self.token@),
            ),
    {
        proof {
            vstd::utf8::encode_utf8_decode_utf8(self.token@);
            vstd::utf8::encode_utf8_decode_utf8(other.token@);
        }
        crate::lex::lex_compare(self.token.as_str().as_bytes(), other.token.as_str().as_bytes())
    }
}

/// The token of the first `n` characters of a word: its letters and digits, in capitals.
pub open spec fn token_upto(word: Seq<char>, n: int) -> Seq<char>
    decreases n,
{
    if n <= 0 {
        Seq::empty()
    } else if is_alphanumeric(word[n - 1]) {
        token_upto(word, n - 1).push(upper(word[n - 1]))
    } else {
        token_upto(word, n - 1)
    }
}

/// The token of a word.
pub open spec fn token_of(word: Seq<char>) -> Seq<char> {
    token_upto(word, word.len() as int)
}

/// The character at place `i` of a word is part of its source form: a letter or digit, an
/// apostrophe inside the word, or a comma that is not the word's last character.
pub open spec fn kept_in_source(word: Seq<char>, i: int) -> bool {
    ||| is_alphanumeric(word[i])
    ||| (word[i] == '\'' && 0 < i < word.len() - 1)
    ||| (word[i] == ',' && i != word.len() - 1)
}

/// The part of a word's source form that its first `n` characters give.
pub open spec fn source_upto(word: Seq<char>, n: int) -> Seq<char>
    decreases n,
{
    if n <= 0 {
        Seq::empty()
    } else if kept_in_source(word, n - 1) {
        source_upto(word, n - 1).push(word[n - 1])
    } else {
        source_upto(word, n - 1)
    }
}

/// The source form of a word.
pub open spec fn source_of(word: Seq<char>) -> Seq<char> {
    source_upto(word, word.len() as int)
}

/// Where a reader stands after the first `n` characters of a text: the words that have
/// ended, and the characters of a word that has begun.
pub open spec fn split_upto(text: Seq<char>, n: int) -> (Seq<Seq<char>>, Seq<char>)
    decreases n,
{
    if n <= 0 {
        (Seq::empty(), Seq::empty())
    } else {
        let (done, current) = split_upto(text, n - 1);
        if is_whitespace(text[n - 1]) {
            if current.len() > 0 {
                (done.push(current), Seq::empty())
            } else {
                (done, current)
            }
        } else {
            (done, current.push(text[n - 1]))
        }
    }
}

/// The words of a text: its longest stretches without white space, in order.
pub open spec fn words_of(text: Seq<char>) -> Seq<Seq<char>> {
    let (done, current) = split_upto(text, text.len() as int);
    if current.len() > 0 {
        done.push(current)
    } else {
        done
    }
}

/// Source form and token of each word that has a letter or digit, in the order of the words.
pub open spec fn tokens_of_words(words: Seq<Seq<char>>) -> Seq<(Seq<char>, Seq<char>)>
    decreases words.len(),
{
    if words.len() == 0 {
        Seq::empty()
    } else if token_of(words.last()).len() > 0 {
        tokens_of_words(words.drop_last()).push((source_of(words.last()), token_of(words.last())))
    } else {
        tokens_of_words(words.drop_last())
    }
}

/// What `tokenize` makes of a text.
pub open spec fn tokens_of(text: Seq<char>) -> Seq<(Seq<char>, Seq<char>)> {
    tokens_of_words(words_of(text))
}

/// Source form and token of each element.
pub open spec fn tokenized_view(v: Seq<Tokenized>) -> Seq<(Seq<char>, Seq<char>)> {
    Seq::new(v.len(), |i: int| (v[i].source@, v[i].token@))
}

/// A token: capitals and digits only.
pub open spec fn is_token(t: Seq<char>) -> bool {
    forall|i: int| 0 <= i < t.len() ==> is_alphanumeric(#[trigger] t[i]) && upper(t[i]) == t[i]
}

/// The token of any word is a token.
pub proof fn lemma_token_is_token(word: Seq<char>, n: int)
    ensures
        is_token(token_upto(word, n)),
        token_upto(word, n).len() <= if n < 0 { 0 } else { n },
    decreases n,
{
    if n > 0 {
        lemma_token_is_token(word, n - 1);
        let c = word[n - 1];
        if is_alphanumeric(c) {
            assert(is_alphanumeric(upper(c)) && upper(upper(c)) == upper(c));
        }
    }
}

/// A token is its own token.
pub proof fn lemma_token_of_token(t: Seq<char>, n: int)
    requires
        is_token(t),
        0 <= n <= t.len(),
    ensures
        token_upto(t, n) == t.subrange(0, n),
    decreases n,
{
    if n > 0 {
        lemma_token_of_token(t, n - 1);
        assert(t.subrange(0, n - 1).push(t[n - 1]) =~= t.subrange(0, n));
    } else {
        assert(t.subrange(0, 0) =~= Seq::<char>::empty());
    }
}

/// Taking the token of a word a second time changes nothing.
pub proof fn lemma_token_idempotent(word: Seq<char>)
    ensures
        token_of(token_of(word)) == token_of(word),
{
    let t = token_of(word);
    lemma_token_is_token(word, word.len() as int);
    lemma_token_of_token(t, t.len() as int);
    assert(t.subrange(0, t.len() as int) =~= t);
}

/// Every token that `tokenize` gives is a token and is not empty.
pub proof fn lemma_tokens_are_tokens(words: Seq<Seq<char>>)
    ensures
        forall|i: int|
            0 <= i < tokens_of_words(words).len() ==> is_token(
                (#[trigger] tokens_of_words(words)[i]).1,
            ) && tokens_of_words(words)[i].1.len() > 0,
        tokens_of_words(words).len() <= words.len(),
    decreases words.len(),
{
    if words.len() > 0 {
        lemma_tokens_are_tokens(words.drop_last());
        lemma_token_is_token(words.last(), words.last().len() as int);
    }
}

/// A text without characters has no tokens.
pub proof fn lemma_empty_text_has_no_tokens()
    ensures
        tokens_of(Seq::<char>::empty()) == Seq::<(Seq<char>, Seq<char>)>::empty(),
{
    assert(words_of(Seq::<char>::empty()) =~= Seq::<Seq<char>>::empty());
}

/// The tokens of a text stand in the order of its words: one more word adds its token, if
/// it has one, behind the tokens of the words before it.
pub proof fn lemma_tokens_follow_words(words: Seq<Seq<char>>, word: Seq<char>)
    ensures
        tokens_of_words(words.push(word)) == if token_of(word).len() > 0 {
            tokens_of_words(words).push((source_of(word), token_of(word)))
        } else {
            tokens_of_words(words)
        },
{
    assert(words.push(word).drop_last() =~= words);
}

/// A reader who has read `n` characters has ended and begun no more words than that.
pub proof fn lemma_split_count(text: Seq<char>, n: int)
    requires
        0 <= n,
    ensures
        split_upto(text, n).0.len() + split_upto(text, n).1.len() <= n,
    decreases n,
{
    if n > 0 {
        lemma_split_count(text, n - 1);
    }
}

/// Words have no more tokens than there are words.
pub proof fn lemma_tokens_count(words: Seq<Seq<char>>)
    ensures
        tokens_of_words(words).len() <= words.len(),
    decreases words.len(),
{
    if words.len() > 0 {
        lemma_tokens_count(words.drop_last());
    }
}

/// A text has no more tokens than words, and no more words than characters.
pub proof fn lemma_token_count(text: Seq<char>)
    ensures
        tokens_of(text).len() <= words_of(text).len() <= text.len(),
{
    lemma_split_count(text, text.len() as int);
    lemma_tokens_count(words_of(text));
}

/// Makes source form and token of one word.
pub fn tokenize_word(word: &Vec<char>) -> (r: Tokenized)
    ensures
        r.source@ == source_of(word@),
        r.token@ == token_of(word@),
{
    let mut source = String::new();
    let mut token = String::new();
    let n = word.len();
    let mut i: usize = 0;
    while i < n
        invariant
            i <= n,
            n == word@.len(),
            source@ == source_upto(word@, i as int),
            token@ == token_upto(word@, i as int),
        decreases n - i,
    {
        let c = word[i];
        if char_is_alphanumeric(c) {
            push_char(&mut token, char_upper(c));
            push_char(&mut source, c);
        } else if c == '\'' {
            if 0 < i && i + 1 < n {
                push_char(&mut source, c);
            }
        } else if c == ',' {
            if i + 1 != n {
                push_char(&mut source, c);
            }
        }
        i = i + 1;
    }
    Tokenized { source, token }
}

/// Splits a text into words at white space and gives, for each word that has a letter or
/// digit, its source form and its token, in the order of the words.
pub fn tokenize(input: &str) -> (out: Vec<Tokenized>)
    ensures
        tokenized_view(out@) == tokens_of(input@),
{
    let mut out: Vec<Tokenized> = Vec::new();
    let mut word: Vec<char> = Vec::new();
    let ghost mut done: Seq<Seq<char>> = Seq::empty();
    assert(tokenized_view(out@) =~= tokens_of_words(done));
    for c in it: input.chars()
        invariant
            it.seq() == input@,
            split_upto(input@, it.index() as int) == (done, word@),
            tokenized_view(out@) == tokens_of_words(done),
    {
        assert(c == input@[it.index() as int]);
        if char_is_whitespace(c) {
            if word.len() > 0 {
                let t = tokenize_word(&word);
                proof {
                    assert(done.push(word@).drop_last() =~= done);
                }
                if t.token.as_str().unicode_len() > 0 {
                    out.push(t);
                    assert(tokenized_view(out@) =~= tokens_of_words(done.push(word@)));
                }
                proof {
                    done = done.push(word@);
                }
                word = Vec::new();
            }
        } else {
            word.push(c);
        }
    }
    if word.len() > 0 {
        let t = tokenize_word(&word);
        proof {
            assert(done.push(word@).drop_last() =~= done);
        }
        if t.token.as_str().unicode_len() > 0 {
            out.push(t);
            assert(tokenized_view(out@) =~= tokens_of_words(done.push(word@)));
        }
    }
    out
}

/// A word of a text with the places, counted in characters, of its first and its last
/// character in the text.
#[derive(Clone, Debug, PartialEq, Eq)]
pub struct Located {
    pub first: usize,
    pub last: usize,
    pub word: Tokenized,
}

/// The words that have ended among the first `n` characters of a text, each with the place
/// of its first character.
pub open spec fn placed_upto(text: Seq<char>, n: int) -> Seq<(int, Seq<char>)>
    decreases n,
{
    if n <= 0 {
        Seq::empty()
    } else {
        let current = split_upto(text, n - 1).1;
        if is_whitespace(text[n - 1]) && current.len() > 0 {
            placed_upto(text, n - 1).push((n - 1 - current.len(), current))
        } else {
            placed_upto(text, n - 1)
        }
    }
}

/// The words of a text, each with the place of its first character.
pub open spec fn placed_words(text: Seq<char>) -> Seq<(int, Seq<char>)> {
    let current = split_upto(text, text.len() as int).1;
    if current.len() > 0 {
        placed_upto(text, text.len() as int).push((text.len() - current.len(), current))
    } else {
        placed_upto(text, text.len() as int)
    }
}

/// For each word that has a letter or digit, in the order of the words: the places of its
/// first and last character, its source form and its token.
pub open spec fn located_words(placed: Seq<(int, Seq<char>)>) -> Seq<
    ((int, int), (Seq<char>, Seq<char>)),
>
    decreases placed.len(),
{
    if placed.len() == 0 {
        Seq::empty()
    } else if token_of(placed.last().1).len() > 0 {
        located_words(placed.drop_last()).push(
            (
                (placed.last().0, placed.last().0 + placed.last().1.len() - 1),
                (source_of(placed.last().1), token_of(placed.last().1)),
            ),
        )
    } else {
        located_words(placed.drop_last())
    }
}

/// What `locate` makes of a text.
pub open spec fn located_of(text: Seq<char>) -> Seq<((int, int), (Seq<char>, Seq<char>))> {
    located_words(placed_words(text))
}

/// What each element says.
pub open spec fn located_view(v: Seq<Located>) -> Seq<((int, int), (Seq<char>, Seq<char>))> {
    Seq::new(
        v.len(),
        |i: int| ((v[i].first as int, v[i].last as int), (v[i].word.source@, v[i].word.token@)),
    )
}

/// The words of `placed`, without their places.
pub open spec fn words_in(placed: Seq<(int, Seq<char>)>) -> Seq<Seq<char>> {
    Seq::new(placed.len(), |i: int| placed[i].1)
}

/// The words with places are the words, and each word stands in the text at its place.
pub proof fn lemma_placed_words(text: Seq<char>, n: int)
    requires
        0 <= n <= text.len(),
    ensures
        words_in(placed_upto(text, n)) == split_upto(text, n).0,
        split_upto(text, n).1.len() <= n,
        split_upto(text, n).1 == text.subrange(n - split_upto(text, n).1.len(), n),
        forall|i: int|
            0 <= i < placed_upto(text, n).len() ==> 0 <= (#[trigger] placed_upto(text, n)[i]).0
                && placed_upto(text, n)[i].0 + placed_upto(text, n)[i].1.len() <= n
                && placed_upto(text, n)[i].1 == text.subrange(
                placed_upto(text, n)[i].0,
                placed_upto(text, n)[i].0 + placed_upto(text, n)[i].1.len(),
            ),
    decreases n,
{
    if n > 0 {
        lemma_placed_words(text, n - 1);
        let (done, current) = split_upto(text, n - 1);
        let placed = placed_upto(text, n - 1);
        let after = placed_upto(text, n);
        if is_whitespace(text[n - 1]) {
            if current.len() > 0 {
                assert(words_in(after) =~= done.push(current));
                assert forall|i: int| 0 <= i < after.len() implies 0 <= (#[trigger] after[i]).0
                    && after[i].0 + after[i].1.len() <= n && after[i].1 == text.subrange(
                    after[i].0,
                    after[i].0 + after[i].1.len(),
                ) by {
                    if i < placed.len() {
                        assert(after[i] == placed[i]);
                    }
                }
            }
            assert(split_upto(text, n).1 =~= text.subrange(n, n));
        } else {
            assert(split_upto(text, n).1 =~= text.subrange(n - 1 - current.len(), n));
        }
    } else {
        assert(words_in(placed_upto(text, n)) =~= split_upto(text, n).0);
        assert(split_upto(text, n).1 =~= text.subrange(0, 0));
    }
}

/// What `locate` gives are the words that `tokenize` gives, in the same order.
pub proof fn lemma_located_are_tokens(placed: Seq<(int, Seq<char>)>)
    ensures
        located_words(placed).len() == tokens_of_words(words_in(placed)).len(),
        forall|i: int|
            0 <= i < located_words(placed).len() ==> (#[trigger] located_words(placed)[i]).1
                == tokens_of_words(words_in(placed))[i],
    decreases placed.len(),
{
    if placed.len() > 0 {
        lemma_located_are_tokens(placed.drop_last());
        assert(words_in(placed).drop_last() =~= words_in(placed.drop_last()));
        assert(words_in(placed).last() == placed.last().1);
    }
}

/// Each word with a token stands among the words with places: its places are those of
/// the first and the last character of such a word, its source form and token are that
/// word's.
pub proof fn lemma_located_from_placed(placed: Seq<(int, Seq<char>)>, i: int)
    requires
        0 <= i < located_words(placed).len(),
    ensures
        exists|j: int|
            0 <= j < placed.len() && token_of((#[trigger] placed[j]).1).len() > 0
                && located_words(placed)[i] == (
                (placed[j].0, placed[j].0 + placed[j].1.len() - 1),
                (source_of(placed[j].1), token_of(placed[j].1)),
            ),
    decreases placed.len(),
{
    if placed.len() > 0 {
        let before = placed.drop_last();
        if i < located_words(before).len() {
            lemma_located_from_placed(before, i);
            let j = choose|j: int|
                0 <= j < before.len() && token_of((#[trigger] before[j]).1).len() > 0
                    && located_words(before)[i] == (
                    (before[j].0, before[j].0 + before[j].1.len() - 1),
                    (source_of(before[j].1), token_of(before[j].1)),
                );
            assert(placed[j] == before[j]);
        } else {
            assert(placed[placed.len() - 1] == placed.last());
        }
    }
}

/// Each word that `locate` gives stands in the text at its places: the stretch of the text
/// between them, both included, is a word, and the source form and the token are those of
/// that stretch.
pub proof fn lemma_located_stand_in_text(text: Seq<char>, i: int)
    requires
        0 <= i < located_of(text).len(),
    ensures
        0 <= located_of(text)[i].0.0 <= located_of(text)[i].0.1 < text.len(),
        located_of(text)[i].1.0 == source_of(
            text.subrange(located_of(text)[i].0.0, located_of(text)[i].0.1 + 1),
        ),
        located_of(text)[i].1.1 == token_of(
            text.subrange(located_of(text)[i].0.0, located_of(text)[i].0.1 + 1),
        ),
{
    let n = text.len() as int;
    let placed = placed_words(text);
    lemma_placed_words(text, n);
    lemma_located_from_placed(placed, i);
    let j = choose|j: int|
        0 <= j < placed.len() && token_of((#[trigger] placed[j]).1).len() > 0 && located_words(
            placed,
        )[i] == (
            (placed[j].0, placed[j].0 + placed[j].1.len() - 1),
            (source_of(placed[j].1), token_of(placed[j].1)),
        );
    let word = placed[j].1;
    assert(word.len() > 0) by {
        lemma_token_is_token(word, word.len() as int);
    }
    if j < placed_upto(text, n).len() {
        assert(placed[j] == placed_upto(text, n)[j]);
    }
    assert(word == text.subrange(placed[j].0, placed[j].0 + word.len()));
}

/// Splits a text into words at white space and gives, for each word that has a letter or
/// digit, the places of its first and last character, its source form and its token, in
/// the order of the words.
pub fn locate(input: &str) -> (out: Vec<Located>)
    ensures
        located_view(out@) == located_of(input@),
        forall|i: int|
            0 <= i < out@.len() ==> (#[trigger] out@[i]).first <= out@[i].last && out@[i].last
                < input@.len(),
{
    let chars = chars_of(input);
    let ghost t = chars@;
    let n = chars.len();
    let mut out: Vec<Located> = Vec::new();
    let mut word: Vec<char> = Vec::new();
    let mut i: usize = 0;
    assert(located_view(out@) =~= located_words(placed_upto(t, 0)));
    while i < n
        invariant
            i <= n,
            n == chars@.len(),
            t == chars@,
            word@ == split_upto(t, i as int).1,
            word@.len() <= i,
            located_view(out@) == located_words(placed_upto(t, i as int)),
            forall|k: int|
                0 <= k < out@.len() ==> (#[trigger] out@[k]).first <= out@[k].last && out@[k].last
                    < i,
        decreases n - i,
    {
        let c = chars[i];
        let ghost placed = placed_upto(t, i as int);
        let ghost had = located_view(out@);
        if char_is_whitespace(c) {
            if word.len() > 0 {
                let w = tokenize_word(&word);
                proof {
                    assert(placed.push(((i - word@.len()) as int, word@)).drop_last() =~= placed);
                }
                if w.token.as_str().unicode_len() > 0 {
                    out.push(Located { first: i - word.len(), last: i - 1, word: w });
                    assert(located_view(out@) =~= had.push(
                        (
                            ((i - word@.len()) as int, (i - 1) as int),
                            (source_of(word@), token_of(word@)),
                        ),
                    ));
                }
                word = Vec::new();
            }
        } else {
            word.push(c);
        }
        i = i + 1;
    }
    if word.len() > 0 {
        let ghost placed = placed_upto(t, n as int);
        let ghost had = located_view(out@);
        let w = tokenize_word(&word);
        proof {
            assert(placed.push(((n - word@.len()) as int, word@)).drop_last() =~= placed);
        }
        if w.token.as_str().unicode_len() > 0 {
            out.push(Located { first: n - word.len(), last: n - 1, word: w });
            assert(located_view(out@) =~= had.push(
                (
                    ((n - word@.len()) as int, (n - 1) as int),
                    (source_of(word@), token_of(word@)),
                ),
            ));
        }
    }
    out
}

} // verus!
