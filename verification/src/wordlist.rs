//! The words of a text as plain strings: its letters, in capitals, split at white space.

use crate::lex::{lemma_lex_transitive, lex_compare, lex_lt, strictly_sorted, LexOrder};
use crate::text::{
    char_is_alphabetic, char_is_whitespace, is_alphabetic, is_whitespace, str_to_uppercase,
    string_of, uppercase,
};
use vstd::prelude::*;
use vstd::utf8::encode_utf8;

verus! {

/// Where a reader stands after the first `n` characters of a text of which only letters
/// and white space count: the words that have ended, and the letters of a word that has
/// begun.
pub open spec fn letters_upto(text: Seq<char>, n: int) -> (Seq<Seq<char>>, Seq<char>)
    decreases n,
{
    if n <= 0 {
        (Seq::empty(), Seq::empty())
    } else {
        let (done, current) = letters_upto(text, n - 1);
        if is_alphabetic(text[n - 1]) {
            (done, current.push(text[n - 1]))
        } else if is_whitespace(text[n - 1]) && current.len() > 0 {
            (done.push(current), Seq::empty())
        } else {
            (done, current)
        }
    }
}

/// The words of a text that is in capitals already: what its letters spell between white
/// space. A character that is neither a letter nor white space is passed over.
pub open spec fn letter_words(text: Seq<char>) -> Seq<Seq<char>> {
    let (done, current) = letters_upto(text, text.len() as int);
    if current.len() > 0 {
        done.push(current)
    } else {
        done
    }
}

/// The characters of each string.
pub open spec fn strings_view(v: Seq<String>) -> Seq<Seq<char>> {
    Seq::new(v.len(), |i: int| v[i]@)
}

/// The bytes of each string.
pub open spec fn strings_bytes(v: Seq<String>) -> Seq<Seq<u8>> {
    Seq::new(v.len(), |i: int| encode_utf8(v[i]@))
}

/// The words of a text: the text is put in capitals, and what its letters spell between
/// white space is a word.
pub fn tokenize(input: &str) -> (out: Vec<String>)
    ensures
        strings_view(out@) == letter_words(uppercase(input@)),
{
    let upper = str_to_uppercase(input);
    let text = upper.as_str();
    let mut out: Vec<String> = Vec::new();
    let mut word: Vec<char> = Vec::new();
    assert(strings_view(out@) =~= Seq::<Seq<char>>::empty());
    for c in it: text.chars()
        invariant
            it.seq() == text@,
            letters_upto(text@, it.index() as int) == (strings_view(out@), word@),
    {
        assert(c == text@[it.index() as int]);
        let ghost before = strings_view(out@);
        if char_is_alphabetic(c) {
            word.push(c);
        } else if char_is_whitespace(c) && word.len() > 0 {
            out.push(string_of(&word));
            assert(strings_view(out@) =~= before.push(word@));
            word = Vec::new();
        }
    }
    if word.len() > 0 {
        let ghost before = strings_view(out@);
        out.push(string_of(&word));
        assert(strings_view(out@) =~= before.push(word@));
    }
    out
}

/// The words of a text, each once, in the order of their bytes.
pub fn ordered_tokenize(input: &str) -> (out: Vec<String>)
    ensures
        strictly_sorted(strings_bytes(out@)),
        forall|w: Seq<char>|
            strings_view(out@).contains(w) <==> letter_words(uppercase(input@)).contains(w),
{
    let words = tokenize(input);
    let ghost all = strings_view(words@);
    let mut out: Vec<String> = Vec::new();
    let mut i: usize = 0;
    while i < words.len()
        invariant
            i <= words.len(),
            all == strings_view(words@),
            strictly_sorted(strings_bytes(out@)),
            forall|w: Seq<char>|
                strings_view(out@).contains(w) <==> all.subrange(0, i as int).contains(w),
        decreases words.len() - i,
    {
        let word = words[i].as_str();
        let ghost w = word@;
        assert(all[i as int] == w);
        let ghost old_out = out@;
        let ghost keys = strings_bytes(out@);
        let mut at: usize = 0;
        let mut known = false;
        let mut beyond = false;
        while at < out.len() && !known && !beyond
            invariant
                at <= out.len(),
                out@ == old_out,
                keys == strings_bytes(out@),
                strictly_sorted(keys),
                word@ == w,
                forall|j: int| 0 <= j < at ==> lex_lt(#[trigger] keys[j], encode_utf8(w)),
                known ==> at < out.len() && keys[at as int] == encode_utf8(w),
                beyond ==> at < out.len() && lex_lt(encode_utf8(w), keys[at as int]),
                !(known && beyond),
            decreases out.len() - at + if known || beyond { 0int } else { 1int },
        {
            assert(keys[at as int] == encode_utf8(out@[at as int]@));
            match lex_compare(out[at].as_str().as_bytes(), word.as_bytes()) {
                LexOrder::Before => {
                    at = at + 1;
                },
                LexOrder::Same => {
                    known = true;
                },
                LexOrder::After => {
                    beyond = true;
                },
            }
        }
        let ghost shorter = all.subrange(0, i as int);
        let ghost longer = all.subrange(0, i + 1);
        proof {
            assert(longer =~= shorter.push(w));
        }
        if known {
            proof {
                vstd::utf8::encode_utf8_decode_utf8(w);
                vstd::utf8::encode_utf8_decode_utf8(out@[at as int]@);
                assert(strings_view(out@)[at as int] == w);
                assert forall|x: Seq<char>|
                    strings_view(out@).contains(x) <==> longer.contains(x) by {
                    if longer.contains(x) {
                        let j = choose|j: int|
                            0 <= j < longer.len() && longer[j]
                                == x;
                        if j < i {
                            assert(shorter[j] == x);
                        }
                    }
                    if shorter.contains(x) {
                        let j = choose|j: int|
                            0 <= j < shorter.len() && shorter[j] == x;
                        assert(longer[j] == x);
                    }
                }
            }
        } else {
            proof {
                if at < out.len() {
                    assert(lex_lt(encode_utf8(w), keys[at as int]));
                    assert forall|j: int| at <= j < keys.len() implies lex_lt(
                        encode_utf8(w),
                        #[trigger] keys[j],
                    ) by {
                        if j > at {
                            lemma_lex_transitive(encode_utf8(w), keys[at as int], keys[j]);
                        }
                    }
                }
            }
            out.insert(at, string_of(&crate::text::chars_of(word)));
            proof {
                let b = strings_bytes(out@);
                let k = encode_utf8(w);
                assert(b =~= keys.insert(at as int, k));
                assert forall|p: int, q: int| 0 <= p < q < b.len() implies lex_lt(
                    #[trigger] b[p],
                    #[trigger] b[q],
                ) by {
                    if q < at {
                        assert(b[p] == keys[p] && b[q] == keys[q]);
                    } else if q == at {
                        assert(b[p] == keys[p]);
                    } else if p < at {
                        assert(b[p] == keys[p] && b[q] == keys[q - 1]);
                        lemma_lex_transitive(keys[p], k, keys[q - 1]);
                    } else if p == at {
                        assert(b[q] == keys[q - 1]);
                    } else {
                        assert(b[p] == keys[p - 1] && b[q] == keys[q - 1]);
                    }
                }
                let before = strings_view(old_out);
                let after = strings_view(out@);
                assert(after =~= before.insert(at as int, w));
                assert forall|x: Seq<char>|
                    after.contains(x) <==> longer.contains(x) by {
                    if after.contains(x) {
                        let j = choose|j: int| 0 <= j < after.len() && after[j] == x;
                        if j < at {
                            assert(before[j] == x);
                            assert(before.contains(x));
                        } else if j > at {
                            assert(before[j - 1] == x);
                            assert(before.contains(x));
                        }
                        if before.contains(x) {
                            let h = choose|h: int|
                                0 <= h < shorter.len() && shorter[h] == x;
                            assert(longer[h] == x);
                        } else {
                            assert(longer[i as int] == x);
                        }
                    }
                    if longer.contains(x) {
                        let j = choose|j: int|
                            0 <= j < longer.len() && longer[j]
                                == x;
                        if j < i {
                            assert(shorter[j] == x);
                            assert(before.contains(x));
                            let h = choose|h: int| 0 <= h < before.len() && before[h] == x;
                            if h < at {
                                assert(after[h] == x);
                            } else {
                                assert(after[h + 1] == x);
                            }
                        } else {
                            assert(after[at as int] == x);
                        }
                    }
                }
            }
        }
        i = i + 1;
    }
    assert(all.subrange(0, all.len() as int) =~= all);
    out
}

} // verus!
