use versearch::lex::LexOrder;
use versearch::text::char_is_whitespace;
use versearch::tokenizer::{locate, tokenize, tokenize_word, Located, Tokenized};

fn pair(source: &str, token: &str) -> Tokenized {
    Tokenized { source: source.to_string(), token: token.to_string() }
}

#[test]
fn util_test_tokenize() {
    assert_eq!(tokenize("hello, world!"), vec![pair("hello", "HELLO"), pair("world", "WORLD")]);
    assert_eq!(
        tokenize("It's all good in the neighborhood which is... good"),
        vec![
            pair("It's", "ITS"),
            pair("all", "ALL"),
            pair("good", "GOOD"),
            pair("in", "IN"),
            pair("the", "THE"),
            pair("neighborhood", "NEIGHBORHOOD"),
            pair("which", "WHICH"),
            pair("is", "IS"),
            pair("good", "GOOD"),
        ]
    );
}

#[test]
fn tokenize_keeps_an_inner_apostrophe_in_the_source() {
    let tokens = tokenize("It's all good");
    assert_eq!(tokens[0], pair("It's", "ITS"));
    assert_eq!(tokens.len(), 3);
}

#[test]
fn tokenize_splits_at_any_white_space() {
    assert_eq!(
        tokenize("one\ttwo\nthree\u{a0}four\u{2003}five  six"),
        vec![
            pair("one", "ONE"),
            pair("two", "TWO"),
            pair("three", "THREE"),
            pair("four", "FOUR"),
            pair("five", "FIVE"),
            pair("six", "SIX"),
        ]
    );
    assert_eq!(tokenize("caf\u{e9} 42nd"), vec![pair("caf", "CAF"), pair("42nd", "42ND")]);
}

#[test]
fn tokenize_drops_words_without_letters_or_digits() {
    assert_eq!(tokenize(""), vec![]);
    assert_eq!(tokenize("  ...  ,, '' "), vec![]);
    assert_eq!(tokenize("a ... b"), vec![pair("a", "A"), pair("b", "B")]);
}

#[test]
fn tokenize_keeps_inner_apostrophes_and_commas_but_a_last_one() {
    assert_eq!(tokenize("'tis"), vec![pair("tis", "TIS")]);
    assert_eq!(tokenize("Jesus'"), vec![pair("Jesus", "JESUS")]);
    assert_eq!(tokenize("1,000,"), vec![pair("1,000", "1000")]);
    assert_eq!(tokenize(",x"), vec![pair(",x", "X")]);
}

#[test]
fn words_are_compared_by_their_tokens() {
    assert_eq!(pair("It's", "ITS").compare(&pair("its", "ITS")), LexOrder::Same);
    assert_eq!(pair("a", "A").compare(&pair("b", "B")), LexOrder::Before);
    assert_eq!(pair("ab", "AB").compare(&pair("a", "A")), LexOrder::After);
}

fn at(first: usize, last: usize, source: &str, token: &str) -> Located {
    Located { first, last, word: pair(source, token) }
}

#[test]
fn words_are_located_by_their_characters() {
    assert_eq!(locate("Jesus wept."), vec![at(0, 4, "Jesus", "JESUS"), at(6, 10, "wept", "WEPT")]);
    assert_eq!(
        locate("  \u{e9}t\u{e9}, \t ... it's\u{2003}x"),
        vec![at(2, 5, "t", "T"), at(13, 16, "it's", "ITS"), at(18, 18, "x", "X")]
    );
    assert_eq!(locate(""), vec![]);
    assert_eq!(locate(" ... "), vec![]);
    assert_eq!(locate("a"), vec![at(0, 0, "a", "A")]);
    let text = "It's all good in the neighborhood which is... good";
    let words: Vec<Tokenized> = locate(text).into_iter().map(|l| l.word).collect();
    assert_eq!(words, tokenize(text));
    let chars: Vec<char> = text.chars().collect();
    for l in locate(text) {
        assert_eq!(tokenize_word(&chars[l.first..=l.last].to_vec()), l.word);
    }
}

#[test]
fn white_space_is_what_the_standard_library_says() {
    let mut c: u32 = 0;
    while c <= 0x10ffff {
        if let Some(ch) = char::from_u32(c) {
            assert_eq!(char_is_whitespace(ch), ch.is_whitespace());
        }
        c += 1;
    }
    assert!(char_is_whitespace(' '));
    assert!(char_is_whitespace('\u{3000}'));
    assert!(!char_is_whitespace('\u{200b}'));
    assert!(!char_is_whitespace('a'));
}
