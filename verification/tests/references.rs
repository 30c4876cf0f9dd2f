use versearch::references::{
    captures, get_matches, parse_byte, to_match, Captured, Counted, Match, Sightings,
};

fn some(s: &str) -> Option<String> {
    Some(s.to_string())
}

#[test]
fn regex_matches_book_chapter_verse() {
    let found = captures("Genesis 1:1");
    let re_match = &found[0];
    assert_eq!(re_match.book, some("Genesis"));
    assert_eq!(re_match.chapter, some("1"));
    assert_eq!(re_match.verse, some("1"));
}

#[test]
fn regex_matches_book_verse_single() {
    let found = captures("Jude 1:1");
    let re_match = &found[0];
    assert_eq!(re_match.book_single, some("Jude"));
    assert_eq!(re_match.verse_single, some("1"));
}

#[test]
fn regex_matches_book_verse_single_optional() {
    let found = captures("Obadiah 1:1");
    let re_match = &found[0];
    assert_eq!(re_match.book_single, some("Obadiah"));
    assert_eq!(re_match.verse_single, some("1"));
}

fn reference(book: &str, chapter: u8, verse: u8) -> Match {
    Match { book: book.to_string(), chapter, verse }
}

#[test]
fn test_get_matches() {
    let matches = get_matches(
        r"
            Hello and blah
            and Genesis 1:1 and Exodus 1 but...\r\n John 3:16 also and stuff and Jude 3 with Obadiah 1:2 blerp Psalms 12 errrr\n\n
            Psalm 119:2 blah Psalms 12:2
            First Samuel 1:2 bloop Second John 3 blip blip Third John 4
        ",
    );
    println!("{:?}", matches);
    assert_eq!(
        matches,
        vec![
            reference("GENESIS", 1, 1),
            reference("JOHN", 3, 16),
            reference("JUDE", 1, 3),
            reference("OBADIAH", 1, 2),
            reference("PSALMS", 119, 2),
            reference("PSALMS", 12, 2),
            reference("1 SAMUEL", 1, 2),
            reference("2 JOHN", 1, 3),
            reference("3 JOHN", 1, 4),
        ]
    );
}

#[test]
fn references_whose_numbers_do_not_fit_are_passed_over() {
    assert_eq!(get_matches("Genesis 1:300 and Exodus 2:3"), vec![reference("EXODUS", 2, 3)]);
    assert_eq!(get_matches("Genesis 256:1"), vec![]);
    assert_eq!(get_matches("Psalm 150:6"), vec![reference("PSALMS", 150, 6)]);
    assert_eq!(get_matches("nothing here"), vec![]);
    assert_eq!(get_matches(""), vec![]);
}

#[test]
fn the_parts_of_a_match_make_a_reference() {
    let c = Captured {
        book: some("second Kings"),
        chapter: some("2"),
        verse: some("11"),
        book_single: None,
        verse_single: None,
    };
    assert_eq!(to_match(&c), Some(reference("2 KINGS", 2, 11)));
    let c = Captured {
        book: None,
        chapter: None,
        verse: None,
        book_single: some("third john"),
        verse_single: some("4"),
    };
    assert_eq!(to_match(&c), Some(reference("3 JOHN", 1, 4)));
    let c = Captured { book: some("Psalm"), chapter: some("23"), verse: some("1"), book_single: None, verse_single: None };
    assert_eq!(to_match(&c), Some(reference("PSALMS", 23, 1)));
    let c = Captured { book: None, chapter: some("23"), verse: some("1"), book_single: None, verse_single: None };
    assert_eq!(to_match(&c), None);
    let c = Captured { book: some("Job"), chapter: some("1"), verse: None, book_single: None, verse_single: None };
    assert_eq!(to_match(&c), None);
    let c = Captured { book: some("Job"), chapter: some("x"), verse: some("1"), book_single: None, verse_single: None };
    assert_eq!(to_match(&c), None);
}

#[test]
fn a_byte_is_read_from_digits() {
    assert_eq!(parse_byte("0"), Some(0));
    assert_eq!(parse_byte("007"), Some(7));
    assert_eq!(parse_byte("255"), Some(255));
    assert_eq!(parse_byte("256"), None);
    assert_eq!(parse_byte("1000"), None);
    assert_eq!(parse_byte(""), None);
    assert_eq!(parse_byte("+5"), None);
    assert_eq!(parse_byte("1a"), None);
    assert_eq!(parse_byte("٣"), None);
}


#[test]
fn references_are_counted_by_the_pages_on_which_they_were_seen() {
    let mut seen = Sightings::new();
    seen.note(&reference("JOHN", 3, 16), 77);
    seen.note(&reference("GENESIS", 1, 1), 5);
    seen.note(&reference("JOHN", 3, 16), 12);
    seen.note(&reference("JOHN", 3, 16), 77);
    seen.note(&reference("JOHN", 3, 2), 77);
    seen.note(&reference("JOHN", 11, 35), 1);
    seen.note(&reference("1 JOHN", 3, 16), 9);
    seen.note(&reference("JOHNS", 1, 1), 9);
    let counted = |book: &str, chapter: u8, verse: u8, count: usize| Counted {
        book: book.to_string(),
        chapter,
        verse,
        count,
    };
    assert_eq!(
        seen.make_counts_map(),
        vec![
            counted("1 JOHN", 3, 16, 1),
            counted("GENESIS", 1, 1, 1),
            counted("JOHN", 3, 2, 1),
            counted("JOHN", 3, 16, 2),
            counted("JOHN", 11, 35, 1),
            counted("JOHNS", 1, 1, 1),
        ]
    );
    assert_eq!(Sightings::new().make_counts_map(), vec![]);
}
