use versearch::book::Book;
use versearch::error::DataInputError;
use versearch::translation::{Translation, TRANSLATION_COUNT};
use versearch::verse_key::VerseKey;

#[test]
fn data_test_book_from_str() {
    assert_eq!(Book::from_str("Genesis"), Ok(Book::Genesis));
    assert_eq!(Book::from_str("Revelation"), Ok(Book::Revelation));
    assert!(Book::from_str("Banana").is_err());
}

#[test]
fn test_translation_from_str() {
    assert_eq!(Translation::from_str("KJV"), Ok(Translation::KJV));
    assert_eq!(Translation::from_str("NET"), Ok(Translation::NET));
}

#[test]
fn translation_from_str_refuses_other_names() {
    assert_eq!(Translation::from_str("kjv"), Err(DataInputError::new()));
    assert_eq!(Translation::from_str(""), Err(DataInputError::new()));
    assert_eq!(DataInputError::new().message(), "Cannot convert string to index data");
}

#[test]
fn translations_are_numbered_in_order() {
    assert_eq!(TRANSLATION_COUNT, 2);
    assert_eq!(Translation::KJV.ordinal(), 0);
    assert_eq!(Translation::NET.ordinal(), 1);
    assert_eq!(Translation::from_ordinal(0), Some(Translation::KJV));
    assert_eq!(Translation::from_ordinal(1), Some(Translation::NET));
    assert_eq!(Translation::from_ordinal(2), None);
    assert_eq!(Translation::from_ordinal(-1), None);
}

#[test]
fn book_from_str_reads_numbered_books() {
    assert_eq!(Book::from_str("1 Samuel"), Ok(Book::FirstSamuel));
    assert_eq!(Book::from_str("Song of Solomon"), Ok(Book::SongOfSolomon));
    assert_eq!(Book::from_str("3 John"), Ok(Book::ThirdJohn));
    assert!(Book::from_str("GENESIS").is_err());
    assert!(Book::from_str("First Samuel").is_err());
}

#[test]
fn book_from_string_reads_names_in_capitals() {
    assert_eq!(Book::from_string("GENESIS"), Ok(Book::Genesis));
    assert_eq!(Book::from_string("FIRST SAMUEL"), Ok(Book::FirstSamuel));
    assert_eq!(Book::from_string("SONG OF SOLOMON"), Ok(Book::SongOfSolomon));
    assert_eq!(Book::from_string("REVELATION"), Ok(Book::Revelation));
    assert_eq!(Book::from_string("Genesis"), Err(DataInputError::new()));
    assert_eq!(Book::from_string("1 SAMUEL"), Err(DataInputError::new()));
}

#[test]
fn books_are_numbered_in_canonical_order() {
    assert_eq!(Book::Genesis.ordinal(), 0);
    assert_eq!(Book::Malachi.ordinal(), 38);
    assert_eq!(Book::Matthew.ordinal(), 39);
    assert_eq!(Book::Revelation.ordinal(), 65);
}

#[test]
fn verse_key_from_book_name() {
    assert_eq!(VerseKey::from("John", 3, 16), Ok(VerseKey { book: 42, chapter: 3, verse: 16 }));
    assert_eq!(VerseKey::from("Banana", 1, 1), Err(DataInputError::new()));
}
