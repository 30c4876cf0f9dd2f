use versearch::verse_key::{translation_verses_bytes_key, VerseKey};

#[test]
fn proto_to_and_from_bytes() {
    let key = VerseKey { book: 4, chapter: 5, verse: 6 };
    let bytes = key.to_be_bytes();
    let decoded = VerseKey::from_be_bytes(&bytes);
    assert_eq!(decoded.book, 4);
    assert_eq!(decoded.chapter, 5);
    assert_eq!(decoded.verse, 6);
}

#[test]
fn lib_to_and_from_bytes() {
    let key = VerseKey { book: 4, chapter: 5, verse: 6 };
    let bytes = key.to_be_bytes();
    assert_eq!(bytes, vec![4u8, 5, 6]);
    assert_eq!(VerseKey::get_byte_size(), 3);
    let decoded = VerseKey::from_be_bytes(&bytes);
    assert_eq!(decoded.book, 4);
    assert_eq!(decoded.chapter, 5);
    assert_eq!(decoded.verse, 6);
}

#[test]
fn every_valid_key_round_trips() {
    for book in [0, 1, 65, 255] {
        for chapter in [0u32, 1, 150, 255] {
            for verse in [0u32, 1, 176, 255] {
                let key = VerseKey { book, chapter, verse };
                assert!(key.fits());
                assert_eq!(VerseKey::from_be_bytes(&key.to_be_bytes()), key);
            }
        }
    }
    assert!(!VerseKey { book: -1, chapter: 1, verse: 1 }.fits());
    assert!(!VerseKey { book: 1, chapter: 256, verse: 1 }.fits());
    assert!(!VerseKey { book: 1, chapter: 1, verse: 256 }.fits());
}

#[test]
fn text_key_is_translation_then_verse() {
    let key = VerseKey { book: 42, chapter: 3, verse: 16 };
    assert_eq!(translation_verses_bytes_key(1, &key), vec![1u8, 42, 3, 16]);
}
