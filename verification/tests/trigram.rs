use versearch::trigram::{
    make_bgrams, make_gram_set, BGram, BGramIndex, IndexedBGram, JsonVerse, Overlap,
};

#[test]
fn test_make_bgrams() {
    let s = String::from("Jesus wept.");

    // Process text into indexed 3-grams
    let v = make_bgrams(&s);

    assert_eq!(
        v,
        vec![
            IndexedBGram(0, BGram('J', 'E', 'S')),
            IndexedBGram(1, BGram('E', 'S', 'U')),
            IndexedBGram(2, BGram('S', 'U', 'S')),
            IndexedBGram(3, BGram('U', 'S', 'W')),
            IndexedBGram(4, BGram('S', 'W', 'E')),
            IndexedBGram(6, BGram('W', 'E', 'P')),
            IndexedBGram(7, BGram('E', 'P', 'T'))
        ]
    );
}

#[test]
fn short_texts_have_no_groups() {
    assert_eq!(make_bgrams(&String::from("")), vec![]);
    assert_eq!(make_bgrams(&String::from("a b")), vec![]);
    assert_eq!(make_bgrams(&String::from("1 2 3 4")), vec![]);
    assert_eq!(make_bgrams(&String::from("a-b-c")), vec![IndexedBGram(0, BGram('A', 'B', 'C'))]);
}

#[test]
fn a_gram_set_holds_each_group_once() {
    let grams = make_bgrams(&String::from("abcabcab"));
    assert_eq!(grams.len(), 6);
    assert_eq!(
        make_gram_set(&grams),
        vec![BGram('A', 'B', 'C'), BGram('B', 'C', 'A'), BGram('C', 'A', 'B')]
    );
    assert_eq!(make_gram_set(&vec![]), vec![]);
}


fn json_verse(book: &str, chapter: u8, verse: u8, text: &str) -> JsonVerse {
    JsonVerse { book: String::from(book), chapter, verse, text: String::from(text) }
}

fn verses(found: &Vec<Overlap>) -> Vec<(String, u8, u8)> {
    let mut out: Vec<(String, u8, u8)> = Vec::new();
    for o in found {
        let key = (o.book.clone(), o.chapter, o.verse);
        if !out.contains(&key) {
            out.push(key);
        }
    }
    out
}

fn paul() -> BGramIndex {
    let mut index = BGramIndex::new();
    let v1 = json_verse("John", 11, 35, "Jesus wept.");
    let v2_net = json_verse("Galatians", 6, 11, "See what big letters I make as I write to you with my own hand!");
    let v2_kjv = json_verse("Galatians", 6, 11, "Ye see how large a letter I have written unto you with mine own hand.");
    let v3_net = json_verse("1 Corinthians", 16, 21, "I, Paul, send this greeting with my own hand.");
    let v3_kjv = json_verse("1 Corinthians", 16, 21, "The salutation of me Paul with mine own hand.");
    let v4_net = json_verse("Colossions", 4, 18, "I, Paul, write this greeting by my own hand. Remember my chains. Grace be with you.");
    let v4_kjv = json_verse("Colossions", 4, 18, "The salutation by the hand of me Paul. Remember my bonds. Grace be with you. Amen.");
    let v5_net = json_verse("2 Thessalonians", 3, 17, "I, Paul, write this greeting with my own hand, which is how I write in every letter.");
    let v5_kjv = json_verse("2 Thessalonians", 3, 17, "The salutation of Paul with mine own hand, which is the token in every epistle: so I write.");
    let v6_net = json_verse("Philemon", 1, 19, "I, Paul, have written this letter with my own hand: I will repay it. I could also mention that you owe me your very self.");
    let v6_kjv = json_verse("Philemon", 1, 19, "I Paul have written it with mine own hand, I will repay it: albeit I do not say to thee how thou owest unto me even thine own self besides.");
    index.insert_verse(&String::from("NET"), v1.clone());
    index.insert_verse(&String::from("KJV"), v1.clone());
    index.insert_verse(&String::from("NET"), v2_net);
    index.insert_verse(&String::from("KJV"), v2_kjv);
    index.insert_verse(&String::from("NET"), v3_net);
    index.insert_verse(&String::from("KJV"), v3_kjv);
    index.insert_verse(&String::from("NET"), v4_net);
    index.insert_verse(&String::from("KJV"), v4_kjv);
    index.insert_verse(&String::from("NET"), v5_net);
    index.insert_verse(&String::from("KJV"), v5_kjv);
    index.insert_verse(&String::from("NET"), v6_net);
    index.insert_verse(&String::from("KJV"), v6_kjv);
    index
}

#[test]
fn insert_and_search() {
    let index = paul();
    let res = verses(&index.search(&String::from("Jes wep")));
    assert_eq!(res.len(), 1);
    let res = verses(&index.search(&String::from("Paul")));
    assert_eq!(res.len(), 4);
    let res = verses(&index.search(&String::from("Letters")));
    assert_eq!(res.len(), 3);
    let res = verses(&index.search(&String::from("Own Hand")));
    assert_eq!(res.len(), 5);
    let res = verses(&index.search(&String::from("Own Hand Greetings")));
    assert_eq!(res.len(), 5);
}

#[test]
fn an_overlap_counts_shared_groups_and_gives_their_places() {
    let mut index = BGramIndex::new();
    index.insert_verse(&String::from("KJV"), json_verse("John", 11, 35, "Jesus wept."));
    index.insert_verse(&String::from("NET"), json_verse("John", 11, 35, "Jesus cried."));
    index.insert_verse(&String::from("KJV"), json_verse("John", 11, 36, "Behold how he loved him!"));
    assert_eq!(index.verse_index.len(), 3);
    let found = index.search(&String::from("wept"));
    assert_eq!(found.len(), 2);
    assert_eq!(found[0].translation, "KJV");
    assert_eq!((found[0].book.as_str(), found[0].chapter, found[0].verse), ("John", 11, 35));
    // WEP and EPT of the seven groups of the verse; the query has no other group.
    assert_eq!(found[0].shared, 2);
    assert_eq!(found[0].total, 7);
    assert_eq!(found[0].highlights, vec![(6, 8), (7, 9)]);
    // The other translation of the verse is given too, though it shares nothing.
    assert_eq!(found[1].translation, "NET");
    assert_eq!(found[1].shared, 0);
    assert_eq!(found[1].total, 10);
    assert_eq!(found[1].highlights, vec![]);
    assert_eq!(index.search(&String::from("xyz")), vec![]);
    assert_eq!(index.search(&String::from("")), vec![]);
}

#[test]
fn a_verse_that_comes_again_replaces_its_groups() {
    let mut index = BGramIndex::new();
    index.insert_verse(&String::from("KJV"), json_verse("John", 11, 35, "Jesus wept."));
    index.insert_verse(&String::from("KJV"), json_verse("John", 11, 35, "Jesus"));
    assert_eq!(index.verse_index.len(), 1);
    assert_eq!(index.verse_index[0].grams.len(), 3);
    // The places of the groups add up.
    assert_eq!(index.find_gram(BGram('J', 'E', 'S'), "John", 11, 35, "KJV"), Some(0));
    assert_eq!(index.gram_index[0].highlights, vec![(0, 2), (0, 2)]);
    assert_eq!(index.find_gram(BGram('J', 'E', 'S'), "John", 11, 35, "NET"), None);
}
