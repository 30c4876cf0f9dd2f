use versearch::builder::{build_index, create_index_proto_struct};
use versearch::corpus::{TranslationData, VerseText};
use versearch::error::BuildError;
use versearch::index::{IndexData, VersearchIndex};
use versearch::postings::ReverseIndexEntry;
use versearch::search::{span_string, Response};
use versearch::verse_key::VerseKey;

fn verse(book: i32, chapter: u32, verse: u32, text: &str) -> VerseText {
    VerseText { key: Some(VerseKey { book, chapter, verse }), text: text.to_string() }
}

fn letters() -> Vec<TranslationData> {
    vec![
        TranslationData {
            translation: 1,
            verses: vec![
                verse(42, 11, 35, "Jesus wept."),
                verse(47, 6, 11, "See what big letters I make as I write to you with my own hand!"),
                verse(45, 16, 21, "I, Paul, send this greeting with my own hand."),
                verse(50, 4, 18, "I, Paul, write this greeting by my own hand. Remember my chains. Grace be with you."),
                verse(52, 3, 17, "I, Paul, write this greeting with my own hand, which is how I write in every letter."),
                verse(56, 1, 19, "I, Paul, have written this letter with my own hand: I will repay it. I could also mention that you owe me your very self."),
            ],
        },
        TranslationData {
            translation: 0,
            verses: vec![
                verse(42, 11, 35, "Jesus wept."),
                verse(47, 6, 11, "Ye see how large a letter I have written unto you with mine own hand."),
                verse(45, 16, 21, "The salutation of me Paul with mine own hand."),
                verse(50, 4, 18, "The salutation by the hand of me Paul. Remember my bonds. Grace be with you. Amen."),
                verse(52, 3, 17, "The salutation of Paul with mine own hand, which is the token in every epistle: so I write."),
                verse(56, 1, 19, "I Paul have written it with mine own hand, I will repay it: albeit I do not say to thee how thou owest unto me even thine own self besides."),
            ],
        },
    ]
}

fn load(data: IndexData) -> VersearchIndex {
    match VersearchIndex::from_index_data_proto_struct(data) {
        Ok(index) => index,
        Err(e) => panic!("{}", e.message()),
    }
}

fn index_of(translations: &Vec<TranslationData>, citations: &Vec<String>) -> VersearchIndex {
    load(create_index_proto_struct(translations, citations).unwrap())
}

fn keys(response: &Response) -> Vec<(i32, u32, u32)> {
    response.results.iter().map(|r| (r.key.book, r.key.chapter, r.key.verse)).collect()
}

#[test]
fn own_hand_is_found_in_every_verse_that_has_it() {
    let six = vec![
        TranslationData {
            translation: 0,
            verses: vec![
                verse(1, 1, 1, "Written with mine own hand."),
                verse(1, 1, 2, "He gave it with his own hand."),
                verse(1, 1, 3, "By thine own hand it is done."),
                verse(1, 1, 4, "Her own hand made it."),
                verse(1, 1, 5, "Their own hand hath wrought this."),
                verse(1, 1, 6, "Mine own hand hath gotten me this wealth."),
            ],
        },
        TranslationData {
            translation: 1,
            verses: vec![
                verse(1, 1, 1, "I wrote this myself."),
                verse(1, 1, 2, "He gave it personally."),
                verse(1, 1, 3, "You did it yourself."),
                verse(1, 1, 4, "She made it herself."),
                verse(1, 1, 5, "They did this themselves."),
                verse(1, 1, 6, "I earned this wealth myself."),
            ],
        },
    ];
    let index = index_of(&six, &vec![]);
    let response = index.search("Own Hand");
    assert_eq!(response.results.len(), 6);
    for result in &response.results {
        assert_eq!(result.text.len(), 2);
        assert!(!result.text[0].is_empty());
        assert!(!result.text[1].is_empty());
        assert_eq!(result.rankings.len(), 2);
        assert!(result.rankings.iter().any(|r| r.query_words > 0));
        assert_eq!(result.rankings[0].query_words, 2);
        assert_eq!(result.rankings[0].exact, 2);
        assert_eq!(result.rankings[0].typos, 0);
        assert_eq!(result.rankings[1].query_words, 0);
        assert_eq!(result.top_translation, 0);
        assert_eq!(result.highlights, vec!["own".to_string(), "hand".to_string()]);
    }
    assert_eq!(
        keys(&response),
        vec![(1, 1, 1), (1, 1, 2), (1, 1, 3), (1, 1, 4), (1, 1, 5), (1, 1, 6)]
    );
    assert_eq!(response.results[0].text[0], "Written with mine own hand.");
    assert_eq!(response.results[0].text[1], "I wrote this myself.");
}

#[test]
fn letters_of_paul() {
    let index = index_of(&letters(), &vec![]);
    let response = index.search("Own Hand");
    assert_eq!(response.results.len(), 5);
    // In Colossians only one translation has both words.
    let colossians = response.results.iter().find(|r| r.key.book == 50).unwrap();
    assert_eq!(colossians.rankings[0].query_words, 1);
    assert_eq!(colossians.rankings[1].query_words, 2);
    assert_eq!(colossians.top_translation, 1);
    let response = index.search("Jesus wept");
    assert_eq!(keys(&response), vec![(42, 11, 35)]);
    assert_eq!(response.results[0].text, vec!["Jesus wept.".to_string(), "Jesus wept.".to_string()]);
    // One stretch for each place of a word, the first translation first.
    assert_eq!(
        response.results[0].highlights,
        vec!["Jesus".to_string(), "wept".to_string(), "Jesus".to_string(), "wept".to_string()]
    );
    // In Galatians the words stand at other places in each translation.
    let response = index.search("letter hand");
    let galatians = response.results.iter().find(|r| r.key.book == 47).unwrap();
    assert_eq!(
        galatians.highlights,
        vec!["letter".to_string(), "hand".to_string(), "letters".to_string(), "hand".to_string()]
    );
}

#[test]
fn search_of_nothing_finds_nothing() {
    let index = index_of(&letters(), &vec![]);
    assert_eq!(index.search("").results.len(), 0);
    assert_eq!(index.search("   ,,, ...").results.len(), 0);
    assert_eq!(index.search("xyzzy").results.len(), 0);
    assert_eq!(index.search("q").results.len(), 0);
}

#[test]
fn search_gives_twenty_results_at_most() {
    let mut verses = Vec::new();
    for v in 1..=45u32 {
        verses.push(verse(18, 119, v, "Blessed are the undefiled in the way"));
    }
    let index = index_of(&vec![TranslationData { translation: 0, verses }], &vec![]);
    let response = index.search("blessed");
    assert_eq!(response.results.len(), 20);
    // Ties are listed in the order of the canon.
    let expected: Vec<(i32, u32, u32)> = (1..=20u32).map(|v| (18, 119, v)).collect();
    assert_eq!(keys(&response), expected);
}

#[test]
fn a_word_of_the_index_is_exact_and_is_listed_first() {
    let data = vec![TranslationData {
        translation: 0,
        verses: vec![
            verse(0, 1, 1, "He took the handle"),
            verse(0, 1, 2, "He raised his hand"),
            verse(0, 1, 3, "He took a handful"),
        ],
    }];
    let index = index_of(&data, &vec![]);
    // The verses of the largest token are the candidates: every verse has "he".
    let response = index.search("he hand");
    assert_eq!(keys(&response), vec![(0, 1, 2), (0, 1, 1), (0, 1, 3)]);
    assert_eq!(response.results[0].rankings[0].query_words, 2);
    assert_eq!(response.results[0].rankings[0].exact, 2);
    assert_eq!(response.results[1].rankings[0].query_words, 2);
    assert_eq!(response.results[1].rankings[0].exact, 1);
    assert_eq!(response.results[1].rankings[0].typos, 0);
    assert_eq!(response.results[2].rankings[0].query_words, 2);
    assert_eq!(response.results[2].rankings[0].exact, 1);
    // Alone, the exact token is the seed, and only its verses are candidates.
    let response = index.search("hand");
    assert_eq!(keys(&response), vec![(0, 1, 2)]);
    assert_eq!(response.results[0].rankings[0].exact, 1);
    assert_eq!(response.results[0].highlights, vec!["hand".to_string()]);
}

#[test]
fn a_word_of_one_letter_is_never_exact() {
    let data = vec![TranslationData {
        translation: 0,
        verses: vec![verse(0, 1, 1, "I am"), verse(0, 1, 2, "In the beginning")],
    }];
    let index = index_of(&data, &vec![]);
    let response = index.search("i");
    assert_eq!(keys(&response), vec![(0, 1, 1)]);
    assert_eq!(response.results[0].rankings[0].exact, 0);
    assert_eq!(response.results[0].rankings[0].query_words, 1);
    let response = index.search("am");
    assert_eq!(keys(&response), vec![(0, 1, 1)]);
    assert_eq!(response.results[0].rankings[0].exact, 1);
}

#[test]
fn typos_are_found_where_no_token_has_the_word_as_a_prefix() {
    let index = index_of(&letters(), &vec![]);
    // One edit for a word of four to seven letters.
    let response = index.search("grxtxng");
    assert_eq!(response.results.len(), 0);
    let response = index.search("greting");
    assert_eq!(keys(&response), vec![(45, 16, 21), (50, 4, 18), (52, 3, 17)]);
    assert_eq!(response.results[0].rankings[1].typos, 1);
    assert_eq!(response.results[0].rankings[1].query_words, 1);
    assert_eq!(response.results[0].rankings[0].typos, 0);
    assert_eq!(response.results[0].highlights, vec!["greeting".to_string()]);
    let response = index.search("lettr");
    assert!(response.results.len() > 0);
    for result in &response.results {
        assert!(result.rankings.iter().any(|r| r.typos > 0));
        assert!(result.rankings.iter().all(|r| r.exact == 0));
    }
    // Two edits for a word of eight letters or more.
    let response = index.search("salutatoin");
    assert_eq!(keys(&response), vec![(45, 16, 21), (50, 4, 18), (52, 3, 17)]);
    // No edits for a word of fewer than four letters.
    assert_eq!(index.search("hnd").results.len(), 0);
}

#[test]
fn citations_break_ties() {
    let data = vec![TranslationData {
        translation: 0,
        verses: vec![
            verse(42, 3, 15, "that whosoever believeth"),
            verse(42, 3, 16, "that whosoever believeth"),
            verse(42, 3, 17, "that the world through him"),
        ],
    }];
    let citations = vec![
        "JOHN 3:16".to_string(),
        "JOHN 3:16".to_string(),
        "JOHN 3:15".to_string(),
        "JOHN 3:99".to_string(),
        "John 3:16".to_string(),
        "JOHN  3:16".to_string(),
        "JOHN 3:1600".to_string(),
        "nonsense".to_string(),
    ];
    let index = index_of(&data, &citations);
    let response = index.search("whosoever");
    assert_eq!(keys(&response), vec![(42, 3, 16), (42, 3, 15)]);
    assert_eq!(response.results[0].popularity, 2);
    assert_eq!(response.results[1].popularity, 1);
    let response = index.search("world");
    assert_eq!(response.results[0].popularity, 0);
}

#[test]
fn building_twice_gives_the_same_bytes() {
    let first = create_index_proto_struct(&letters(), &vec!["JOHN 11:35".to_string()]).unwrap();
    let second = create_index_proto_struct(&letters(), &vec!["JOHN 11:35".to_string()]).unwrap();
    assert_eq!(first, second);
    let rows: usize = first.reverse_index_entries.iter().map(|e| e.counts_map_data.len()).sum();
    let marks: usize = first.reverse_index_entries.iter().map(|e| e.highlights_map_data.len()).sum();
    assert_eq!(rows, marks);
    assert_eq!(first.translation_verses_strings.len(), 12);
}

#[test]
fn the_first_text_of_a_verse_is_kept() {
    let data = vec![TranslationData {
        translation: 0,
        verses: vec![verse(0, 1, 1, "first light"), verse(0, 1, 1, "light again")],
    }];
    let built = create_index_proto_struct(&data, &vec![]).unwrap();
    assert_eq!(built.translation_verses_strings, vec!["first light".to_string()]);
    let index = load(built);
    let response = index.search("light");
    assert_eq!(response.results.len(), 1);
    assert_eq!(response.results[0].text[0], "first light");
    assert_eq!(response.results[0].text[1], "");
    // The words of the later text are counted too, and their places mark the text that
    // was kept.
    assert_eq!(response.results[0].highlights, vec!["first".to_string(), "light".to_string()]);
    let response = index.search("again");
    assert_eq!(response.results.len(), 1);
    assert_eq!(response.results[0].text[0], "first light");
}

#[test]
fn highlights_are_runs_of_places_in_the_text() {
    let data = vec![
        TranslationData { translation: 0, verses: vec![verse(42, 11, 35, "Jesus wept.")] },
        TranslationData { translation: 1, verses: vec![verse(42, 11, 35, "Then Jesus  wept")] },
    ];
    let built = create_index_proto_struct(&data, &vec![]).unwrap();
    // The tokens in order: JESUS, THEN, WEPT.
    assert_eq!(built.reverse_index_entries.len(), 3);
    let jesus = &built.reverse_index_entries[0];
    assert_eq!(jesus.counts_map_data, vec![vec![0, 0, 0, 0, 0, 0, 0, 1, 0, 0, 0, 0, 0, 0, 0, 1]]);
    assert_eq!(
        jesus.highlights_map_data,
        vec![vec![
            0, 0, 0, 0, 0, 0, 0, 0, 0, 0, 0, 0, 0, 0, 0, 4, //
            0, 0, 0, 1, 0, 0, 0, 5, 0, 0, 0, 1, 0, 0, 0, 9,
        ]]
    );
    let then = &built.reverse_index_entries[1];
    assert_eq!(then.counts_map_data, vec![vec![0, 0, 0, 0, 0, 0, 0, 0, 0, 0, 0, 0, 0, 0, 0, 1]]);
    assert_eq!(
        then.highlights_map_data,
        vec![vec![0, 0, 0, 1, 0, 0, 0, 0, 0, 0, 0, 1, 0, 0, 0, 3]]
    );
    let wept = &built.reverse_index_entries[2];
    // The full stop belongs to the word, so it is marked with it.
    assert_eq!(
        wept.highlights_map_data,
        vec![vec![
            0, 0, 0, 0, 0, 0, 0, 6, 0, 0, 0, 0, 0, 0, 0, 10, //
            0, 0, 0, 1, 0, 0, 0, 12, 0, 0, 0, 1, 0, 0, 0, 15,
        ]]
    );
    let entry = ReverseIndexEntry::from_bytes_struct(wept).unwrap();
    assert_eq!(entry.len(), 1);
    assert_eq!(entry.get_verse_keys(), vec![vec![42, 11, 35]]);
    assert_eq!(entry.get_counts(&[42, 11, 35]), Some(&vec![1, 1]));
    assert_eq!(
        entry.get_highlights(&[42, 11, 35]),
        Some(&vec![(6, 10), (0x1_0000_000c, 0x1_0000_000f)])
    );
    assert_eq!(entry.get_highlights(&[42, 11, 36]), None);
    let index = load(built);
    let response = index.search("wept");
    assert_eq!(response.results[0].highlights, vec!["wept".to_string(), "wept".to_string()]);
    let response = index.search("then");
    assert_eq!(response.results[0].highlights, vec!["Then".to_string()]);
}

#[test]
fn a_word_that_comes_twice_is_marked_twice() {
    let data = vec![TranslationData {
        translation: 1,
        verses: vec![verse(22, 6, 3, "Holy, holy, HOLY is the Lord")],
    }];
    let built = create_index_proto_struct(&data, &vec![]).unwrap();
    let index = load(built);
    let response = index.search("holy");
    assert_eq!(response.results.len(), 1);
    assert_eq!(response.results[0].rankings[1].query_words, 1);
    assert_eq!(response.results[0].top_translation, 1);
    assert_eq!(
        response.results[0].highlights,
        vec!["Holy".to_string(), "holy".to_string(), "HOLY".to_string()]
    );
    assert_eq!(span_string(&vec![vec![], "Holy, holy".chars().collect()], 0x1_0000_0000, 0x1_0000_0004), "Holy");
    assert_eq!(span_string(&vec![vec![], "Holy, holy".chars().collect()], 0x1_0000_0006, 0x1_0000_0009), "holy");
    // A span that reaches over the end of its text marks nothing, nor one of no text.
    assert_eq!(span_string(&vec![vec![], "Holy, holy".chars().collect()], 0x1_0000_0006, 0x1_0000_000a), "");
    assert_eq!(span_string(&vec![vec![], "Holy, holy".chars().collect()], 0x2_0000_0000, 0x2_0000_0001), "");
    assert_eq!(span_string(&vec![vec![], "Holy, holy".chars().collect()], 0, 0), "");
    assert_eq!(span_string(&vec!["ab".chars().collect()], 1, 0), "");
}

#[test]
fn what_is_built_loads() {
    let index = match build_index(&letters(), &vec!["JOHN 11:35".to_string()]) {
        Ok(index) => index,
        Err(e) => panic!("{}", e.message()),
    };
    let response = index.search("wept");
    assert_eq!(keys(&response), vec![(42, 11, 35)]);
    assert_eq!(response.results[0].popularity, 1);
    let no_key = vec![TranslationData {
        translation: 0,
        verses: vec![VerseText { key: None, text: "b".to_string() }],
    }];
    assert!(matches!(build_index(&no_key, &vec![]), Err(BuildError::MissingKey)));
}

#[test]
fn bad_input_stops_the_build() {
    let no_key = vec![TranslationData {
        translation: 0,
        verses: vec![verse(0, 1, 1, "a"), VerseText { key: None, text: "b".to_string() }],
    }];
    assert_eq!(create_index_proto_struct(&no_key, &vec![]), Err(BuildError::MissingKey));
    let wide = vec![TranslationData { translation: 0, verses: vec![verse(0, 256, 1, "a")] }];
    assert_eq!(create_index_proto_struct(&wide, &vec![]), Err(BuildError::KeyOutOfRange));
    let wide = vec![TranslationData { translation: 0, verses: vec![verse(-1, 1, 1, "a")] }];
    assert_eq!(create_index_proto_struct(&wide, &vec![]), Err(BuildError::KeyOutOfRange));
    let both = vec![TranslationData {
        translation: 0,
        verses: vec![verse(0, 1, 300, "a"), VerseText { key: None, text: "b".to_string() }],
    }];
    assert_eq!(create_index_proto_struct(&both, &vec![]), Err(BuildError::KeyOutOfRange));
    let unknown = vec![TranslationData { translation: 2, verses: vec![] }];
    assert_eq!(create_index_proto_struct(&unknown, &vec![]), Err(BuildError::UnknownTranslation));
    assert_eq!(BuildError::MissingKey.message(), "Missing verse key");
}

#[test]
fn a_damaged_index_is_refused() {
    let good = create_index_proto_struct(&letters(), &vec![]).unwrap();
    assert!(VersearchIndex::from_index_data_proto_struct(good.clone()).is_ok());

    let mut bad = good.clone();
    bad.fst = vec![1, 2, 3];
    assert!(VersearchIndex::from_index_data_proto_struct(bad).is_err());

    let mut bad = good.clone();
    let last = bad.fst.len() - 20;
    bad.fst[last] ^= 0xff;
    assert!(VersearchIndex::from_index_data_proto_struct(bad).is_err());

    let mut bad = good.clone();
    bad.popularity.truncate(10);
    assert!(VersearchIndex::from_index_data_proto_struct(bad).is_err());

    let mut bad = good.clone();
    bad.reverse_index_entries.pop();
    assert!(VersearchIndex::from_index_data_proto_struct(bad).is_err());

    let mut bad = good.clone();
    bad.reverse_index_entries[0].counts_map_data[0].pop();
    assert!(VersearchIndex::from_index_data_proto_struct(bad).is_err());

    let mut bad = good.clone();
    bad.reverse_index_entries[0].highlights_map_data[0].push(0);
    assert!(VersearchIndex::from_index_data_proto_struct(bad).is_err());

    let mut bad = good.clone();
    bad.reverse_index_entries[0].highlights_map_data.pop();
    assert!(VersearchIndex::from_index_data_proto_struct(bad).is_err());

    // A run that ends before it begins.
    let mut bad = good.clone();
    bad.reverse_index_entries[0].highlights_map_data[0] =
        vec![0, 0, 0, 0, 0, 0, 0, 5, 0, 0, 0, 0, 0, 0, 0, 3];
    assert!(VersearchIndex::from_index_data_proto_struct(bad).is_err());

    // A run that reaches beyond the places of the last translation.
    let mut bad = good.clone();
    bad.reverse_index_entries[0].highlights_map_data[0] =
        vec![0, 0, 0, 0, 0, 0, 0, 0, 0, 0, 0, 2, 0, 0, 0, 0];
    assert!(VersearchIndex::from_index_data_proto_struct(bad).is_err());

    // A run that ends at the last place of the last translation is read.
    let mut fine = good.clone();
    fine.reverse_index_entries[0].highlights_map_data[0] =
        vec![0, 0, 0, 0, 0, 0, 0, 0, 0, 0, 0, 1, 255, 255, 255, 255];
    assert!(VersearchIndex::from_index_data_proto_struct(fine).is_ok());
}

#[test]
fn a_corpus_of_nothing_builds_and_loads() {
    let built = create_index_proto_struct(&vec![], &vec!["JOHN 3:16".to_string()]).unwrap();
    assert_eq!(built.reverse_index_entries.len(), 0);
    assert_eq!(built.translation_verses_strings.len(), 0);
    let index = load(built);
    assert_eq!(index.search("hand").results.len(), 0);
    // A verse without a word has a text and no token.
    let blank = vec![TranslationData { translation: 1, verses: vec![verse(0, 1, 1, " ... ")] }];
    let built = create_index_proto_struct(&blank, &vec![]).unwrap();
    assert_eq!(built.reverse_index_entries.len(), 0);
    assert_eq!(built.translation_verses_strings, vec![" ... ".to_string()]);
    let index = load(built);
    assert_eq!(index.search("...").results.len(), 0);
}
