use versearch::be64::{push_u64, read_u64, read_u64s, write_u64s};
use versearch::citation::parse_citation;
use versearch::expand::{record_hit, Discovered, MatchType};
use versearch::idset::{insert_id, insert_range, insert_span, insert_spans};
use versearch::lex::{begins_with, lex_compare, LexOrder};
use versearch::rank::rank;
use versearch::ranking::{InternalServiceRanking, Placing, Ranking};
use versearch::runs::{check_runs, compress, expand, read_runs, write_runs};
use versearch::select::{select_seed, MAX_RESULTS};
use versearch::verse_key::VerseKey;
use versearch::verse_match::VerseMatch;

fn found(id: u64, match_type: MatchType) -> Discovered {
    Discovered { id, match_type, qidx: 0 }
}

#[test]
fn the_seed_is_the_first_list_that_is_long_enough() {
    assert_eq!(MAX_RESULTS, 20);
    let mix = vec![found(0, MatchType::Exact), found(1, MatchType::Prefix), found(2, MatchType::Typo)];
    // A list of three pages is taken, whatever its class.
    assert_eq!(select_seed(&mix, &vec![5, 25, 80]), 2);
    // With no list of three pages, a list of two pages is taken.
    assert_eq!(select_seed(&mix, &vec![5, 25, 45]), 2);
    // With no list of two pages, a list of one page is taken.
    assert_eq!(select_seed(&mix, &vec![5, 25, 8]), 1);
    // With no list of one page, the largest is taken.
    assert_eq!(select_seed(&mix, &vec![5, 19, 8]), 1);
    // Of lists that are long enough the better class is taken, then the shorter list.
    assert_eq!(select_seed(&mix, &vec![70, 60, 60]), 0);
    assert_eq!(select_seed(&mix, &vec![59, 70, 60]), 1);
    let prefixes = vec![found(0, MatchType::Prefix), found(1, MatchType::Prefix)];
    assert_eq!(select_seed(&prefixes, &vec![70, 60]), 1);
    // Of lists of one size the exact one is taken, then the one with the smaller number.
    let tie = vec![found(7, MatchType::Typo), found(4, MatchType::Prefix), found(9, MatchType::Exact)];
    assert_eq!(select_seed(&tie, &vec![25, 25, 25]), 2);
    assert_eq!(select_seed(&tie, &vec![5, 5, 5]), 2);
    let same = vec![found(7, MatchType::Prefix), found(4, MatchType::Prefix)];
    assert_eq!(select_seed(&same, &vec![5, 5]), 1);
}

#[test]
fn a_token_keeps_its_best_class_and_its_first_word() {
    let mut list = Vec::new();
    record_hit(&mut list, 3, MatchType::Typo, 0);
    record_hit(&mut list, 5, MatchType::Prefix, 0);
    record_hit(&mut list, 3, MatchType::Prefix, 1);
    record_hit(&mut list, 5, MatchType::Typo, 2);
    record_hit(&mut list, 3, MatchType::Exact, 2);
    assert_eq!(
        list,
        vec![
            Discovered { id: 3, match_type: MatchType::Exact, qidx: 0 },
            Discovered { id: 5, match_type: MatchType::Prefix, qidx: 0 },
        ]
    );
    assert_eq!(MatchType::Typo.better_of(MatchType::Prefix), MatchType::Prefix);
    assert_eq!(MatchType::Exact.better_of(MatchType::Typo), MatchType::Exact);
    assert_eq!(MatchType::Typo.better_of(MatchType::Typo), MatchType::Typo);
}

#[test]
fn numbers_are_written_with_the_heaviest_byte_first() {
    let mut out = vec![9u8];
    push_u64(&mut out, 0x0102030405060708);
    assert_eq!(out, vec![9, 1, 2, 3, 4, 5, 6, 7, 8]);
    assert_eq!(read_u64(&out, 1), 0x0102030405060708);
    assert_eq!(write_u64s(&[1, u64::MAX]), vec![0, 0, 0, 0, 0, 0, 0, 1, 255, 255, 255, 255, 255, 255, 255, 255]);
    assert_eq!(read_u64s(&write_u64s(&[0, 7, u64::MAX])), Some(vec![0, 7, u64::MAX]));
    assert_eq!(read_u64s(&[]), Some(vec![]));
    assert_eq!(read_u64s(&[0; 7]), None);
    assert_eq!(read_u64s(&[0; 9]), None);
}

#[test]
fn runs_hold_consecutive_numbers() {
    assert_eq!(compress(&[]), vec![]);
    assert_eq!(compress(&[4]), vec![(4, 4)]);
    assert_eq!(compress(&[1, 2, 3, 7, 9, 10]), vec![(1, 3), (7, 7), (9, 10)]);
    assert_eq!(compress(&[u64::MAX - 1, u64::MAX]), vec![(u64::MAX - 1, u64::MAX)]);
    assert_eq!(expand(&vec![(1, 3), (7, 7), (9, 10)], 11), Some(vec![1, 2, 3, 7, 9, 10]));
    assert_eq!(expand(&vec![], 0), Some(vec![]));
    // A run may not end at or above the limit, be empty, or begin before the last one ended.
    assert_eq!(expand(&vec![(1, 3), (7, 7), (9, 10)], 10), None);
    assert_eq!(expand(&vec![(3, 1)], 10), None);
    assert_eq!(expand(&vec![(1, 3), (3, 4)], 10), None);
    assert_eq!(expand(&vec![(5, 6), (1, 2)], 10), None);
    // Runs that touch are read, though they are not written.
    assert_eq!(expand(&vec![(1, 2), (3, 4)], 10), Some(vec![1, 2, 3, 4]));
    let bytes = write_runs(&vec![(1, 3), (7, 7)]);
    assert_eq!(bytes.len(), 32);
    assert_eq!(&bytes[..16], &[0, 0, 0, 0, 0, 0, 0, 1, 0, 0, 0, 0, 0, 0, 0, 3]);
    assert_eq!(read_runs(&bytes), Some(vec![(1, 3), (7, 7)]));
    assert_eq!(read_runs(&bytes[..31]), None);
    let ids = vec![0, 1, 2, 5, 8, 9, 300];
    assert_eq!(expand(&read_runs(&write_runs(&compress(&ids))).unwrap(), 301), Some(ids));
}

#[test]
fn sets_of_numbers_stay_in_order() {
    let mut set = vec![];
    insert_id(&mut set, 5);
    insert_id(&mut set, 1);
    insert_id(&mut set, 9);
    insert_id(&mut set, 5);
    assert_eq!(set, vec![1, 5, 9]);
    for x in [9, 0, 7, 7, 1] {
        insert_id(&mut set, x);
    }
    assert_eq!(set, vec![0, 1, 5, 7, 9]);
}

#[test]
fn a_stretch_of_numbers_joins_a_set() {
    let mut set = vec![2, 5, 9];
    insert_range(&mut set, 4, 6);
    assert_eq!(set, vec![2, 4, 5, 6, 9]);
    insert_range(&mut set, 7, 7);
    assert_eq!(set, vec![2, 4, 5, 6, 7, 9]);
    insert_range(&mut set, 3, 1);
    assert_eq!(set, vec![2, 4, 5, 6, 7, 9]);
    insert_range(&mut set, u64::MAX - 1, u64::MAX);
    assert_eq!(set, vec![2, 4, 5, 6, 7, 9, u64::MAX - 1, u64::MAX]);
}

#[test]
fn sets_of_spans_stay_in_order() {
    let mut set = vec![];
    insert_span(&mut set, (5, 8));
    insert_span(&mut set, (1, 3));
    insert_span(&mut set, (5, 6));
    insert_span(&mut set, (5, 8));
    assert_eq!(set, vec![(1, 3), (5, 6), (5, 8)]);
    insert_spans(&mut set, &[(9, 9), (0, 4), (1, 3)]);
    assert_eq!(set, vec![(0, 4), (1, 3), (5, 6), (5, 8), (9, 9)]);
}

#[test]
fn runs_are_checked_as_they_are_read() {
    assert!(check_runs(&vec![], 0));
    assert!(check_runs(&vec![(1, 3), (7, 7), (9, 10)], 11));
    assert!(!check_runs(&vec![(1, 3), (7, 7), (9, 10)], 10));
    assert!(!check_runs(&vec![(3, 1)], 10));
    assert!(!check_runs(&vec![(1, 3), (3, 4)], 10));
    assert!(!check_runs(&vec![(5, 6), (1, 2)], 10));
    assert!(check_runs(&vec![(1, 2), (3, 4)], 10));
}

#[test]
fn byte_strings_are_ordered_like_keys() {
    assert_eq!(lex_compare(b"", b""), LexOrder::Same);
    assert_eq!(lex_compare(b"", b"a"), LexOrder::Before);
    assert_eq!(lex_compare(b"ab", b"a"), LexOrder::After);
    assert_eq!(lex_compare(b"ab", b"b"), LexOrder::Before);
    assert_eq!(lex_compare(&[0, 255], &[1, 0]), LexOrder::Before);
    assert_eq!(lex_compare(b"same", b"same"), LexOrder::Same);
    assert!(begins_with(b"hand", b"ha"));
    assert!(begins_with(b"hand", b""));
    assert!(begins_with(b"hand", b"hand"));
    assert!(!begins_with(b"ha", b"hand"));
    assert!(!begins_with(b"hand", b"an"));
}

fn ranking(query_words: u32, exact: u32, proximity: i32, typos: u32) -> Ranking {
    Ranking { typos, query_words, proximity, exact }
}

#[test]
fn rankings_order_by_words_then_exact_then_proximity_then_typos() {
    let base = ranking(2, 1, 5, 1);
    assert_eq!(base.compare(&base), Placing::Level);
    assert_eq!(ranking(3, 0, 9, 9).compare(&base), Placing::Above);
    assert_eq!(ranking(1, 9, 1, 0).compare(&base), Placing::Below);
    assert_eq!(ranking(2, 2, 9, 9).compare(&base), Placing::Above);
    assert_eq!(ranking(2, 0, 1, 0).compare(&base), Placing::Below);
    assert_eq!(ranking(2, 1, 4, 9).compare(&base), Placing::Above);
    assert_eq!(ranking(2, 1, 6, 0).compare(&base), Placing::Below);
    // A proximity of 0 is the worst there is.
    assert_eq!(ranking(2, 1, 0, 0).compare(&base), Placing::Below);
    assert_eq!(ranking(2, 1, 0, 1).compare(&ranking(2, 1, i32::MAX, 1)), Placing::Level);
    assert_eq!(ranking(2, 1, 5, 0).compare(&base), Placing::Above);
    assert_eq!(ranking(2, 1, 5, 2).compare(&base), Placing::Below);
    assert_eq!(Ranking::zero(), ranking(0, 0, 0, 0));
}

#[test]
fn rankings_of_one_verse_tie_break_on_the_translation() {
    let mut first = InternalServiceRanking::new(0);
    let mut second = InternalServiceRanking::new(1);
    assert_eq!(first.compare(&second), Placing::Above);
    assert_eq!(second.compare(&first), Placing::Below);
    assert_eq!(first.compare(&first), Placing::Level);
    second.inc_query_words(4);
    second.inc_query_words(4);
    second.inc_query_words(2);
    assert_eq!(second.to_service_ranking(), ranking(2, 0, 0, 0));
    assert_eq!(first.compare(&second), Placing::Below);
    first.inc_exact();
    first.inc_typos();
    first.add_proximity(3);
    first.add_proximity(-1);
    assert_eq!(first.to_service_ranking(), ranking(0, 1, 2, 1));
    assert_eq!(first.idx(), 0);
}

#[test]
fn a_candidate_is_ranked_by_its_best_translation() {
    let key = VerseKey { book: 1, chapter: 2, verse: 3 };
    let mut m = VerseMatch::new(key, 7);
    assert_eq!(m.top_translation(), 0);
    assert_eq!(m.to_service_rankings(), vec![ranking(0, 0, 0, 0), ranking(0, 0, 0, 0)]);
    m.inc_query_words(1, 0);
    m.inc_query_words(1, 0);
    m.inc_exact(1);
    m.inc_typos(0);
    m.add_proximity(0, 4);
    assert_eq!(m.to_service_rankings(), vec![ranking(0, 0, 4, 1), ranking(1, 1, 0, 0)]);
    assert_eq!(m.top_translation(), 1);
    m.extend_highlights(&[(14, 18), (2, 5), (14, 18)]);
    m.extend_highlights(&[(7, 9), (2, 5)]);
    assert_eq!(m.highlights, vec![(2, 5), (7, 9), (14, 18)]);
    assert_eq!(m.popularity, 7);
    assert_eq!(m.key, key);
}

fn candidate(verse: u32, words: usize, exact: u32, popularity: u64) -> VerseMatch {
    let mut m = VerseMatch::new(VerseKey { book: 0, chapter: 1, verse }, popularity);
    for w in 0..words {
        m.inc_query_words(0, w);
    }
    for _ in 0..exact {
        m.inc_exact(0);
    }
    m
}

#[test]
fn candidates_are_listed_by_rank_then_citations_then_canon() {
    let a = candidate(1, 1, 0, 100);
    let b = candidate(2, 2, 0, 0);
    let c = candidate(3, 2, 1, 0);
    let d = candidate(4, 2, 1, 9);
    let e = candidate(5, 2, 1, 9);
    assert_eq!(b.compare(&a), Placing::Above);
    assert_eq!(c.compare(&b), Placing::Above);
    assert_eq!(d.compare(&c), Placing::Above);
    assert_eq!(d.compare(&e), Placing::Above);
    assert_eq!(e.compare(&d), Placing::Below);
    assert_eq!(d.compare(&d), Placing::Level);
    let all = vec![a, b, c, d, e];
    assert_eq!(rank(&all, 20), vec![3, 4, 2, 1, 0]);
    assert_eq!(rank(&all, 2), vec![3, 4]);
    assert_eq!(rank(&all, 0), Vec::<usize>::new());
    assert_eq!(rank(&vec![], 20), Vec::<usize>::new());
}

#[test]
fn citations_name_a_book_a_chapter_and_a_verse() {
    assert_eq!(parse_citation("GENESIS 1:1"), Some(VerseKey { book: 0, chapter: 1, verse: 1 }));
    assert_eq!(parse_citation("FIRST SAMUEL 12:003"), Some(VerseKey { book: 8, chapter: 12, verse: 3 }));
    assert_eq!(parse_citation("PSALMS 119:176"), Some(VerseKey { book: 18, chapter: 119, verse: 176 }));
    assert_eq!(parse_citation("REVELATION\t999:999"), Some(VerseKey { book: 65, chapter: 999, verse: 999 }));
    assert_eq!(parse_citation("Genesis 1:1"), None);
    assert_eq!(parse_citation("GENESIS  1:1"), None);
    assert_eq!(parse_citation("GENESIS 1:1 "), None);
    assert_eq!(parse_citation("GENESIS 1:"), None);
    assert_eq!(parse_citation("GENESIS :1"), None);
    assert_eq!(parse_citation("GENESIS 1234:1"), None);
    assert_eq!(parse_citation("GENESIS 1:1234"), None);
    assert_eq!(parse_citation("GENESIS1:1"), None);
    assert_eq!(parse_citation(" 1:1"), None);
    assert_eq!(parse_citation("1:1"), None);
    assert_eq!(parse_citation(""), None);
}
