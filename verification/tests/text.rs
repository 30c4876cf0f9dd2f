use versearch::text::{chars_of, first_char, shared_prefix, string_of};
use versearch::wordlist::{ordered_tokenize, tokenize};

#[test]
fn test_first_char() {
    let res = first_char("Banana");
    assert_eq!(res, Some('B'));
    let res = first_char("");
    assert_eq!(res, None);
}

#[test]
fn test_shared_prefix() {
    let res = shared_prefix("Fast", "Faster");
    assert_eq!(res, Some(4));
    let res = shared_prefix("Faster", "Toaster");
    assert_eq!(res, None);
}

#[test]
fn shared_prefix_counts_characters() {
    assert_eq!(shared_prefix("étage", "étude"), Some(2));
    assert_eq!(shared_prefix("", "x"), None);
    assert_eq!(shared_prefix("same", "same"), Some(4));
}

#[test]
fn chars_and_strings_round_trip() {
    assert_eq!(chars_of("añb"), vec!['a', 'ñ', 'b']);
    assert_eq!(string_of(&vec!['a', 'ñ', 'b']), "añb");
}

#[test]
fn wordlist_test_tokenize() {
    assert_eq!(tokenize("hello, world!"), vec!["HELLO", "WORLD"]);
    assert_eq!(
        tokenize("It's all good in the neighborhood which is... good"),
        vec!["ITS", "ALL", "GOOD", "IN", "THE", "NEIGHBORHOOD", "WHICH", "IS", "GOOD"]
    );
}

#[test]
fn test_ordered_tokenize() {
    assert_eq!(ordered_tokenize("hello, world!"), vec!["HELLO", "WORLD"]);
    assert_eq!(
        ordered_tokenize("It's all good in the neighborhood which is... good"),
        vec!["ALL", "GOOD", "IN", "IS", "ITS", "NEIGHBORHOOD", "THE", "WHICH"]
    );
}

#[test]
fn wordlist_passes_over_digits_and_puts_in_capitals() {
    assert_eq!(tokenize("abc123def gh"), vec!["ABCDEF", "GH"]);
    assert_eq!(tokenize("straße"), vec!["STRASSE"]);
    assert_eq!(tokenize(" 12 , "), Vec::<String>::new());
}
