use lcp::longest_common_prefix;
use lcp::longest_common_prefix_in;

const EMPTY: &str = "";
const HELLO: &str = "hello";

#[test]
fn one_is_empty() {
    assert_eq!(EMPTY, longest_common_prefix(HELLO, EMPTY));
    assert_eq!(EMPTY, longest_common_prefix(EMPTY, HELLO));
}

#[test]
fn both_are_same_ptr() {
    assert_eq!(EMPTY, longest_common_prefix(EMPTY, EMPTY));
    assert_eq!(HELLO, longest_common_prefix(HELLO, HELLO));
}

#[test]
fn both_have_same_content() {
    let local_empty = "";
    let local = "hello";

    assert_eq!(EMPTY, longest_common_prefix(EMPTY, local_empty));
    assert_eq!(HELLO, longest_common_prefix(HELLO, local));
}

#[test]
fn no_common_prefix() {
    let uncommon = "nothing";
    assert_eq!(EMPTY, longest_common_prefix(HELLO, uncommon));
    assert_eq!(EMPTY, longest_common_prefix(uncommon, HELLO));
}

#[test]
fn common_prefix() {
    let common = "hel";
    let help = "help";

    assert_eq!(common, longest_common_prefix(HELLO, help));
    assert_eq!(common, longest_common_prefix(help, HELLO));
}

#[test]
fn empty_iterable() {
    let iter: [&str; 0] = [];

    assert_eq!(None, longest_common_prefix_in(&iter));
}

#[test]
fn one_element_in_iterable() {
    let iter = [EMPTY];

    assert_eq!(Some(""), longest_common_prefix_in(&iter));
}

#[test]
fn no_common_prefix_in_iterable() {
    let iter = [EMPTY, HELLO, "info"];

    assert_eq!(Some(""), longest_common_prefix_in(&iter));
}

#[test]
fn common_prefix_in_iterable() {
    let iter = [HELLO, "helvetica", "help", "hell"];

    assert_eq!(Some("hel"), longest_common_prefix_in(&iter));
}

#[test]
fn shared_prefix_with_case_split() {
    assert_eq!("HELLO ", longest_common_prefix("HELLO WORLD", "HELLO world"));
}

#[test]
fn nothing_in_common_pairwise() {
    assert_eq!("", longest_common_prefix("nothing in", "common"));
}

#[test]
fn what_words_in_iterable() {
    let iter = ["what's the", "whatever", "whatabout"];

    assert_eq!(Some("what"), longest_common_prefix_in(&iter));
}

#[test]
fn unrelated_words_in_iterable() {
    let iter = ["there's no", "common prefix", "here"];

    assert_eq!(Some(""), longest_common_prefix_in(&iter));
}

#[test]
fn one_is_prefix_of_other() {
    assert_eq!("hel", longest_common_prefix("hello", "help"));
    assert_eq!("hel", longest_common_prefix("help", "hello"));
    assert_eq!("help", longest_common_prefix("help", "helpful"));
    assert_eq!("help", longest_common_prefix("helpful", "help"));
}

#[test]
fn commutative_content() {
    let pairs = [
        ("hello", "help"),
        ("", "anything"),
        ("same", "same"),
        ("caf\u{e9}s", "caf\u{e9}"),
        ("abc", "xyz"),
    ];
    for (a, b) in pairs {
        assert_eq!(longest_common_prefix(a, b), longest_common_prefix(b, a));
    }
}

#[test]
fn bounded_by_shorter_input() {
    let pairs = [("hello", "help"), ("a", "abcdef"), ("", "x"), ("whatever", "whatabout")];
    for (a, b) in pairs {
        let r = longest_common_prefix(a, b);
        let min = a.chars().count().min(b.chars().count());
        assert!(r.chars().count() <= min);
    }
}

#[test]
fn result_prefixes_both_inputs() {
    let pairs = [("hello", "help"), ("HELLO WORLD", "HELLO world"), ("caf\u{e9}x", "caf\u{e9}y")];
    for (a, b) in pairs {
        let r = longest_common_prefix(a, b);
        assert!(a.starts_with(r));
        assert!(b.starts_with(r));
    }
}

#[test]
fn collection_matches_plain_fold() {
    let iter = ["what's the", "whatever", "whatabout", "wharf", "x"];
    let mut fold = iter[0];
    for cur in &iter[1..] {
        fold = longest_common_prefix(fold, cur);
    }
    assert_eq!(Some(fold), longest_common_prefix_in(&iter));
}

#[test]
fn empty_running_prefix_ignores_later_matches() {
    let iter = ["abc", "xyz", "abc", "abc"];

    assert_eq!(Some(""), longest_common_prefix_in(&iter));
}

#[test]
fn collection_result_prefixes_every_element() {
    let iter = ["helvetica", "help", "hell"];
    let r = longest_common_prefix_in(&iter).unwrap();
    for s in iter {
        assert!(s.starts_with(r));
    }
}

#[test]
fn multibyte_characters_kept_whole() {
    assert_eq!("caf\u{e9}", longest_common_prefix("caf\u{e9}x", "caf\u{e9}y"));
    assert_eq!("a", longest_common_prefix("a\u{e9}", "a\u{fc}"));
    assert_eq!(Some("na\u{ef}ve"), longest_common_prefix_in(&["na\u{ef}ve", "na\u{ef}vely"]));
}
