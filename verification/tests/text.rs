use solution_view::decimal::{parse_u64, print_u64};
use solution_view::order::{precedes_chars, sort_by_key, Keyed};
use solution_view::text::{
    cut, find_first, find_last, has_prefix, has_suffix, is_space, join_chars, lower_ascii,
    push_text, same_text, split_chars, to_chars, to_text, trim_char, trim_space, without_suffixes,
};

fn chars(s: &str) -> Vec<char> {
    to_chars(s)
}

fn text(s: &[char]) -> String {
    to_text(s)
}

#[test]
fn white_space_is_unicodes() {
    for c in '\0'..=char::MAX {
        assert_eq!(is_space(c), c.is_whitespace(), "{:?}", c);
    }
}

#[test]
fn ascii_capitals_become_small_letters() {
    for c in '\0'..=char::MAX {
        assert_eq!(lower_ascii(c), c.to_ascii_lowercase());
    }
}

#[test]
fn characters_and_text_convert_back_and_forth() {
    let s = "añ\u{1F600}b";
    assert_eq!(chars(s), vec!['a', 'ñ', '\u{1F600}', 'b']);
    assert_eq!(text(&chars(s)), s);
    assert!(same_text(s, &text(&chars(s))));
    assert!(!same_text("a", "A"));
    let mut grown = "x".to_string();
    push_text(&mut grown, s);
    assert_eq!(grown, "xañ\u{1F600}b");
}

#[test]
fn characters_are_found_from_either_end() {
    assert_eq!(find_first(&chars("a/b/c"), '/'), 1);
    assert_eq!(find_first(&chars("abc"), '/'), 3);
    assert_eq!(find_last(&chars("a/b/c"), '/'), Some(3));
    assert_eq!(find_last(&chars("abc"), '/'), None);
}

#[test]
fn splitting_and_joining_undo_each_other() {
    for s in ["", "/", "a", "a/b", "/a//b/"] {
        let parts = split_chars(&chars(s), '/');
        let expected: Vec<Vec<char>> = s.split('/').map(|part| part.chars().collect()).collect();
        assert_eq!(parts, expected);
        assert_eq!(text(&join_chars(&parts, '/')), s);
    }
    assert_eq!(join_chars(&vec![], '/'), Vec::<char>::new());
}

#[test]
fn prefixes_and_suffixes_are_compared_whole() {
    assert!(has_prefix(&chars("abc"), &chars("ab")));
    assert!(!has_prefix(&chars("a"), &chars("ab")));
    assert!(has_suffix(&chars("abc"), &chars("bc")));
    assert!(!has_suffix(&chars("c"), &chars("bc")));
    assert_eq!(text(&cut(&chars("abcd"), 1, 3)), "bc");
}

#[test]
fn suffixes_are_stripped_as_often_as_they_occur() {
    let csproj = chars(".csproj");
    assert_eq!(text(without_suffixes(&chars("A.csproj.csproj"), &csproj)), "A");
    assert_eq!(text(without_suffixes(&chars("A.csproj.x"), &csproj)), "A.csproj.x");
    assert_eq!(text(without_suffixes(&chars("A"), &chars(""))), "A");
}

#[test]
fn trimming_takes_both_ends() {
    assert_eq!(text(trim_space(&chars(" \t\u{a0}a b\r\n"))), "a b");
    assert_eq!(text(trim_space(&chars("   "))), "");
    assert_eq!(text(trim_char(&chars("//a/b/"), '/')), "a/b");
    assert_eq!(text(trim_char(&chars("//"), '/')), "");
}

#[test]
fn numbers_are_printed_and_read_back() {
    for n in [0, 7, 10, 99, 1234567890, u64::MAX] {
        assert_eq!(text(&print_u64(n)), format!("{n}"));
        assert_eq!(parse_u64(&print_u64(n)), Some(n));
    }
}

#[test]
fn numbers_are_read_as_the_standard_library_reads_them() {
    for s in [
        "", "+", "-", "+5", "-5", "007", "18446744073709551615", "18446744073709551616",
        "99999999999999999999999", "1 ", " 1", "0x1", "1_0", "++1", "\u{661}",
    ] {
        assert_eq!(parse_u64(&chars(s)), s.parse::<u64>().ok(), "{}", s);
    }
}

#[test]
fn texts_are_ordered_as_strings_are() {
    let samples = [
        "", "a", "A", "ab", "a/b", "a.b", "b", "ä", "\u{ffff}", "\u{10000}", "a\u{10000}", "a\u{ffff}",
    ];
    for a in samples {
        for b in samples {
            assert_eq!(precedes_chars(&chars(a), &chars(b)), a <= b, "{} {}", a, b);
        }
    }
}

#[test]
fn sorting_by_key_is_stable() {
    let items: Vec<Keyed<String>> = [("b", "1"), ("a", "2"), ("b", "3"), ("", "4"), ("a", "5")]
        .iter()
        .map(|(key, value)| Keyed {
            key: chars(key),
            value: value.to_string(),
        })
        .collect();
    let sorted: Vec<String> = sort_by_key(items).into_iter().map(|item| item.value).collect();
    assert_eq!(sorted, vec!["4", "2", "5", "1", "3"]);
}
