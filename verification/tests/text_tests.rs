use dotmanager::text::{
    after_last_text, chars_of, copy_range, count_bytes, drop_bytes, find_from, is_contained,
    join_text, matches_at, push_decimal, same_text, split_text, string_of, strip_prefixes_text,
    trim_end_char_text, trim_end_text, trim_text, whitespace,
};

fn chars(s: &str) -> Vec<char> {
    s.chars().collect()
}

fn strings(parts: &Vec<Vec<char>>) -> Vec<String> {
    parts.iter().map(|p| p.iter().collect()).collect()
}

#[test]
fn chars_of_gives_every_character_in_order() {
    assert_eq!(chars_of("a/é❮"), vec!['a', '/', 'é', '❮']);
    assert_eq!(chars_of(""), Vec::<char>::new());
}

#[test]
fn string_of_builds_the_string_back() {
    assert_eq!(string_of(&['d', 'm', ' ', 'é']), "dm é");
    assert_eq!(string_of(&[]), "");
}

#[test]
fn copy_range_takes_the_middle() {
    assert_eq!(copy_range(&chars("abcdef"), 2, 4), chars("cd"));
    assert_eq!(copy_range(&chars("abcdef"), 3, 3), chars(""));
}

#[test]
fn matches_at_tells_where_a_text_stands() {
    assert!(matches_at(&chars("hello"), &chars("ll"), 2));
    assert!(!matches_at(&chars("hello"), &chars("ll"), 3));
    assert!(!matches_at(&chars("hello"), &chars("lo"), 4));
    assert!(matches_at(&chars("hello"), &chars(""), 5));
    assert!(!matches_at(&chars("hello"), &chars(""), 6));
}

#[test]
fn find_from_gives_the_first_place() {
    assert_eq!(find_from(&chars("abcabc"), &chars("bc"), 0), Some(1));
    assert_eq!(find_from(&chars("abcabc"), &chars("bc"), 2), Some(4));
    assert_eq!(find_from(&chars("abcabc"), &chars("bc"), 5), None);
    assert_eq!(find_from(&chars("abc"), &chars(""), 3), Some(3));
}

#[test]
fn is_contained_is_substring_search() {
    assert!(is_contained(&chars("/home/u/.config/nvim"), &chars("/home/u/.config")));
    assert!(!is_contained(&chars("/home/u/.config"), &chars("/home/u/.config/nvim")));
    assert!(is_contained(&chars("abc"), &chars("")));
    assert!(is_contained(&chars("abc"), &chars("abc")));
}

#[test]
fn split_text_cuts_at_every_mark() {
    assert_eq!(strings(&split_text(&chars("a\nb\n"), &chars("\n"))), vec!["a", "b", ""]);
    assert_eq!(strings(&split_text(&chars(""), &chars("\n"))), vec![""]);
    assert_eq!(strings(&split_text(&chars("x@@y@@z"), &chars("@@"))), vec!["x", "y", "z"]);
    assert_eq!(strings(&split_text(&chars("aaa"), &chars("aa"))), vec!["", "a"]);
    assert_eq!(strings(&split_text(&chars("abc"), &chars(""))), vec!["abc"]);
}

#[test]
fn join_text_puts_the_mark_between() {
    let parts = vec![chars("a"), chars("b"), chars("")];
    assert_eq!(string_of(&join_text(&parts, &chars("\n"))), "a\nb\n");
    assert_eq!(string_of(&join_text(&vec![], &chars("\n"))), "");
    assert_eq!(string_of(&join_text(&vec![chars("one")], &chars(", "))), "one");
}

#[test]
fn split_of_a_join_gives_the_parts_back() {
    let parts = vec![chars("/home/u/a"), chars("/home/u/b c"), chars("/x")];
    let whole = join_text(&parts, &chars("\n"));
    assert_eq!(split_text(&whole, &chars("\n")), parts);
}

#[test]
fn whitespace_is_the_unicode_property() {
    for c in [' ', '\t', '\n', '\u{b}', '\u{c}', '\r', '\u{85}', '\u{a0}', '\u{1680}', '\u{2000}',
        '\u{200a}', '\u{2028}', '\u{2029}', '\u{202f}', '\u{205f}', '\u{3000}'] {
        assert!(whitespace(c));
    }
    for c in ['a', '0', '/', '\u{8}', '\u{e}', '\u{200b}', '\u{180e}', '\u{feff}'] {
        assert!(!whitespace(c));
    }
}

#[test]
fn whitespace_agrees_with_the_standard_library() {
    let mut code: u32 = 0;
    while code <= 0x3100 {
        if let Some(c) = char::from_u32(code) {
            assert_eq!(whitespace(c), c.is_whitespace());
        }
        code += 1;
    }
}

#[test]
fn trim_text_drops_both_ends() {
    assert_eq!(string_of(&trim_text(&chars("  a b \n"))), "a b");
    assert_eq!(string_of(&trim_text(&chars(" \t\n"))), "");
    assert_eq!(string_of(&trim_text(&chars(""))), "");
    assert_eq!(string_of(&trim_text(&chars("\u{a0}x\u{3000}"))), "x");
}

#[test]
fn trim_end_text_keeps_the_front() {
    assert_eq!(string_of(&trim_end_text(&chars("  a \n"))), "  a");
}

#[test]
fn trim_end_char_text_drops_the_run() {
    assert_eq!(string_of(&trim_end_char_text(&chars("/home/u/dir///"), '/')), "/home/u/dir");
    assert_eq!(string_of(&trim_end_char_text(&chars("///"), '/')), "");
    assert_eq!(string_of(&trim_end_char_text(&chars("/a/b"), '/')), "/a/b");
}

#[test]
fn strip_prefixes_text_drops_every_copy() {
    assert_eq!(string_of(&strip_prefixes_text(&chars("/h/u/.vimrc"), &chars("/h/u/"))), ".vimrc");
    assert_eq!(string_of(&strip_prefixes_text(&chars("ababx"), &chars("ab"))), "x");
    assert_eq!(string_of(&strip_prefixes_text(&chars(".vimrc"), &chars("/h/u/"))), ".vimrc");
    assert_eq!(string_of(&strip_prefixes_text(&chars("abc"), &chars(""))), "abc");
}

#[test]
fn after_last_text_gives_the_last_token() {
    assert_eq!(string_of(&after_last_text(&chars("A  file1"), ' ')), "file1");
    assert_eq!(string_of(&after_last_text(&chars("nospace"), ' ')), "nospace");
    assert_eq!(string_of(&after_last_text(&chars("M  a b"), ' ')), "b");
    assert_eq!(string_of(&after_last_text(&chars("M "), ' ')), "");
}

#[test]
fn push_decimal_writes_the_digits() {
    let mut out = chars("n=");
    push_decimal(&mut out, 0);
    assert_eq!(string_of(&out), "n=0");
    let mut out = Vec::new();
    push_decimal(&mut out, 1234567890);
    assert_eq!(string_of(&out), "1234567890");
    let mut out = Vec::new();
    push_decimal(&mut out, u64::MAX);
    assert_eq!(string_of(&out), "18446744073709551615");
}

#[test]
fn same_text_compares_character_for_character() {
    assert!(same_text(&chars("abc"), &chars("abc")));
    assert!(!same_text(&chars("abc"), &chars("abd")));
    assert!(!same_text(&chars("abc"), &chars("ab")));
    assert!(same_text(&chars(""), &chars("")));
}

#[test]
fn count_bytes_is_the_length_of_the_string() {
    for s in ["", "abc", "é", "a❮b", "\u{10000}x", "/home/ü/.config"] {
        assert_eq!(count_bytes(&chars(s)), s.len() as u128);
    }
}

#[test]
fn drop_bytes_cuts_at_character_ends_only() {
    assert_eq!(drop_bytes(&chars("-s"), 1), Some(chars("s")));
    assert_eq!(drop_bytes(&chars("--status"), 2), Some(chars("status")));
    assert_eq!(drop_bytes(&chars("é"), 1), None);
    assert_eq!(drop_bytes(&chars("élan"), 2), Some(chars("lan")));
    assert_eq!(drop_bytes(&chars(""), 1), None);
    assert_eq!(drop_bytes(&chars("ab"), 3), None);
    assert_eq!(drop_bytes(&chars("ab"), 0), Some(chars("ab")));
}
