use std::path::Path;

use cargo_bench_compare::bytes::printed_text;
use cargo_bench_compare::numbers::{decimal_string, parse_u32, parse_unsigned};
use cargo_bench_compare::order::{insert_text, set_of, sort_texts, stands_before};
use cargo_bench_compare::paths::{
    components, file_name, join, parent_name, same_path, starts_with, strip_prefix,
};
use cargo_bench_compare::text::{
    chars_of, contains_text, lines, split, string_of, trimmed, white_space, words,
};

fn strings(list: &[&str]) -> Vec<String> {
    list.iter().map(|s| (*s).to_owned()).collect()
}

fn parts(list: Vec<&[char]>) -> Vec<String> {
    list.into_iter().map(string_of).collect()
}

#[test]
fn white_space_is_that_of_unicode() {
    for n in 0..=0x10_ffff_u32 {
        if let Some(c) = char::from_u32(n) {
            assert_eq!(white_space(c), c.is_whitespace(), "{n:x}");
        }
    }
}

#[test]
fn texts_are_cut_like_strings() {
    for s in [
        "", "\n", "a", "a\n", "a\nb", "a\r\nb\r", "\r\n\r\n", "a\n\nb\n", "\u{a0}a b\u{3000}c\t\u{c}d\u{b}e ",
        " x,y,,z, ", "a\u{85}b",
    ] {
        let chars = chars_of(s);
        assert_eq!(parts(lines(&chars)), s.lines().collect::<Vec<_>>());
        assert_eq!(parts(split(&chars, ',')), s.split(',').collect::<Vec<_>>());
        assert_eq!(parts(words(&chars, false)), s.split_whitespace().collect::<Vec<_>>());
        assert_eq!(parts(words(&chars, true)), s.split_ascii_whitespace().collect::<Vec<_>>());
        assert_eq!(trimmed(s), s.trim());
        for part in ["", "a", "\n", "b\u{3000}", "zz"] {
            assert_eq!(contains_text(s, part), s.contains(part));
        }
    }
}

#[test]
fn texts_are_ordered_like_strings() {
    let list = strings(&["b", "", "a", "ab", "é", "a\u{10000}", "z", "a", "\u{ffff}"]);
    for a in &list {
        for b in &list {
            assert_eq!(stands_before(a, b), a < b);
        }
    }
    let mut sorted = list.clone();
    sorted.sort();
    assert_eq!(sort_texts(&list), sorted);
    sorted.dedup();
    assert_eq!(set_of(&list), sorted);
    let mut set = strings(&["a", "c"]);
    insert_text(&mut set, "b");
    insert_text(&mut set, "a");
    assert_eq!(set, ["a", "b", "c"]);
}

#[test]
fn numbers_are_read_like_integers() {
    for s in [
        "", "0", "007", "+5", "++5", "-1", "+", "4294967295", "4294967296", "18446744073709551615",
        "18446744073709551616", " 1", "1 ", "٣", "99999999999999999999999",
    ] {
        let chars = chars_of(s);
        assert_eq!(parse_u32(&chars), s.parse::<u32>().ok(), "{s}");
        assert_eq!(parse_unsigned(&chars, u64::MAX), s.parse::<u64>().ok(), "{s}");
    }
    for n in [0, 9, 10, 12345, u64::MAX] {
        assert_eq!(decimal_string(n), n.to_string());
    }
}

#[test]
fn paths_are_joined_like_paths() {
    let samples = [
        "", "/", "a", "a/", "/a//b/./c", "./a", "../b", "a/..", ".", "..", "/..", "a/.", "//a", "b/./../c/",
    ];
    for a in samples {
        let path = Path::new(a);
        assert_eq!(
            components(a),
            path.components().map(|c| c.as_os_str().to_str().unwrap()).collect::<Vec<_>>()
        );
        assert_eq!(file_name(a).as_deref(), path.file_name().map(|s| s.to_str().unwrap()));
        assert_eq!(
            parent_name(a).as_deref(),
            path.parent().and_then(|p| p.file_name()).map(|s| s.to_str().unwrap())
        );
        for b in samples {
            let other = Path::new(b);
            assert_eq!(join(a, b), path.join(other).to_str().unwrap());
            assert_eq!(same_path(a, b), path == other, "{a} {b}");
            assert_eq!(starts_with(a, b), path.starts_with(other), "{a} {b}");
            let stripped = strip_prefix(a, b);
            assert_eq!(stripped.is_some(), path.strip_prefix(other).is_ok());
            if let (Some(rest), Ok(expected)) = (stripped, path.strip_prefix(other)) {
                assert_eq!(Path::new(&rest), expected, "{a} {b}");
            }
        }
    }
    assert_eq!(strip_prefix("/repo/a//b", "/repo").as_deref(), Some("a/b"));
    assert_eq!(strip_prefix("/repo", "/repo/").as_deref(), Some(""));
    assert_eq!(strip_prefix("/repository", "/repo"), None);
}

#[test]
fn printed_bytes_are_text() {
    assert_eq!(printed_text("0-3 é\n".as_bytes()), "0-3 é\n");
    assert_eq!(printed_text(b"a\xff"), "a\u{fffd}");
}
