use session_repair::text::{
    contains, decimal_text, ends_with, eq_ignore_ascii_case, is_blank, is_whitespace, join,
    leading_space, lines, precedes, same, split_once, starts_with, strip_prefix, strip_suffix,
    take_chars, to_ascii_lowercase, trim, trim_start,
};
use session_repair::sorted::{difference, insert_text, sort_texts};

fn owned(items: &[&str]) -> Vec<String> {
    items.iter().map(|item| item.to_string()).collect()
}

const SAMPLES: [&str; 12] = [
    "",
    " ",
    "plain",
    "  both sides\t\n",
    "\u{3000}全角空格\u{3000}",
    "\u{85}next line\u{2028}",
    "\u{200b}zero width stays",
    "a\r\nb\r\n\r\nc",
    "one\n\ntwo\n",
    "\r",
    "x\r",
    "最后一行没有换行\n尾",
];

#[test]
fn white_space_is_that_of_the_standard_library() {
    for code in 0..=0x10ffff_u32 {
        if let Some(ch) = char::from_u32(code) {
            assert_eq!(is_whitespace(ch), ch.is_whitespace(), "{code:x}");
        }
    }
}

#[test]
fn trimming_matches_the_standard_library() {
    for sample in SAMPLES {
        assert_eq!(trim(sample), sample.trim());
        assert_eq!(trim_start(sample), sample.trim_start());
        assert_eq!(is_blank(sample), sample.trim().is_empty());
        assert_eq!(
            leading_space(sample) + &trim_start(sample),
            sample.to_string()
        );
    }
}

#[test]
fn lines_match_the_standard_library() {
    for sample in SAMPLES {
        let expected: Vec<String> = sample.lines().map(|line| line.to_string()).collect();
        assert_eq!(lines(sample), expected, "{sample:?}");
    }
}

#[test]
fn searching_matches_the_standard_library() {
    for text in SAMPLES {
        for part in ["", " ", "a", "\n", "空格", "line", "b\r", "尾"] {
            assert_eq!(starts_with(text, part), text.starts_with(part));
            assert_eq!(ends_with(text, part), text.ends_with(part));
            assert_eq!(contains(text, part), text.contains(part));
            assert_eq!(
                strip_prefix(text, part),
                text.strip_prefix(part).map(|rest| rest.to_string())
            );
            assert_eq!(
                strip_suffix(text, part),
                text.strip_suffix(part).map(|rest| rest.to_string())
            );
            assert_eq!(
                split_once(text, part),
                text.split_once(part)
                    .map(|(left, right)| (left.to_string(), right.to_string()))
            );
        }
    }
}

#[test]
fn numbers_are_written_in_decimal() {
    for number in [0_u64, 7, 10, 909, 480000, u64::MAX] {
        assert_eq!(decimal_text(number), number.to_string());
    }
}

#[test]
fn texts_are_cut_by_characters() {
    assert_eq!(take_chars("修复新版会话", 2), "修复");
    assert_eq!(take_chars("ab", 5), "ab");
    assert_eq!(take_chars("ab", 0), "");
}

#[test]
fn case_is_folded_for_ascii_only() {
    assert_eq!(to_ascii_lowercase("PARENT: Ä"), "parent: Ä");
    assert!(eq_ignore_ascii_case("Legacy", "lEGACY"));
    assert!(!eq_ignore_ascii_case("Ä", "ä"));
    assert!(same("ä", "ä"));
    assert!(!same("ä", "a"));
}

#[test]
fn order_is_that_of_the_standard_library() {
    let samples = ["", "a", "aa", "b", "Z", "ä", "会", "\u{10000}", "\u{ffff}"];
    for left in samples {
        for right in samples {
            assert_eq!(precedes(left, right), left < right, "{left} {right}");
        }
    }
}

#[test]
fn joining_puts_the_separator_between() {
    assert_eq!(join(&owned(&["a", "", "c"]), ", "), "a, , c");
    assert_eq!(join(&owned(&[]), ", "), "");
}

#[test]
fn sorting_keeps_each_text_once() {
    assert_eq!(
        sort_texts(&owned(&["b", "a", "c", "a"])),
        owned(&["a", "b", "c"])
    );
    let mut items = owned(&["a", "c"]);
    assert!(insert_text(&mut items, "b"));
    assert!(!insert_text(&mut items, "b"));
    assert_eq!(items, owned(&["a", "b", "c"]));
    assert_eq!(
        difference(&owned(&["a", "b", "c"]), &owned(&["b"])),
        owned(&["a", "c"])
    );
}
