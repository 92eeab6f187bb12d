use std::borrow::Cow;

use codebuddy::files::{file_stem_of, has_extension};
use codebuddy::text::{
    after_last_of, comes_before, decimal_of, first_word_of, lines_of, occurrences_of, parse_u64, same_text,
    split_lines, starts_with_text, strip_suffix_of, trim_of, words_of,
};

#[test]
fn lines_end_at_line_feeds() {
    assert_eq!(lines_of("a\r\nb\n\nc"), ["a", "b", "", "c"]);
    assert_eq!(lines_of("a\n"), ["a"]);
    assert_eq!(lines_of(""), Vec::<&str>::new());
    assert_eq!(lines_of("a\r\r\nb\r"), ["a\r", "b\r"]);
    for text in ["", "\n", "x", "x\n", "\r\n\r\n", "é\n世界\r\n🦀"] {
        assert_eq!(lines_of(text), text.lines().collect::<Vec<_>>());
    }
}

#[test]
fn split_lines_borrow_when_the_text_does() {
    let borrowed = split_lines(Cow::Borrowed("a\nb"));
    assert!(borrowed.iter().all(|line| matches!(line, Cow::Borrowed(_))));
    let owned = split_lines(Cow::Owned("a\nb".to_owned()));
    assert_eq!(owned, ["a", "b"]);
}

#[test]
fn white_space_is_trimmed_at_both_ends() {
    for text in ["", "  ", " a b ", "\n\ta", "a\u{3000}", "é"] {
        assert_eq!(trim_of(text), text.trim());
    }
}

#[test]
fn every_white_space_character_is_trimmed() {
    for ch in char::MIN..=char::MAX {
        let text = ch.to_string();
        assert_eq!(trim_of(&text).is_empty(), ch.is_whitespace(), "{ch:?}");
    }
    let white = "\t\n\u{B}\u{C}\r \u{85}\u{A0}\u{1680}\u{2000}\u{200A}\u{2028}\u{2029}\u{202F}\u{205F}\u{3000}";
    assert_eq!(trim_of(white), "");
}

#[test]
fn words_are_split_at_white_space() {
    assert_eq!(words_of(" MemAvailable:   12 kB "), ["MemAvailable:", "12", "kB"]);
    assert_eq!(words_of(" \t"), Vec::<&str>::new());
}

#[test]
fn numbers_are_written_and_read_back() {
    for number in [0u64, 7, 10, 32768, u64::MAX] {
        assert_eq!(decimal_of(u128::from(number)), number.to_string());
        assert_eq!(parse_u64(&decimal_of(u128::from(number))), Some(number));
    }
    assert_eq!(parse_u64("+5"), "+5".parse().ok());
    assert_eq!(parse_u64("18446744073709551616"), None);
    assert_eq!(parse_u64("1 "), None);
    assert_eq!(parse_u64(""), None);
    assert_eq!(parse_u64("-1"), None);
}

#[test]
fn parts_of_texts() {
    assert_eq!(occurrences_of("a\nb\n", '\n'), 2);
    assert_eq!(after_last_of("a\nb\nçd", '\n'), "çd");
    assert_eq!(after_last_of("abc", '\n'), "abc");
    assert!(starts_with_text("mmproj-x", "mmproj"));
    assert!(!starts_with_text("mm", "mmproj"));
    assert_eq!(strip_suffix_of("qwen-engine", "-engine"), Some("qwen"));
    assert_eq!(strip_suffix_of("engine", "-engine"), None);
    assert!(same_text("é", "é"));
    assert!(!same_text("é", "e"));
    assert_eq!(first_word_of("rust,ignore"), "rust");
    assert_eq!(first_word_of("py title=x"), "py");
    assert_eq!(first_word_of(""), "");
}

#[test]
fn texts_are_ordered_as_strings_are() {
    let texts = ["", "a", "ab", "b", "é", "z", "世", "🦀"];
    for a in texts {
        for b in texts {
            assert_eq!(comes_before(a, b), a < b);
        }
    }
}

#[test]
fn file_names_have_stems_and_extensions() {
    for name in ["a.gguf", "a.b.gguf", ".gguf", "gguf", "a.", "..", ".a.gguf", "é.gguf"] {
        let path = std::path::Path::new(name);
        assert_eq!(has_extension(name, "gguf"), path.extension().is_some_and(|extension| extension == "gguf"));
        if name != ".." {
            assert_eq!(Some(file_stem_of(name)), path.file_stem().and_then(|stem| stem.to_str()));
        }
    }
}
