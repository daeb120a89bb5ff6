use lecture_analyzer::geometry::{max_chars_per_line, ConfigurationError};
use lecture_analyzer::text::{is_whitespace, trim};
use lecture_analyzer::wrap::wrap_text;

fn lines(text: &str, max: u64) -> Vec<String> {
    wrap_text(text, max).unwrap()
}

fn collapse(text: &str) -> String {
    text.split_whitespace().collect::<Vec<&str>>().join(" ")
}

#[test]
fn short_text_is_one_line() {
    assert_eq!(lines("Keywords:", 26), vec!["Keywords:".to_string()]);
}

#[test]
fn text_of_exactly_the_limit_is_one_line() {
    assert_eq!(lines("abcde", 5), vec!["abcde".to_string()]);
}

#[test]
fn breaks_at_the_last_space_within_the_limit() {
    assert_eq!(
        lines("the quick brown fox jumps", 10),
        vec!["the quick".to_string(), "brown fox".to_string(), "jumps".to_string()]
    );
}

#[test]
fn space_right_behind_the_limit_is_not_seen() {
    assert_eq!(
        lines("aa bbbb cc", 7),
        vec!["aa".to_string(), "bbbb cc".to_string()]
    );
}

#[test]
fn long_word_is_cut_at_the_limit() {
    assert_eq!(
        lines("abcdefghij", 4),
        vec!["abcd".to_string(), "efgh".to_string(), "ij".to_string()]
    );
}

#[test]
fn long_word_after_short_words() {
    assert_eq!(
        lines("ab cdefghijkl", 5),
        vec!["ab".to_string(), "cdefg".to_string(), "hijkl".to_string()]
    );
}

#[test]
fn text_is_trimmed_at_both_ends() {
    assert_eq!(lines("  \t hello world \n ", 20), vec!["hello world".to_string()]);
}

#[test]
fn white_space_at_a_break_is_dropped() {
    assert_eq!(
        lines("alpha    beta", 8),
        vec!["alpha  ".to_string(), "beta".to_string()]
    );
}

#[test]
fn breaks_at_any_white_space() {
    assert_eq!(
        lines("alpha\tbeta\ngamma", 7),
        vec!["alpha".to_string(), "beta".to_string(), "gamma".to_string()]
    );
}

#[test]
fn empty_text_gives_no_line() {
    assert_eq!(lines("", 10), Vec::<String>::new());
}

#[test]
fn blank_text_gives_no_line() {
    assert_eq!(lines(" \t\n  ", 3), Vec::<String>::new());
}

#[test]
fn limit_of_one_gives_one_character_per_line() {
    assert_eq!(
        lines("ab c", 1),
        vec!["a".to_string(), "b".to_string(), "c".to_string()]
    );
}

#[test]
fn characters_are_counted_not_bytes() {
    assert_eq!(
        lines("\u{e9}\u{e9}\u{e9} \u{e9}\u{e9}", 4),
        vec!["\u{e9}\u{e9}\u{e9}".to_string(), "\u{e9}\u{e9}".to_string()]
    );
}

#[test]
fn limit_of_zero_is_rejected() {
    assert_eq!(wrap_text("hello", 0), Err(ConfigurationError::LineTooNarrow));
    assert_eq!(wrap_text("", 0), Err(ConfigurationError::LineTooNarrow));
}

#[test]
fn no_line_is_empty_or_too_long() {
    let text = "Lorem ipsum dolor sit amet, consectetur adipiscing elit, sed do eiusmod \
                tempor incididunt ut labore et dolore magna aliqua.";
    for max in 1..40u64 {
        for line in lines(text, max) {
            let n = line.chars().count() as u64;
            assert!(n > 0);
            assert!(n <= max);
            assert!(!is_whitespace(line.chars().next().unwrap()));
        }
    }
}

#[test]
fn joined_lines_read_as_the_collapsed_text() {
    let text = "  Lorem ipsum   dolor sit\tamet,\n consectetur adipiscing elit  ";
    for max in 11..40u64 {
        let joined = lines(text, max).join(" ");
        assert_eq!(collapse(&joined), collapse(text));
    }
}

#[test]
fn joined_lines_of_single_spaced_text_are_the_text() {
    let text = "Lorem ipsum dolor sit amet, consectetur adipiscing elit";
    for max in 11..60u64 {
        assert_eq!(lines(text, max).join(" "), text);
    }
}

#[test]
fn cut_words_keep_their_characters() {
    let text = " pneumonoultramicroscopic  silicovolcanoconiosis is long ";
    for max in 1..30u64 {
        let kept: String = lines(text, max).concat().split_whitespace().collect();
        let want: String = text.split_whitespace().collect();
        assert_eq!(kept, want);
    }
}

#[test]
fn characters_per_line_follow_the_formula() {
    assert_eq!(max_chars_per_line(170, 14), Ok(26));
    assert_eq!(max_chars_per_line(170, 12), Ok(31));
    assert_eq!(max_chars_per_line(170, 20), Ok(18));
    assert_eq!(max_chars_per_line(9, 20), Ok(1));
    assert_eq!(max_chars_per_line(u32::MAX, 1), Ok(9544371766));
}

#[test]
fn zero_point_size_is_rejected() {
    assert_eq!(max_chars_per_line(170, 0), Err(ConfigurationError::ZeroFontSize));
}

#[test]
fn too_large_point_size_is_rejected() {
    assert_eq!(max_chars_per_line(8, 20), Err(ConfigurationError::LineTooNarrow));
    assert_eq!(max_chars_per_line(170, 378), Err(ConfigurationError::LineTooNarrow));
    assert_eq!(max_chars_per_line(170, 377), Ok(1));
}

#[test]
fn white_space_is_the_unicode_set() {
    for c in [' ', '\t', '\n', '\r', '\u{b}', '\u{c}', '\u{85}', '\u{a0}', '\u{1680}', '\u{2000}',
        '\u{200a}', '\u{2028}', '\u{2029}', '\u{202f}', '\u{205f}', '\u{3000}']
    {
        assert!(is_whitespace(c));
    }
    for c in ['a', '0', '.', '\u{200b}', '\u{feff}', '\u{2022}'] {
        assert!(!is_whitespace(c));
    }
}

#[test]
fn white_space_agrees_with_std() {
    let mut n: u32 = 0;
    while n <= 0x10ffff {
        if let Some(c) = char::from_u32(n) {
            assert_eq!(is_whitespace(c), c.is_whitespace());
        }
        n += 1;
    }
}

#[test]
fn trim_drops_white_space_at_both_ends() {
    assert_eq!(trim("  a b \n"), "a b");
    assert_eq!(trim("\t \n"), "");
    assert_eq!(trim(""), "");
    assert_eq!(trim("abc"), "abc");
}
