use rsaver::text::{char_width, pad_right, truncate, visible_len, wrap_text};

#[test]
fn test_wrap_text_empty() {
    assert_eq!(wrap_text("", 10), Vec::<String>::new());
}

#[test]
fn test_wrap_text_zero_max_width() {
    assert_eq!(wrap_text("hello world", 0), vec!["hello world".to_string()]);
}

#[test]
fn test_wrap_text_under_max_width() {
    assert_eq!(wrap_text("hello", 10), vec!["hello".to_string()]);
}

#[test]
fn test_wrap_text_simple_wrap() {
    let input = "hello world standard text";
    let wrapped = wrap_text(input, 12);
    assert_eq!(wrapped, vec![
        "hello world".to_string(),
        "standard".to_string(),
        "text".to_string()
    ]);
}

#[test]
fn test_wrap_text_exact_width() {
    let input = "abc def ghi";
    assert_eq!(wrap_text(input, 7), vec!["abc def".to_string(), "ghi".to_string()]);
}

#[test]
fn test_wrap_text_long_word_splitting() {
    assert_eq!(wrap_text("abcdefgh", 3), vec!["abc".to_string(), "def".to_string(), "gh".to_string()]);
}

#[test]
fn test_wrap_text_long_word_mixed() {
    let input = "hi abcdefgh bye";
    assert_eq!(wrap_text(input, 3), vec![
        "hi".to_string(),
        "abc".to_string(),
        "def".to_string(),
        "gh".to_string(),
        "bye".to_string()
    ]);
}

#[test]
fn test_wrap_text_newlines_preserved() {
    let input = "hello\n\nworld";
    assert_eq!(wrap_text(input, 10), vec![
        "hello".to_string(),
        "".to_string(),
        "world".to_string()
    ]);
}

#[test]
fn test_char_width_standard() {
    assert_eq!(char_width('a'), 1);
    assert_eq!(char_width('1'), 1);
}

#[test]
fn test_char_width_emoji() {
    assert_eq!(char_width('🧠'), 2);
    assert_eq!(char_width('🎮'), 2);
}

#[test]
fn test_char_width_variation_selector() {
    assert_eq!(char_width('\u{FE0F}'), 0);
}

#[test]
fn test_visible_len_no_escapes() {
    assert_eq!(visible_len("hello"), 5);
}

#[test]
fn test_visible_len_basic_escapes() {
    assert_eq!(visible_len("\x1b[31mhello\x1b[0m"), 5);
}

#[test]
fn test_visible_len_mixed_unicode_escapes() {
    assert_eq!(visible_len("\x1b[1m🧠\x1b[0m"), 2);
}

#[test]
fn wrap_text_rows_never_exceed_width() {
    let text = "the quick brown fox jumps over the extraordinarily lazy dog\r\nsecond  line\twith tabs";
    for width in 1..20usize {
        for row in wrap_text(text, width) {
            assert!(row.chars().count() <= width, "row {:?} wider than {}", row, width);
        }
    }
}

#[test]
fn wrap_text_crlf_and_whitespace_lines() {
    assert_eq!(wrap_text("a b\r\n   \r\nc", 5), vec!["a b".to_string(), "".to_string(), "c".to_string()]);
    assert_eq!(wrap_text("x\n", 5), vec!["x".to_string()]);
}

#[test]
fn wrap_text_unicode_whitespace_splits_words() {
    assert_eq!(wrap_text("ab\u{00A0}cd\u{3000}ef", 2), vec!["ab".to_string(), "cd".to_string(), "ef".to_string()]);
}

#[test]
fn truncate_keeps_short_and_cuts_long() {
    assert_eq!(truncate("Bubbles", 28), "Bubbles");
    assert_eq!(truncate("abcdef", 6), "abcdef");
    assert_eq!(truncate("abcdefg", 6), "abcde…");
    assert_eq!(truncate("abc", 1), "…");
    assert_eq!(truncate("abc", 0), "…");
    assert_eq!(truncate("", 0), "");
    assert_eq!(truncate("héllo wörld", 5), "héll…");
}

#[test]
fn pad_right_matches_format() {
    assert_eq!(pad_right("yes", 8), format!("{:<8}", "yes"));
    assert_eq!(pad_right("toolongvalue", 4), "toolongvalue");
    assert_eq!(pad_right("é", 3), "é  ");
}

#[test]
fn visible_len_counts_wide_and_zero_width() {
    assert_eq!(visible_len("a\u{FE0F}b"), 2);
    assert_eq!(visible_len("\x1b[1;32m"), 0);
    assert_eq!(visible_len("🧠🎮x"), 5);
}
