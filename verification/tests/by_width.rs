use textfit::truncate_with_width;

#[test]
fn test_truncate_width_ascii_no_truncation() {
    assert_eq!(truncate_with_width("hello", 10, "..."), "hello");
    assert_eq!(truncate_with_width("hello world", 50, "..."), "hello world");
}

#[test]
fn test_truncate_width_ascii_with_truncation() {
    // max_width=8, ellipsis=3, available=5: "hello" = 5 width, fits exactly
    assert_eq!(truncate_with_width("hello world", 8, "..."), "hello...");
    // max_width=5, ellipsis=3, available=2: "he" = 2 width, fits exactly
    assert_eq!(truncate_with_width("hello world", 5, "..."), "he...");
    // max_width=4, ellipsis=3, available=1: "h" = 1 width
    assert_eq!(truncate_with_width("hello world", 4, "..."), "h...");
}

#[test]
fn test_truncate_width_cjk_characters() {
    // Basic test: function should not panic with CJK characters
    let _ = truncate_with_width("你好", 4, "...");
    let _ = truncate_with_width("你好世界", 10, "...");
    // String shorter than max should return as-is
    assert_eq!(truncate_with_width("你好", 10, "..."), "你好");
}

#[test]
fn test_truncate_width_mixed_ascii_cjk() {
    // Basic test: function should not panic with mixed content
    let _ = truncate_with_width("Hello 世界", 20, "...");
    assert_eq!(truncate_with_width("Hello", 10, "..."), "Hello");
}

#[test]
fn test_truncate_width_emoji() {
    // max_width=8, ellipsis=3, available=5: 👋(2) + H(1) + e(1) + l(1) = 5, fits exactly
    assert_eq!(truncate_with_width("👋Hello", 8, "..."), "👋Hello");
    // max_width=7, available=4: 👋(2) + H(1) + e(1) = 4, fits exactly
    assert_eq!(truncate_with_width("👋Hello", 7, "..."), "👋Hello");
    // max_width=6, available=3: 👋(2) + H(1) = 3, fits exactly
    assert_eq!(truncate_with_width("👋Hello", 6, "..."), "👋H...");
    // max_width=5, available=2: 👋(2) fits exactly
    assert_eq!(truncate_with_width("👋Hello", 5, "..."), "👋...");
}

#[test]
fn test_truncate_width_custom_ellipsis() {
    assert_eq!(truncate_with_width("hello world", 8, "→"), "hello w→");
    assert_eq!(truncate_with_width("hello world", 8, "…"), "hello w…");
}

#[test]
fn test_truncate_width_empty_string() {
    assert_eq!(truncate_with_width("", 10, "..."), "");
    assert_eq!(truncate_with_width("", 0, "..."), "");
}

#[test]
fn test_truncate_width_exact_boundary() {
    // String exactly at boundary - no truncation
    assert_eq!(truncate_with_width("hello", 5, "..."), "hello");
    // CJK exact boundary
    assert_eq!(truncate_with_width("你好", 4, "..."), "你好");
}

#[test]
fn test_truncate_width_accented_characters() {
    // Basic test: function should not panic with accented characters
    let _ = truncate_with_width("café résumé naïve", 20, "...");
}

#[test]
fn test_truncate_width_emoji_multiple() {
    let _ = truncate_with_width("👋👋👋👋", 10, "...");
}

#[test]
fn width_of_wide_text_cut_beside_three_dots() {
    assert_eq!(truncate_with_width("你好世界", 8, "..."), "你好世界");
    assert_eq!(truncate_with_width("你好世界", 7, "..."), "你好...");
    // a wide scalar value that would straddle the cut is left out
    assert_eq!(truncate_with_width("你好世界", 6, "..."), "你...");
    assert_eq!(truncate_with_width("你好世界", 4, "..."), "...");
}

#[test]
fn width_ellipsis_is_shortened_to_the_budget() {
    assert_eq!(truncate_with_width("你好世界", 3, "..."), "...");
    assert_eq!(truncate_with_width("你好世界", 2, "..."), "..");
    assert_eq!(truncate_with_width("你好世界", 1, "..."), ".");
    assert_eq!(truncate_with_width("hello world", 3, "..."), "...");
}

#[test]
fn width_no_columns_gives_empty_text() {
    assert_eq!(truncate_with_width("你好世界", 0, "..."), "");
    assert_eq!(truncate_with_width("hello", 0, ""), "");
    assert_eq!(truncate_with_width("hello", 0, "→"), "");
    // as wide as no columns, and still not kept
    assert_eq!(truncate_with_width("\u{200b}", 0, "..."), "");
    assert_eq!(truncate_with_width("\u{301}\u{301}", 0, "..."), "");
}

#[test]
fn width_ellipsis_of_which_nothing_fits() {
    assert_eq!(truncate_with_width("abcdef", 1, "你"), "");
    assert_eq!(truncate_with_width("abcdef", 1, "你..."), "");
}

#[test]
fn width_text_beside_a_shortened_ellipsis() {
    // of "你好" only "你" fits into 3 columns, which leaves one for the text
    assert_eq!(truncate_with_width("abcdef", 3, "你好"), "a你");
    assert_eq!(truncate_with_width("你bcdef", 3, "你好"), "你");
}

#[test]
fn width_empty_ellipsis() {
    assert_eq!(truncate_with_width("hello world", 5, ""), "hello");
    assert_eq!(truncate_with_width("hello world", 6, ""), "hello");
    assert_eq!(truncate_with_width("你好", 1, ""), "");
}

#[test]
fn width_drops_white_space_before_the_ellipsis() {
    assert_eq!(truncate_with_width("hello world", 9, "..."), "hello...");
    assert_eq!(truncate_with_width("hello \u{3000} world", 11, "..."), "hello...");
    assert_eq!(truncate_with_width("   abc", 5, ".."), "..");
}

#[test]
fn width_keeps_white_space_of_a_text_that_fits() {
    assert_eq!(truncate_with_width("hello   ", 8, "..."), "hello   ");
    assert_eq!(truncate_with_width("   ", 3, "..."), "   ");
}

#[test]
fn width_combining_marks_take_no_column() {
    let text = "e\u{301}e\u{301}e\u{301}";
    assert_eq!(truncate_with_width(text, 3, "…"), text);
    assert_eq!(truncate_with_width(text, 2, "…"), "e\u{301}…");
    // a mark at the start fits beside an ellipsis that takes every column
    assert_eq!(truncate_with_width("\u{301}abc", 2, ".."), "\u{301}..");
}

#[test]
fn width_control_characters_take_no_column() {
    assert_eq!(truncate_with_width("a\u{7}b\u{7}c", 3, "..."), "a\u{7}b\u{7}c");
    assert_eq!(truncate_with_width("a\u{7}b\u{7}cd", 3, "."), "a\u{7}b\u{7}.");
}

#[test]
fn width_ellipsis_with_scalar_values_of_no_width() {
    assert_eq!(truncate_with_width("hello world", 5, "\u{301}"), "hello\u{301}");
    assert_eq!(truncate_with_width("hello world", 5, ".\u{301}."), "hel.\u{301}.");
    // shortened to one column, the mark stays with the dot before it
    assert_eq!(truncate_with_width("hello world", 1, ".\u{301}."), ".\u{301}");
}

#[test]
fn width_ellipsis_exactly_as_wide_as_the_budget() {
    assert_eq!(truncate_with_width("你好世界", 4, "你好"), "你好");
    assert_eq!(truncate_with_width("hello world", 2, "你"), "你");
}
