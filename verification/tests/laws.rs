use textfit::whitespace::has_white_space_property;
use textfit::{truncate_with_ellipsis, truncate_with_width, MaybeSet};
use unicode_width::UnicodeWidthStr;

fn texts() -> Vec<&'static str> {
    vec![
        "",
        "a",
        "hello world",
        "hello   world   ",
        "   ",
        "你好世界",
        "Hello 世界 and more",
        "👋👋👋👋",
        "e\u{301}e\u{301} e\u{301}",
        "\u{200b}\u{200b}",
        "ａｂｃ　ｄｅｆ",
        "tab\tand\nnewline",
    ]
}

fn ellipses() -> Vec<&'static str> {
    vec!["", ".", "...", "…", "→", "你", "你好", " ..", "\u{301}"]
}

#[test]
fn white_space_is_what_std_calls_white_space() {
    let mut n = 0;
    for code in 0..=0x10FFFFu32 {
        if let Some(c) = char::from_u32(code) {
            assert_eq!(has_white_space_property(c), c.is_whitespace());
            if has_white_space_property(c) {
                n += 1;
            }
        }
    }
    assert_eq!(n, 25);
}

#[test]
fn width_result_is_never_wider_than_the_budget() {
    for text in texts() {
        for ellipsis in ellipses() {
            for max in 0..24 {
                let r = truncate_with_width(text, max, ellipsis);
                assert!(UnicodeWidthStr::width(r.as_str()) <= max);
            }
        }
    }
}

#[test]
fn width_text_that_fits_is_unchanged() {
    for text in texts() {
        for ellipsis in ellipses() {
            for max in 1..24 {
                if UnicodeWidthStr::width(text) <= max {
                    assert_eq!(truncate_with_width(text, max, ellipsis), text);
                }
            }
        }
    }
}

#[test]
fn width_twice_is_once() {
    for text in texts() {
        for ellipsis in ellipses() {
            for max in 0..24 {
                let once = truncate_with_width(text, max, ellipsis);
                assert_eq!(truncate_with_width(&once, max, ellipsis), once);
            }
        }
    }
}

#[test]
fn width_result_is_a_start_of_the_text_and_a_start_of_the_ellipsis() {
    for text in texts() {
        for ellipsis in ellipses() {
            for max in 0..24 {
                let r = truncate_with_width(text, max, ellipsis);
                let found = text.char_indices().map(|(i, _)| i).chain([text.len()]).any(|i| {
                    r.starts_with(&text[..i]) && ellipsis.starts_with(&r[i..])
                });
                assert!(found);
            }
        }
    }
}

#[test]
fn width_keeps_the_longest_start_that_fits() {
    // 11 columns of text, 3 of ellipsis: 7 columns are left in 10
    assert_eq!(truncate_with_width("abcdefghijk", 10, "..."), "abcdefg...");
    // the wide scalar value does not fit into the last column
    assert_eq!(truncate_with_width("abcdef你ijk", 10, "..."), "abcdef...");
}

#[test]
fn count_twice_is_once_for_settled_texts() {
    for text in texts() {
        for max in 0..24 {
            let once = truncate_with_ellipsis(text, max);
            let total = text.chars().count();
            let start: String = text.chars().take(max).collect();
            let trimmed = start.trim_end().chars().count();
            let settled = total <= max || trimmed == max || trimmed + 3 <= max;
            let twice = truncate_with_ellipsis(&once, max);
            assert_eq!(twice == once, settled);
        }
    }
}

#[test]
fn maybe_set_tells_its_three_cases_apart() {
    let given: MaybeSet<u32> = MaybeSet::Present(7);
    let left_out: MaybeSet<u32> = MaybeSet::Absent;
    let null: MaybeSet<u32> = MaybeSet::ExplicitNull;
    assert!(matches!(given, MaybeSet::Present(7)));
    assert!(matches!(left_out, MaybeSet::Absent));
    assert!(matches!(null, MaybeSet::ExplicitNull));
    assert!(!matches!(left_out, MaybeSet::ExplicitNull));
}

#[test]
fn count_result_is_cut_on_a_character_boundary() {
    for text in texts() {
        for max in 0..24 {
            let r = truncate_with_ellipsis(text, max);
            let found = text.char_indices().map(|(i, _)| i).chain([text.len()]).any(|i| {
                r.starts_with(&text[..i]) && (r.len() == i || &r[i..] == "...")
            });
            assert!(found);
            assert!(std::str::from_utf8(r.as_bytes()).is_ok());
        }
    }
}
