use bevy_widgets::number_input::{
    commit_target, format_i32, number_char_allowed, number_input_on_enter_key,
    number_input_on_value_change, parse_i32, NumberFormat, NumberInputProps, TextChild,
};
use bevy_widgets::theme::ThemeToken;

fn parse(s: &str) -> Option<i32> {
    parse_i32(&s.chars().collect())
}

#[test]
fn parse_i32_accepts_integers() {
    assert_eq!(parse("0"), Some(0));
    assert_eq!(parse("43"), Some(43));
    assert_eq!(parse("-17"), Some(-17));
    assert_eq!(parse("+17"), Some(17));
    assert_eq!(parse("007"), Some(7));
    assert_eq!(parse("2147483647"), Some(i32::MAX));
    assert_eq!(parse("-2147483648"), Some(i32::MIN));
}

#[test]
fn parse_i32_rejects_non_integers() {
    assert_eq!(parse(""), None);
    assert_eq!(parse("-"), None);
    assert_eq!(parse("+"), None);
    assert_eq!(parse("1.5"), None);
    assert_eq!(parse("1e3"), None);
    assert_eq!(parse(" 1"), None);
    assert_eq!(parse("--1"), None);
    assert_eq!(parse("2147483648"), None);
    assert_eq!(parse("-2147483649"), None);
    assert_eq!(parse("99999999999999999999"), None);
}

#[test]
fn parse_i32_agrees_with_std() {
    for s in ["12", "-0", "+0", "12a", "a12", "", "-", "4294967296", "-2147483648", "2147483647"] {
        assert_eq!(parse(s), s.parse::<i32>().ok(), "{s}");
    }
}

#[test]
fn integer_round_trip() {
    for v in [0, 1, -1, 43, -9000, i32::MAX, i32::MIN] {
        assert_eq!(parse(&format!("{}", v)), Some(v));
    }
}

#[test]
fn value_change_updates_first_unfocused_field() {
    let children = vec![
        TextChild { entity: 1, editable: false },
        TextChild { entity: 2, editable: true },
        TextChild { entity: 3, editable: true },
    ];
    assert_eq!(number_input_on_value_change(&children, None), Some(2));
    assert_eq!(number_input_on_value_change(&children, Some(7)), Some(2));
    assert_eq!(number_input_on_value_change(&children, Some(2)), Some(3));
    assert_eq!(number_input_on_value_change(&children[..2].to_vec(), Some(2)), None);
    assert_eq!(number_input_on_value_change(&vec![], None), None);
}

#[test]
fn defaults() {
    assert!(NumberFormat::default() == NumberFormat::F32);
    let props = NumberInputProps::default();
    assert!(props.sigil_color == ThemeToken::Transparent);
    assert!(props.label_text.is_none());
    assert!(props.number_format == NumberFormat::F32);
}

#[test]
fn typed_characters_filter() {
    for c in "0123456789.-+eE".chars() {
        assert!(number_char_allowed(c), "{c}");
    }
    for c in "aX ,_/:".chars() {
        assert!(!number_char_allowed(c), "{c}");
    }
}

#[test]
fn commit_target_needs_number_input_parent_and_text() {
    assert_eq!(commit_target(Some(4), Some(NumberFormat::I32), true), Some((4, NumberFormat::I32)));
    assert_eq!(commit_target(Some(4), Some(NumberFormat::F64), false), None);
    assert_eq!(commit_target(None, Some(NumberFormat::F64), true), None);
    assert_eq!(commit_target(Some(4), None, true), None);
}

#[test]
fn format_i32_writes_decimal() {
    for v in [0, 7, 10, 43, -1, -9000, 2147483647, -2147483648] {
        let text: String = format_i32(v).into_iter().collect();
        assert_eq!(text, v.to_string());
        assert_eq!(parse(&text), Some(v));
    }
}

#[test]
fn enter_key_commits_only_on_enter() {
    assert_eq!(number_input_on_enter_key(true, Some(4), Some(NumberFormat::F32), true), Some((4, NumberFormat::F32)));
    assert_eq!(number_input_on_enter_key(false, Some(4), Some(NumberFormat::F32), true), None);
    assert_eq!(number_input_on_enter_key(true, None, Some(NumberFormat::F32), true), None);
}
