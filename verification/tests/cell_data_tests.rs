use gable::common::text::{chars_of, parse_i64, parse_u64, replace_chars};
use gable::gui::datas::cell_data::{bool_of, is_true_word, split_on, CellData};

fn cell(v: &str, bg: &str, font: &str) -> CellData {
    CellData { value: v.to_string(), bg_fill: bg.to_string(), font_fill: font.to_string() }
}

#[test]
fn background_kinds() {
    assert_eq!(cell("", "", "").get_background_type(), -1);
    assert_eq!(cell("", "argb:FF112233", "").get_background_type(), 0);
    assert_eq!(cell("", "theme:4,tint:0.5", "").get_background_type(), 1);
    assert_eq!(cell("", "rgb:00", "").get_background_type(), -1);
}

#[test]
fn background_colors() {
    assert_eq!(cell("", "argb:FF112233", "").get_background_color(), "FF112233");
    assert_eq!(cell("", "theme:4,tint:0.5", "").get_background_color(), "");
    assert_eq!(cell("", "", "").get_background_color(), "");
    // every "argb:" is removed, not just the leading one
    assert_eq!(cell("", "argb:AAargb:BB", "").get_background_color(), "AABB");
}

#[test]
fn font_kinds_and_colors() {
    let c = cell("x", "", "argb:FF000000");
    assert_eq!(c.get_font_type(), 0);
    assert_eq!(c.get_font_color(), "FF000000");
    let t = cell("x", "", "theme:1,tint:-0.25");
    assert_eq!(t.get_font_type(), 1);
    assert_eq!(t.get_font_color(), "");
    assert_eq!(cell("x", "", "").get_font_type(), -1);
}

#[test]
fn emptiness_and_lawfulness() {
    assert!(cell("", "", "").is_empty());
    assert!(!cell("", "argb:1", "").is_empty());
    assert!(!cell("a", "", "").is_empty());
    assert!(!cell("", "", "").verify_lawful());
    assert!(cell("a", "", "").verify_lawful());
    // an empty cell is never lawful
    assert!(!cell("", "argb:1", "argb:2").verify_lawful());
}

#[test]
fn integers() {
    assert_eq!(cell("42", "", "").parse_int(), 42);
    assert_eq!(cell("-17", "", "").parse_int(), -17);
    assert_eq!(cell("+8", "", "").parse_int(), 8);
    assert_eq!(cell("", "", "").parse_int(), 0);
    assert_eq!(cell("abc", "", "").parse_int(), 0);
    assert_eq!(cell("1.5", "", "").parse_int(), 0);
    assert_eq!(cell(" 3", "", "").parse_int(), 0);
    assert_eq!(cell("9223372036854775807", "", "").parse_int(), i64::MAX);
    assert_eq!(cell("-9223372036854775808", "", "").parse_int(), i64::MIN);
    assert_eq!(cell("9223372036854775808", "", "").parse_int(), 0);
    assert_eq!(cell("000000000000000000000000012", "", "").parse_int(), 12);
    assert_eq!(cell("-", "", "").parse_int(), 0);
}

#[test]
fn integer_round_trip() {
    for n in [0i64, 1, -1, 10, 99, -12345, i64::MAX, i64::MIN, 4_000_000_000] {
        assert_eq!(cell(&n.to_string(), "", "").parse_int(), n);
    }
}

#[test]
fn flags() {
    for t in ["true", "1", "yes", "on", " TRUE ", "Yes", "ON\t", "\u{3000}yes\u{a0}", "\n 1 \r"] {
        assert!(cell(t, "", "").parse_bool(), "{t}");
    }
    for f in ["false", "0", "no", "off", "", "2", "y", "tru e", " ", "\u{200b}1"] {
        assert!(!cell(f, "", "").parse_bool(), "{f}");
    }
}

#[test]
fn dates() {
    assert_eq!(cell("", "", "").convert_date(), "");
    assert_eq!(cell("0", "", "").convert_date(), "1900-01-01 00:00:00");
    assert_eq!(cell("3661", "", "").convert_date(), "1900-01-01 01:01:01");
    // day 59 is 1900-02-28
    assert_eq!(cell(&(58u64 * 86400).to_string(), "", "").convert_date(), "1900-02-28 00:00:00");
    // day 60 is the spreadsheet's 1900-02-29, shown as 1900-03-01
    assert_eq!(cell(&(59u64 * 86400).to_string(), "", "").convert_date(), "1900-03-01 00:00:00");
    // day 61 is 1900-03-01 as well
    assert_eq!(cell(&(60u64 * 86400).to_string(), "", "").convert_date(), "1900-03-01 00:00:00");
    assert_eq!(cell(&(45292u64 * 86400 - 86400 + 43200).to_string(), "", "").convert_date(), "2024-01-01 12:00:00");
    // text that is not a number counts as 0 seconds
    assert_eq!(cell("soon", "", "").convert_date(), "1900-01-01 00:00:00");
}

#[test]
fn date_after_year_9999() {
    // 2958465 is 9999-12-31 in the spreadsheet's day numbering
    let secs = 2958465u64 * 86400;
    assert_eq!(cell(&secs.to_string(), "", "").convert_date(), "+10000-01-01 00:00:00");
}

#[test]
fn text_parsing_helpers() {
    assert_eq!(parse_i64(&chars_of("-5")), Some(-5));
    assert_eq!(parse_i64(&chars_of("")), None);
    assert_eq!(parse_u64(&chars_of("-5")), None);
    assert_eq!(parse_u64(&chars_of("+5")), Some(5));
    assert_eq!(parse_u64(&chars_of("18446744073709551615")), Some(u64::MAX));
    assert_eq!(parse_u64(&chars_of("18446744073709551616")), None);
    let out = replace_chars(&chars_of("a*b**c"), &chars_of("*"), &[]);
    assert_eq!(out.iter().collect::<String>(), "abc");
    let out = replace_chars(&chars_of("aaa"), &chars_of("aa"), &chars_of("b"));
    assert_eq!(out.iter().collect::<String>(), "aaa".replace("aa", "b"));
}

#[test]
fn semicolon_lists() {
    assert_eq!(split_on("1;2;;3;", ';'), vec!["1", "2", "", "3", ""]);
    assert_eq!(split_on("", ';'), vec![""]);
    let ints = cell("1;-2;+3", "", "");
    assert_eq!(ints.int_items(), vec![1, -2, 3]);
    assert_eq!(cell("1;x;3", "", "").int_items(), vec![1, 3]);
    assert_eq!(cell("9223372036854775808", "", "").int_items(), Vec::<i64>::new());
    assert_eq!(cell("", "", "").int_items(), Vec::<i64>::new());
    assert_eq!(cell("true;false", "", "").bool_items(), Some(vec![true, false]));
    assert_eq!(cell("true;True", "", "").bool_items(), None);
    assert_eq!(cell("a;b", "", "").string_items(), vec!["a", "b"]);
    assert_eq!(bool_of("false"), Some(false));
    assert_eq!(bool_of("yes"), None);
}

#[test]
fn true_words() {
    for t in ["true", "1", "yes", "on"] {
        assert!(is_true_word(t), "{t}");
    }
    for f in ["TRUE", " yes", "no", "", "onn"] {
        assert!(!is_true_word(f), "{f}");
    }
}
