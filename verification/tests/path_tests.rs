use gable::common::text::{decimal_text, text_not_after};
use gable::common::utils::{determine_sheet_type, file_name_of, is_ignored_dir_name, join_path, parent_of, parse_gable_filename};
use gable::gui::datas::esheet_type::ESheetType;

#[test]
fn gable_file_names() {
    assert_eq!(parse_gable_filename("Hero@Main.gable"), Some(("Hero".to_string(), Some("Main".to_string()))));
    assert_eq!(parse_gable_filename("Hero.gable"), Some(("Hero".to_string(), None)));
    assert_eq!(parse_gable_filename("a@b@c.gable"), Some(("a".to_string(), Some("b@c".to_string()))));
    assert_eq!(parse_gable_filename("Hero@Main.xlsx"), None);
    assert_eq!(parse_gable_filename("gable"), None);
}

#[test]
fn sheet_kinds_by_folder() {
    assert_eq!(determine_sheet_type("ws", "ws/enums/Color@C.gable"), ESheetType::Enum);
    assert_eq!(determine_sheet_type("ws", "ws/kvs/deep/Conf@C.gable"), ESheetType::KV);
    assert_eq!(determine_sheet_type("ws", "ws\\localizes\\Text@T.gable"), ESheetType::Localize);
    assert_eq!(determine_sheet_type("ws", "ws/data/enums/E@x.gable"), ESheetType::Normal);
    assert_eq!(determine_sheet_type("ws", "ws/enums"), ESheetType::Normal);
    assert_eq!(determine_sheet_type("ws", "other/enums/E@x.gable"), ESheetType::Normal);
    assert_eq!(determine_sheet_type("ws", "wsx/enums/E@x.gable"), ESheetType::Normal);
}

#[test]
fn path_parts() {
    assert_eq!(file_name_of("ws/a/Hero@Main.gable"), "Hero@Main.gable");
    assert_eq!(file_name_of("C:\\ws\\Hero.gable"), "Hero.gable");
    assert_eq!(file_name_of("plain"), "plain");
    assert_eq!(parent_of("ws/a/Hero"), Some("ws/a".to_string()));
    assert_eq!(parent_of("plain"), Some(String::new()));
    assert_eq!(parent_of(""), None);
    assert_eq!(join_path("ws/a", "Hero"), "ws/a/Hero");
    assert!(is_ignored_dir_name("__Temp"));
    assert!(is_ignored_dir_name("__Data"));
    assert!(!is_ignored_dir_name("data"));
}

#[test]
fn text_order() {
    assert!(text_not_after("abc", "abd"));
    assert!(text_not_after("ab", "abc"));
    assert!(!text_not_after("abc", "ab"));
    assert!(text_not_after("", ""));
    assert!(text_not_after("B", "a"));
    assert!(!text_not_after("b", "B"));
    assert_eq!("B" < "a", text_not_after("B", "a"));
}

#[test]
fn decimals() {
    assert_eq!(decimal_text(0), "0");
    assert_eq!(decimal_text(1907), "1907");
    assert_eq!(decimal_text(u64::MAX), u64::MAX.to_string());
}
