use gable::gui::datas::action_command::{
    convert_item_command, convert_target_command, create_excel_command, create_folder_command, create_sheet_command,
    delete_comand, editname_command, editor_command, generate_item_command, generate_target_command, next_command,
    open_command, refresh_command, rename_command, ECommandType,
};
use gable::gui::datas::cell_data::clock_text;
use gable::gui::datas::log::{
    clear_log_records, enabled, log_line, log_panel_rows, log_rows, push_record, LogLevel, LogRecord,
};
use gable::gui::localization::{LanguagePack, LocalizationManager};
use gable::gui::file_watcher::{watch_actions, WatchAction, WatchEventKind};
use gable::gui::gable_popup::{open_window, GablePopup, WindowParams, WINDOW_ABOUT, WINDOW_BUILD_SETTING};
use std::collections::VecDeque;

#[test]
fn command_queue_is_first_in_first_out() {
    let mut q = VecDeque::new();
    editor_command(&mut q, "ws/a/Hero".to_string());
    rename_command(&mut q, "ws/a".to_string(), "b".to_string());
    delete_comand(&mut q, "ws/c".to_string());
    refresh_command(&mut q);
    let first = next_command(&mut q).unwrap();
    assert_eq!(first.com_type, ECommandType::Edit);
    assert_eq!(first.param1.as_deref(), Some("ws/a/Hero"));
    let second = next_command(&mut q).unwrap();
    assert_eq!(second.com_type, ECommandType::Rename);
    assert_eq!(second.param2.as_deref(), Some("b"));
    assert_eq!(next_command(&mut q).unwrap().com_type, ECommandType::Delete);
    let last = next_command(&mut q).unwrap();
    assert_eq!(last.com_type, ECommandType::Refresh);
    assert!(last.param1.is_none());
    assert!(next_command(&mut q).is_none());
}

#[test]
fn popup_requests() {
    let mut popup = GablePopup::new();
    let mut q: VecDeque<WindowParams> = VecDeque::new();
    open_window(&mut q, WINDOW_ABOUT);
    q.push_back(WindowParams { id: WINDOW_BUILD_SETTING, action: false });
    q.push_back(WindowParams { id: 7, action: true });
    popup.update_queue(&mut q);
    assert!(q.is_empty());
    assert!(popup.gable_about.visible());
    assert!(!popup.gable_build_setting.visible);
    q.push_back(WindowParams { id: WINDOW_ABOUT, action: false });
    open_window(&mut q, WINDOW_ABOUT);
    popup.update_queue(&mut q);
    assert!(popup.gable_about.visible());
}

#[test]
fn clock_texts() {
    assert_eq!(clock_text(0), "00:00:00");
    assert_eq!(clock_text(3661), "01:01:01");
    assert_eq!(clock_text(86399), "23:59:59");
    assert_eq!(clock_text(360000), "100:00:00");
}

#[test]
fn watcher_actions() {
    let paths = vec![
        "t/Hero.xlsx".to_string(),
        "t/~$Hero.xlsx".to_string(),
        "t/notes.txt".to_string(),
        "t/Item.xlsx".to_string(),
    ];
    let saved = watch_actions(WatchEventKind::Modify, &paths);
    let saved: Vec<String> = saved
        .into_iter()
        .map(|a| match a {
            WatchAction::Complete(p) => p,
            WatchAction::CompleteAndForget(p) => format!("forget {}", p),
        })
        .collect();
    assert_eq!(saved, vec!["t/Hero.xlsx", "t/Item.xlsx"]);
    let closed = watch_actions(WatchEventKind::Remove, &paths);
    assert_eq!(closed.len(), 1);
    match &closed[0] {
        WatchAction::CompleteAndForget(p) => assert_eq!(p, "t/Hero.xlsx"),
        other => panic!("unexpected {:?}", other),
    }
    assert!(watch_actions(WatchEventKind::Other, &paths).is_empty());
}

fn record(n: usize) -> LogRecord {
    LogRecord { timestamp: "2024-01-02 03:04:05.006".to_string(), level: LogLevel::Info, target: "gable".to_string(), args: n.to_string() }
}

#[test]
fn log_lines_and_levels() {
    assert_eq!(log_line(&record(7)), "2024-01-02 03:04:05.006 [INFO] gable - 7\n");
    assert!(enabled(LogLevel::Error, LogLevel::Info));
    assert!(enabled(LogLevel::Info, LogLevel::Info));
    assert!(!enabled(LogLevel::Trace, LogLevel::Info));
}

#[test]
fn log_records_are_capped() {
    let mut records = Vec::new();
    for n in 0..1000 {
        push_record(&mut records, record(n));
    }
    assert_eq!(records.len(), 1000);
    push_record(&mut records, record(1000));
    assert_eq!(records.len(), 901);
    assert_eq!(records[0].args, "100");
    assert_eq!(records[900].args, "1000");
}

#[test]
fn every_command_kind_is_queued() {
    let mut q = VecDeque::new();
    open_command(&mut q, "p1".to_string());
    convert_item_command(&mut q, "p2".to_string());
    generate_item_command(&mut q, "p3".to_string());
    convert_target_command(&mut q, "t1".to_string());
    generate_target_command(&mut q, "t2".to_string());
    create_folder_command(&mut q, "p4".to_string());
    create_excel_command(&mut q, "p5".to_string());
    create_sheet_command(&mut q, "p6".to_string());
    editname_command(&mut q, "p7".to_string());
    let kinds: Vec<(ECommandType, String)> =
        q.iter().map(|c| (c.com_type, c.param1.clone().unwrap())).collect();
    assert_eq!(
        kinds,
        vec![
            (ECommandType::Open, "p1".to_string()),
            (ECommandType::ConvertItem, "p2".to_string()),
            (ECommandType::GenerateItem, "p3".to_string()),
            (ECommandType::ConvertTarget, "t1".to_string()),
            (ECommandType::GenerateTarget, "t2".to_string()),
            (ECommandType::CreateFolder, "p4".to_string()),
            (ECommandType::CreateExcel, "p5".to_string()),
            (ECommandType::CreateSheet, "p6".to_string()),
            (ECommandType::Editname, "p7".to_string()),
        ]
    );
    assert!(q.iter().all(|c| c.param2.is_none()));
}

#[test]
fn log_rows_newest_first() {
    let mut records = Vec::new();
    push_record(&mut records, record(1));
    push_record(&mut records, LogRecord { level: LogLevel::Warn, ..record(2) });
    let rows = log_rows(&records);
    assert_eq!(rows.len(), 2);
    assert_eq!(rows[0].1, "Warn");
    assert_eq!(rows[0].3, "2");
    assert_eq!(rows[1].1, "Info");
    clear_log_records(&mut records);
    assert!(records.is_empty());
    assert!(log_rows(&records).is_empty());
}

#[test]
fn log_panel_placeholder_rows() {
    let mut manager = LocalizationManager::new();
    let mut en = LanguagePack::new("en", "English");
    en.add_translation("temporary_log", "No log yet");
    manager.add_language(en);
    let empty: Vec<LogRecord> = Vec::new();
    let rows = log_panel_rows(Some(empty.as_slice()), &manager);
    assert_eq!(rows, vec![("No log yet".to_string(), String::new(), String::new(), String::new())]);
    let rows = log_panel_rows(None, &manager);
    assert_eq!(rows, vec![("log_system_not_initialized".to_string(), String::new(), String::new(), String::new())]);
    let records = vec![record(1), record(2)];
    let rows = log_panel_rows(Some(records.as_slice()), &manager);
    assert_eq!(rows.len(), 2);
    assert_eq!(rows[0].3, "2");
    assert_eq!(rows[1].3, "1");
}
