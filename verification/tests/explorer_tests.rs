use gable::gui::datas::eitem_type::EItemType;
use gable::gui::datas::gables::find_item_by_path;
use gable::gui::datas::tree_item::TreeItem;
use gable::gui::datas::action_command::ECommandType;
use gable::gui::gable_explorer::{
    choose_blank_menu_entry, free_name, is_valid_filename, menu_entries, menu_label, rename_excel_item,
    rename_folder_item, rename_sheet_item, show_context_menu, GableExplorer, MenuEffect, MenuEntry,
};

fn node(kind: EItemType, name: &str, path: &str, children: Vec<TreeItem>) -> TreeItem {
    TreeItem {
        item_type: kind,
        display_name: name.to_string(),
        is_open: false,
        fullpath: path.to_string(),
        parent: Some("ws".to_string()),
        link_name: None,
        children,
        data: None,
    }
}

fn tree() -> Vec<TreeItem> {
    vec![node(
        EItemType::Folder,
        "a",
        "ws/a",
        vec![node(EItemType::Excel, "Hero", "ws/a/Hero", vec![node(EItemType::Sheet, "Main", "ws/a/Hero@Main.gable", vec![])])],
    )]
}

fn taken(names: &[&str]) -> Vec<String> {
    names.iter().map(|n| n.to_string()).collect()
}

#[test]
fn free_names() {
    assert_eq!(free_name("New", "New(", ")", &taken(&[])), "New");
    assert_eq!(free_name("New", "New(", ")", &taken(&["New", "New(1)", "x"])), "New(2)");
    assert_eq!(free_name("New", "New(", ")", &taken(&["New(1)"])), "New");
}

#[test]
fn new_folder_paths() {
    let e = GableExplorer::new();
    let t = tree();
    assert_eq!(e.create_folder("ws/a", &t, "ws", "New Folder", &taken(&["New Folder"])), Some("ws/a/New Folder(1)".to_string()));
    assert_eq!(e.create_folder("nowhere", &t, "ws", "New Folder", &taken(&[])), Some("ws/New Folder".to_string()));
    assert_eq!(e.create_folder("ws/a/Hero", &t, "ws", "New Folder", &taken(&[])), None);
}

#[test]
fn new_workbook_paths() {
    let e = GableExplorer::new();
    let t = tree();
    assert_eq!(e.create_excel("ws/a", &t, "ws", &taken(&[])), Some("ws/a/Excel_New@Sheet_New.gable".to_string()));
    assert_eq!(
        e.create_excel("ws/a", &t, "ws", &taken(&["Excel_New@Sheet_New.gable", "Excel_New1@Sheet_New.gable"])),
        Some("ws/a/Excel_New2@Sheet_New.gable".to_string())
    );
    assert_eq!(e.create_excel("ws/a/Hero", &t, "ws", &taken(&[])), None);
}

#[test]
fn new_sheet_paths() {
    let e = GableExplorer::new();
    let t = tree();
    assert_eq!(e.create_sheet("ws/a/Hero", &t, &taken(&["Hero@Sheet_New.gable"])), Some("ws/a/Hero@Sheet_New1.gable".to_string()));
    assert_eq!(e.create_sheet("ws/a", &t, &taken(&[])), None);
}

#[test]
fn creating_starts_renaming() {
    let mut e = GableExplorer::new();
    let mut t = tree();
    e.excel_created(&mut t, "ws", "ws/a", "ws/a/Excel_New@Sheet_New.gable", None);
    let book = find_item_by_path(&t, "ws/a/Excel_New").unwrap();
    assert_eq!(book.item_type, EItemType::Excel);
    assert_eq!(book.children.len(), 1);
    assert_eq!(book.children[0].display_name, "Sheet_New");
    assert_eq!(e.finish_renaming("Excel_New", false, true), None);

    e.sheet_created(&mut t, "ws", "ws/a/Hero@Sheet_New.gable".to_string(), None);
    let hero = find_item_by_path(&t, "ws/a/Hero").unwrap();
    assert_eq!(hero.children.iter().map(|c| c.display_name.clone()).collect::<Vec<_>>(), vec!["Main", "Sheet_New"]);
    assert_eq!(e.finish_renaming("Sheet_New", true, false), None);

    e.folder_created(&mut t, "ws", "ws/a/New Folder".to_string());
    assert!(find_item_by_path(&t, "ws/a/New Folder").is_some());
}

#[test]
fn renaming_flow() {
    let mut e = GableExplorer::new();
    let t = tree();
    e.edit_name("ws/a/Hero".to_string(), &t);
    assert!(e.take_focus_request());
    assert!(!e.take_focus_request());
    // The typed name is the current one: nothing to apply.
    assert_eq!(e.finish_renaming("Hero", true, false), None);
    e.edit_name("ws/a/Hero".to_string(), &t);
    // Escape without Enter cancels.
    assert_eq!(e.finish_renaming("Other", false, true), None);
    e.edit_name("ws/a/Hero".to_string(), &t);
    assert_eq!(e.finish_renaming("Villain", false, false), Some("Hero".to_string()));
    e.edit_name("ws/none".to_string(), &t);
    assert_eq!(e.finish_renaming("x", true, false), None);
}

#[test]
fn rename_targets() {
    let e = GableExplorer::new();
    let t = tree();
    assert_eq!(e.rename("ws/a/Hero", "Villain", &t).unwrap().fullpath, "ws/a/Hero");
    assert!(e.rename("ws/a/Hero", "Hero", &t).is_none());
    assert!(e.rename("ws/a/Hero", "", &t).is_none());
    assert!(e.rename("ws/a/Hero", "a:b", &t).is_none());
    assert!(e.rename("ws/none", "Villain", &t).is_none());
    assert!(is_valid_filename("Hero 2"));
    assert!(!is_valid_filename("Hero?"));
    assert!(!is_valid_filename(""));
}

#[test]
fn rename_plans() {
    let t = tree();
    let folder = &t[0];
    assert_eq!(rename_folder_item(folder, "b"), Some("ws/b".to_string()));
    assert_eq!(rename_folder_item(folder, "a"), None);
    let hero = &t[0].children[0];
    let main = &hero.children[0];
    assert_eq!(rename_sheet_item(main, "Base"), Some("ws/a/Hero@Base.gable".to_string()));
    assert_eq!(rename_sheet_item(main, "Main"), None);
    let entries: Vec<(String, String)> = ["Hero@Main.gable", "Hero.gable", "Other@Main.gable", "Hero.txt"]
        .iter()
        .map(|n| (n.to_string(), format!("ws/a/{}", n)))
        .collect();
    let (moves, new_path) = rename_excel_item(hero, "Villain", &entries);
    assert_eq!(
        moves,
        vec![
            ("ws/a/Hero@Main.gable".to_string(), "ws/a/Villain@Main.gable".to_string()),
            ("ws/a/Hero.gable".to_string(), "ws/a/Villain.gable".to_string()),
        ]
    );
    assert_eq!(new_path, Some("ws/a/Villain".to_string()));
    let (none, same) = rename_excel_item(hero, "Hero", &entries);
    assert!(none.is_empty());
    assert!(same.is_none());
}

#[test]
fn selection_is_kept_apart_from_renaming() {
    let mut e = GableExplorer::new();
    let t = tree();
    e.select("ws/a".to_string());
    e.edit_name("ws/a/Hero".to_string(), &t);
    assert_eq!(e.finish_renaming("Hero", true, false), None);
    e.select("ws/a/Hero".to_string());
    // Ending the edit leaves a pending focus request; it is answered once.
    assert!(e.take_focus_request());
    assert!(!e.take_focus_request());
}

#[test]
fn context_menus() {
    let t = tree();
    let folder = &t[0];
    let hero = &t[0].children[0];
    let main = &hero.children[0];
    assert_eq!(menu_entries(EItemType::Folder).len(), 5);
    assert_eq!(menu_entries(EItemType::Excel)[0], MenuEntry::NewFile);
    assert_eq!(menu_entries(EItemType::Sheet)[0], MenuEntry::Edit);
    assert_eq!(menu_label(MenuEntry::ShowInExplorer), "show_in_resource_manager");
    let mut q = std::collections::VecDeque::new();
    assert!(matches!(show_context_menu(folder, MenuEntry::NewFile, &mut q), MenuEffect::Done));
    assert!(matches!(show_context_menu(hero, MenuEntry::NewFile, &mut q), MenuEffect::Done));
    assert!(matches!(show_context_menu(main, MenuEntry::Rename, &mut q), MenuEffect::Done));
    let queued: Vec<(ECommandType, String)> = q.iter().map(|c| (c.com_type, c.param1.clone().unwrap())).collect();
    assert_eq!(
        queued,
        vec![
            (ECommandType::CreateExcel, "ws/a".to_string()),
            (ECommandType::CreateSheet, "ws/a/Hero".to_string()),
            (ECommandType::Editname, "ws/a/Hero@Main.gable".to_string()),
        ]
    );
    match show_context_menu(hero, MenuEntry::ShowInExplorer, &mut q) {
        MenuEffect::Reveal(p) => assert_eq!(p, "ws"),
        other => panic!("unexpected {:?}", other),
    }
    match show_context_menu(folder, MenuEntry::Import, &mut q) {
        MenuEffect::ImportInto(p) => assert_eq!(p, "ws/a"),
        other => panic!("unexpected {:?}", other),
    }
    assert!(matches!(show_context_menu(folder, MenuEntry::Edit, &mut q), MenuEffect::Done));
    assert_eq!(q.len(), 3);
    assert!(matches!(choose_blank_menu_entry("ws", MenuEntry::NewFolder, &mut q), MenuEffect::Done));
    assert_eq!(q.back().unwrap().com_type, ECommandType::CreateFolder);
    assert!(matches!(choose_blank_menu_entry("ws", MenuEntry::ShowInExplorer, &mut q), MenuEffect::Reveal(_)));
}
