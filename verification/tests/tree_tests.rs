use gable::gui::datas::cell_data::CellData;
use gable::gui::datas::eitem_type::EItemType;
use gable::gui::datas::esheet_type::ESheetType;
use gable::gui::datas::gable_data::GableData;
use gable::gui::datas::gables::{
    add_editor_file, add_item_to_parent, add_new_item, command_edit_gable, find_item_by_path, find_item_clone,
    get_enum_cells, get_item_clone, get_loc_cells, has_eidtor_file, related_gable_files, remove_editor_file,
    remove_item_from_tree_recursive, update_child_data, update_item_display_name_recursive, EditorFiles,
};
use gable::gui::datas::tree_build::{build_tree_from_path, DiskEntry};
use gable::gui::datas::tree_data::TreeData;
use gable::gui::datas::tree_item::{is_listed_no_later, sort_tree_items, TreeItem};

fn cell(v: &str) -> CellData {
    CellData { value: v.to_string(), bg_fill: String::new(), font_fill: String::new() }
}

fn table(v: &str) -> GableData {
    GableData { heads: vec![vec![cell("head")]], cells: vec![vec![cell(v)]] }
}

fn node(kind: EItemType, name: &str, path: &str, parent: Option<&str>, children: Vec<TreeItem>) -> TreeItem {
    TreeItem {
        item_type: kind,
        display_name: name.to_string(),
        is_open: false,
        fullpath: path.to_string(),
        parent: parent.map(|p| p.to_string()),
        link_name: None,
        children,
        data: None,
    }
}

fn sheet(name: &str, excel: &str, kind: ESheetType, link: &str) -> TreeItem {
    let mut s = node(EItemType::Sheet, name, &format!("{}@{}.gable", excel, name), Some(excel), vec![]);
    s.link_name = Some(link.to_string());
    s.data = Some(TreeData { gable_type: kind, file_name: name.to_string(), content: table(name) });
    s
}

/// ws/a (folder) > ws/a/Hero (workbook) > Main, Skill (sheets); ws/enums > ws/enums/Color > Color.
fn workspace_tree() -> Vec<TreeItem> {
    let hero = node(
        EItemType::Excel,
        "Hero",
        "ws/a/Hero",
        Some("ws/a"),
        vec![
            sheet("Main", "ws/a/Hero", ESheetType::Normal, "Hero@Main"),
            sheet("Skill", "ws/a/Hero", ESheetType::Normal, "Hero@Skill"),
        ],
    );
    let color = node(
        EItemType::Excel,
        "Color",
        "ws/enums/Color",
        Some("ws/enums"),
        vec![sheet("Color", "ws/enums/Color", ESheetType::Enum, "Color")],
    );
    vec![
        node(EItemType::Folder, "a", "ws/a", Some("ws"), vec![hero]),
        node(EItemType::Folder, "enums", "ws/enums", Some("ws"), vec![color]),
    ]
}

fn names(items: &[TreeItem]) -> Vec<String> {
    items.iter().map(|i| i.display_name.clone()).collect()
}

#[test]
fn find_by_path_in_pre_order() {
    let tree = workspace_tree();
    let found = find_item_by_path(&tree, "ws/a/Hero@Skill.gable").unwrap();
    assert_eq!(found.display_name, "Skill");
    assert!(find_item_by_path(&tree, "ws/missing").is_none());
    assert_eq!(get_item_clone(&tree, "ws/enums").unwrap().display_name, "enums");
}

#[test]
fn find_item_walks_up_to_the_kind() {
    let tree = workspace_tree();
    let wb = find_item_clone(&tree, "ws/a/Hero@Main.gable", EItemType::Excel).unwrap();
    assert_eq!(wb.fullpath, "ws/a/Hero");
    let folder = find_item_clone(&tree, "ws/a/Hero@Main.gable", EItemType::Folder).unwrap();
    assert_eq!(folder.fullpath, "ws/a");
    let same = find_item_clone(&tree, "ws/a/Hero", EItemType::Excel).unwrap();
    assert_eq!(same.display_name, "Hero");
    // The folder's parent "ws" is not a node: the search ends there.
    assert!(find_item_clone(&tree, "ws/a", EItemType::Sheet).is_none());
    assert!(find_item_clone(&tree, "nowhere", EItemType::Excel).is_none());
}

#[test]
fn linked_tables() {
    let tree = workspace_tree();
    let color = get_enum_cells(&tree, "Color").unwrap();
    assert_eq!(color.cells[0][0].value, "Color");
    assert!(get_enum_cells(&tree, "Hero@Main").is_none());
    assert!(get_loc_cells(&tree, "Color").is_none());
}

#[test]
fn listing_order_puts_folders_first() {
    let mut items = vec![
        node(EItemType::Excel, "b", "ws/b", None, vec![]),
        node(EItemType::Folder, "z", "ws/z", None, vec![]),
        node(EItemType::Excel, "a", "ws/a", None, vec![]),
        node(EItemType::Folder, "m", "ws/m", None, vec![]),
        node(EItemType::Sheet, "B", "ws/B", None, vec![]),
    ];
    sort_tree_items(&mut items);
    assert_eq!(names(&items), vec!["m", "z", "B", "a", "b"]);
    assert!(is_listed_no_later(&items[0], &items[1]));
    assert!(!is_listed_no_later(&items[2], &items[0]));
}

#[test]
fn add_under_parent_sorts_and_expands() {
    let mut tree = workspace_tree();
    let new_sheet = node(EItemType::Sheet, "Attack", "ws/a/Hero@Attack.gable", Some("ws/a/Hero"), vec![]);
    assert!(add_item_to_parent(&mut tree, new_sheet, "ws/a/Hero"));
    assert!(find_item_by_path(&tree, "ws/a/Hero@Attack.gable").is_some());
    let hero = find_item_by_path(&tree, "ws/a/Hero").unwrap();
    assert_eq!(names(&hero.children), vec!["Attack", "Main", "Skill"]);
    assert!(hero.is_open);
    assert!(tree[0].is_open);
    assert!(!tree[1].is_open);
    let lost = node(EItemType::Sheet, "X", "x", None, vec![]);
    assert!(!add_item_to_parent(&mut tree, lost, "ws/none"));
}

#[test]
fn rename_node() {
    let mut tree = workspace_tree();
    assert!(update_item_display_name_recursive(
        &mut tree,
        "ws/a/Hero@Main.gable",
        "ws/a/Hero@Base.gable".to_string(),
        "Base".to_string()
    ));
    let renamed = find_item_by_path(&tree, "ws/a/Hero@Base.gable").unwrap();
    assert_eq!(renamed.display_name, "Base");
    assert!(find_item_by_path(&tree, "ws/a/Hero@Main.gable").is_none());
    assert!(!update_item_display_name_recursive(&mut tree, "ws/none", "p".to_string(), "n".to_string()));
}

#[test]
fn remove_node() {
    let mut tree = workspace_tree();
    assert!(remove_item_from_tree_recursive(&mut tree, "ws/a/Hero@Skill.gable"));
    let hero = find_item_by_path(&tree, "ws/a/Hero").unwrap();
    assert_eq!(names(&hero.children), vec!["Main"]);
    assert!(remove_item_from_tree_recursive(&mut tree, "ws/enums"));
    assert_eq!(names(&tree), vec!["a"]);
    assert!(!remove_item_from_tree_recursive(&mut tree, "ws/enums"));
}

#[test]
fn reload_sheet_content() {
    let mut tree = workspace_tree();
    assert!(update_child_data(&mut tree, "ws", "ws/a/Hero@Main.gable", Some(table("fresh"))));
    let main = find_item_by_path(&tree, "ws/a/Hero@Main.gable").unwrap();
    let d = main.data.as_ref().unwrap();
    assert_eq!(d.cells_text(), "fresh");
    assert_eq!(d.file_name, "Main");
    assert_eq!(d.gable_type, ESheetType::Normal);
    assert!(update_child_data(&mut tree, "ws", "ws/enums/Color@Color.gable", None));
    assert!(find_item_by_path(&tree, "ws/enums/Color@Color.gable").unwrap().data.is_none());
    // A file name that names no sheet, and a path with no node.
    assert!(!update_child_data(&mut tree, "ws", "ws/a/Hero", Some(table("x"))));
    assert!(!update_child_data(&mut tree, "ws", "ws/a/Other@Main.gable", Some(table("x"))));
}

trait CellsText {
    fn cells_text(&self) -> String;
}

impl CellsText for TreeData {
    fn cells_text(&self) -> String {
        self.content.cells[0][0].value.clone()
    }
}

#[test]
fn add_new_items() {
    let mut tree = workspace_tree();
    // A new folder directly in the workspace goes to the top, sorted.
    assert!(add_new_item(&mut tree, "ws", "ws/b", EItemType::Folder, None));
    assert_eq!(names(&tree), vec!["a", "b", "enums"]);
    assert!(tree[1].is_open);
    // A new workbook under a folder node, named after its workbook.
    assert!(add_new_item(&mut tree, "ws", "ws/a/Item@Sheet_New.gable", EItemType::Excel, None));
    let item = find_item_by_path(&tree, "ws/a/Item").unwrap();
    assert_eq!(item.display_name, "Item");
    assert_eq!(item.link_name.as_deref(), Some("Item@Sheet_New.gable"));
    // Its sheet goes under the workbook, with the content read.
    assert!(add_new_item(&mut tree, "ws", "ws/a/Item@Sheet_New.gable", EItemType::Sheet, Some(table("v"))));
    let s = find_item_by_path(&tree, "ws/a/Item@Sheet_New.gable").unwrap();
    assert_eq!(s.display_name, "Sheet_New");
    assert_eq!(s.parent.as_deref(), Some("ws/a/Item"));
    assert_eq!(s.data.as_ref().unwrap().gable_type, ESheetType::Normal);
    // No parent node.
    assert!(!add_new_item(&mut tree, "ws", "ws/zzz/x", EItemType::Folder, None));
    // No file name.
    assert!(!add_new_item(&mut tree, "ws", "ws/", EItemType::Folder, None));
}

#[test]
fn sheet_kinds_follow_the_folder() {
    let mut tree = workspace_tree();
    assert!(add_new_item(&mut tree, "ws", "ws/enums/Color@Shade.gable", EItemType::Sheet, Some(table("x"))));
    let s = find_item_by_path(&tree, "ws/enums/Color@Shade.gable").unwrap();
    assert_eq!(s.data.as_ref().unwrap().gable_type, ESheetType::Enum);
}

#[test]
fn editor_files_read_back_what_was_written() {
    let mut files = EditorFiles::new();
    assert!(!has_eidtor_file(&files, "t/Hero.xlsx").0);
    add_editor_file(&mut files, "t/Hero.xlsx".to_string(), "ws/a".to_string(), ESheetType::Normal);
    add_editor_file(&mut files, "t/Color.xlsx".to_string(), "ws/enums".to_string(), ESheetType::Enum);
    let (has, data) = has_eidtor_file(&files, "t/Hero.xlsx");
    assert!(has);
    let data = data.unwrap();
    assert_eq!(data.target_path, "ws/a");
    assert_eq!(data.sheet_type, ESheetType::Normal);
    add_editor_file(&mut files, "t/Hero.xlsx".to_string(), "ws/b".to_string(), ESheetType::KV);
    assert_eq!(has_eidtor_file(&files, "t/Hero.xlsx").1.unwrap().target_path, "ws/b");
    remove_editor_file(&mut files, "t/Hero.xlsx");
    let (gone, none) = has_eidtor_file(&files, "t/Hero.xlsx");
    assert!(!gone);
    assert!(none.is_none());
    assert!(has_eidtor_file(&files, "t/Color.xlsx").0);
}

fn listing(names: &[&str], dir: &str) -> Vec<(String, String)> {
    names.iter().map(|n| (n.to_string(), format!("{}/{}", dir, n))).collect()
}

#[test]
fn edit_plans() {
    let tree = workspace_tree();
    let entries = listing(&["Hero@Main.gable", "Hero@Skill.gable", "Heroes@X.gable", "Hero.txt", "Hero.gable"], "ws/a");
    let hero = find_item_by_path(&tree, "ws/a/Hero").unwrap();
    let plan = command_edit_gable(hero, &entries).unwrap();
    assert_eq!(plan.excel_name, "Hero");
    assert_eq!(plan.parent_path, "ws/a");
    assert_eq!(plan.related_files, vec!["ws/a/Hero@Main.gable", "ws/a/Hero@Skill.gable", "ws/a/Hero.gable"]);
    // The workbook node holds no table itself: its first sheet's kind is used.
    assert_eq!(plan.sheet_type, ESheetType::Normal);
    let skill = find_item_by_path(&tree, "ws/a/Hero@Skill.gable").unwrap();
    let plan = command_edit_gable(skill, &entries).unwrap();
    assert_eq!(plan.excel_name, "Hero");
    assert!(command_edit_gable(&tree[0], &entries).is_none());
    let color = find_item_by_path(&tree, "ws/enums/Color").unwrap();
    assert_eq!(command_edit_gable(color, &[]).unwrap().sheet_type, ESheetType::Enum);
    assert_eq!(related_gable_files("Heroes", &entries), vec!["ws/a/Heroes@X.gable"]);
}

fn file(name: &str, dir: &str, content: Option<GableData>) -> DiskEntry {
    DiskEntry { name: name.to_string(), path: format!("{}/{}", dir, name), is_dir: false, entries: vec![], content }
}

fn folder(name: &str, dir: &str, entries: Vec<DiskEntry>) -> DiskEntry {
    DiskEntry { name: name.to_string(), path: format!("{}/{}", dir, name), is_dir: true, entries, content: None }
}

#[test]
fn tree_from_listing() {
    let entries = vec![
        file("Hero@Skill.gable", "ws", Some(table("s"))),
        folder("kvs", "ws", vec![file("Conf@Main.gable", "ws/kvs", Some(table("k")))]),
        file("Alone.gable", "ws", Some(table("a"))),
        file("Hero@Main.gable", "ws", None),
        folder("__Temp", "ws", vec![file("T@x.gable", "ws/__Temp", None)]),
        file("notes.txt", "ws", None),
        folder("b", "ws", vec![]),
    ];
    let tree = build_tree_from_path("ws", "ws", entries);
    assert_eq!(names(&tree), vec!["b", "kvs", "Hero"]);
    let hero = &tree[2];
    assert_eq!(hero.fullpath, "ws/Hero");
    assert_eq!(hero.link_name.as_deref(), Some("Hero"));
    assert_eq!(names(&hero.children), vec!["Main", "Skill"]);
    assert_eq!(hero.children[1].link_name.as_deref(), Some("Hero@Skill"));
    assert_eq!(hero.children[1].parent.as_deref(), Some("ws/Hero"));
    assert!(hero.children[0].data.is_none());
    assert_eq!(hero.children[1].data.as_ref().unwrap().content.cells[0][0].value, "s");
    let kvs = &tree[1];
    assert_eq!(kvs.item_type, EItemType::Folder);
    assert_eq!(kvs.children[0].children[0].data.as_ref().unwrap().gable_type, ESheetType::KV);
    assert_eq!(kvs.children[0].children[0].fullpath, "ws/kvs/Conf@Main.gable");
}

#[test]
fn sheet_datas_by_name_last_wins() {
    let mut first = sheet("Main", "ws/a/Hero", ESheetType::Normal, "Hero@Main");
    first.data = Some(TreeData { gable_type: ESheetType::Normal, file_name: "Main".to_string(), content: table("first") });
    let mut second = sheet("Main", "ws/b/Other", ESheetType::Normal, "Other@Main");
    second.data = Some(TreeData { gable_type: ESheetType::Normal, file_name: "Main".to_string(), content: table("second") });
    let skill = sheet("Skill", "ws/a/Hero", ESheetType::KV, "Hero@Skill");
    let color = sheet("Color", "ws/enums/Color", ESheetType::Enum, "Color");
    let a = node(EItemType::Excel, "Hero", "ws/a/Hero", Some("ws/a"), vec![first, skill]);
    let b = node(EItemType::Excel, "Other", "ws/b/Other", Some("ws/b"), vec![second, color]);
    let root = node(EItemType::Folder, "ws", "ws", None, vec![a, b]);
    let datas = root.get_datas();
    assert_eq!(datas.len(), 2);
    let main = datas.iter().find(|(n, _)| n == "Main").unwrap();
    assert_eq!(main.1.content.cells[0][0].value, "second");
    assert!(datas.iter().any(|(n, d)| n == "Skill" && d.gable_type == ESheetType::KV));
    assert!(!datas.iter().any(|(n, _)| n == "Color"));
}
