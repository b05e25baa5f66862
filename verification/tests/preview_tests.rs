use gable::gui::datas::cell_data::CellData;
use gable::gui::datas::edata_type::EDataType;
use gable::gui::datas::eitem_type::EItemType;
use gable::gui::datas::esheet_type::ESheetType;
use gable::gui::datas::gable_data::GableData;
use gable::gui::datas::tree_data::TreeData;
use gable::gui::datas::tree_item::TreeItem;
use gable::gui::form::gable_form::GableForm;
use gable::gui::form::opened_cell_data::OpenedCellData;
use gable::gui::form::opened_excel::OpenedExcel;
use gable::gui::form::opened_gable_data::{column_index_to_name, DisplayValue, OpenedGableData};
use gable::gui::form::opened_sheet::OpenedSheet;

fn c(v: &str) -> CellData {
    CellData { value: v.to_string(), bg_fill: String::new(), font_fill: String::new() }
}

fn row(vs: &[&str]) -> Vec<CellData> {
    vs.iter().map(|v| c(v)).collect()
}

fn linked(name: &str, kind: ESheetType, content: GableData) -> TreeItem {
    TreeItem {
        item_type: EItemType::Sheet,
        display_name: name.to_string(),
        is_open: false,
        fullpath: format!("ws/{}", name),
        parent: None,
        link_name: Some(name.to_string()),
        children: vec![],
        data: Some(TreeData { gable_type: kind, file_name: name.to_string(), content }),
    }
}

fn lookup_tree() -> Vec<TreeItem> {
    let colors = GableData {
        heads: vec![row(&["Field Name", "Value", "Description"])],
        cells: vec![row(&["Red", "1", "red"]), row(&["Blue", "2"])],
    };
    let texts = GableData {
        heads: vec![row(&["ID", "Text"]), row(&["*key", "#text"]), row(&["string", "string"]), row(&[]), row(&[])],
        cells: vec![row(&["k1", "hello"]), row(&["k2"])],
    };
    vec![linked("Color", ESheetType::Enum, colors), linked("Text", ESheetType::Localize, texts)]
}

fn text(d: &DisplayValue) -> String {
    match d {
        DisplayValue::Text(s) => s.clone(),
        DisplayValue::Numeric(t, s) => format!("{:?}:{}", t, s),
    }
}

fn normal_sheet(cells: Vec<Vec<CellData>>) -> GableData {
    GableData {
        heads: vec![
            row(&["ID", "Color", "Name", "When", "Rate", "At"]),
            row(&["*id", "color", "name", "when", "rate", "at"]),
            row(&["int", "enum", "loc", "date", "%", "time"]),
            row(&["cs", "cs", "cs", "cs", "cs", "cs"]),
            row(&["", "Color", "Text", "", "", ""]),
        ],
        cells,
    }
}

#[test]
fn column_names() {
    assert_eq!(column_index_to_name(1), "A");
    assert_eq!(column_index_to_name(26), "Z");
    assert_eq!(column_index_to_name(27), "AA");
    assert_eq!(column_index_to_name(52), "AZ");
    assert_eq!(column_index_to_name(703), "AAA");
    assert_eq!(column_index_to_name(0), "");
}

#[test]
fn cell_values_by_type() {
    let tree = lookup_tree();
    let color = "Color".to_string();
    let texts = "Text".to_string();
    assert_eq!(text(&OpenedGableData::pairs_value(EDataType::Enum, &c("1"), Some(&color), &tree)), "red");
    assert_eq!(text(&OpenedGableData::pairs_value(EDataType::Enum, &c("2"), Some(&color), &tree)), "2");
    assert_eq!(text(&OpenedGableData::pairs_value(EDataType::Enum, &c("9"), Some(&color), &tree)), "9");
    assert_eq!(text(&OpenedGableData::pairs_value(EDataType::Enum, &c("1"), None, &tree)), "1");
    assert_eq!(text(&OpenedGableData::pairs_value(EDataType::Loc, &c("k1"), Some(&texts), &tree)), "hello");
    assert_eq!(text(&OpenedGableData::pairs_value(EDataType::Loc, &c("k2"), Some(&texts), &tree)), "k2");
    assert_eq!(text(&OpenedGableData::pairs_value(EDataType::Loc, &c("k1"), Some(&color), &tree)), "k1");
    assert_eq!(text(&OpenedGableData::pairs_value(EDataType::Date, &c("86400"), None, &tree)), "1900-01-02 00:00:00");
    assert_eq!(text(&OpenedGableData::pairs_value(EDataType::Date, &c(""), None, &tree)), "");
    assert_eq!(text(&OpenedGableData::pairs_value(EDataType::Percentage, &c("50"), None, &tree)), "Percentage:50");
    assert_eq!(text(&OpenedGableData::pairs_value(EDataType::Int, &c("7"), None, &tree)), "7");
}

#[test]
fn normal_sheet_preview() {
    let tree = lookup_tree();
    let g = normal_sheet(vec![row(&["1", "1", "k1", "86400", "50", "3600"]), row(&["2", "2"])]);
    assert!(OpenedGableData::is_displayable(ESheetType::Normal, &g));
    let p = OpenedGableData::new(ESheetType::Normal, &g, &tree);
    assert_eq!(p.max_row, 7);
    assert_eq!(p.max_col, 6);
    assert_eq!(p.column_headers, vec!["A", "B", "C", "D", "E", "F"]);
    assert_eq!(p.items.len(), 7);
    assert_eq!(p.items[2].0, 2);
    assert_eq!(p.items[2].1.iter().map(text).collect::<Vec<_>>(), vec!["int", "enum", "loc", "date", "%", "time"]);
    assert_eq!(p.items[5].0, 5);
    assert_eq!(
        p.items[5].1.iter().map(text).collect::<Vec<_>>(),
        vec!["1", "red", "hello", "1900-01-02 00:00:00", "Percentage:50", "Time:3600"]
    );
    assert_eq!(p.items[6].1.iter().map(text).collect::<Vec<_>>(), vec!["2", "2"]);
}

#[test]
fn kv_sheet_preview() {
    let tree = lookup_tree();
    let g = GableData {
        heads: vec![row(&["key", "Data Type", "Target", "Link Info", "Value", "Description"])],
        cells: vec![row(&["hero_color", "enum", "cs", "Color", "1", "d"]), row(&["speed", "int", "cs", "", "5", ""])],
    };
    let p = OpenedGableData::new(ESheetType::KV, &g, &tree);
    assert_eq!(p.items.len(), 3);
    assert_eq!(p.items[1].0, 1);
    assert_eq!(p.items[1].1.iter().map(text).collect::<Vec<_>>(), vec!["hero_color", "enum", "cs", "Color", "red", "d"]);
    assert_eq!(p.items[2].1.iter().map(text).collect::<Vec<_>>(), vec!["speed", "int", "cs", "", "5", ""]);
}

#[test]
fn far_dates_are_not_displayable() {
    let far = normal_sheet(vec![row(&["1", "1", "k1", "99999999999999999", "50", "0"])]);
    assert!(!OpenedGableData::is_displayable(ESheetType::Normal, &far));
    assert!(c("99999999999999999").date_fits() == false);
    assert!(c("not a number").date_fits());
    // The same text in a column that is not a date is fine.
    let mut ok = normal_sheet(vec![row(&["99999999999999999"])]);
    ok.heads[2][0] = c("int");
    assert!(OpenedGableData::is_displayable(ESheetType::Normal, &ok));
}

#[test]
fn sheets_and_workbooks() {
    let tree = lookup_tree();
    let g = normal_sheet(vec![row(&["1"])]);
    let mut sheet = linked("Main", ESheetType::Normal, g);
    sheet.fullpath = "ws/Hero@Main.gable".to_string();
    let unread = TreeItem { data: None, ..linked("Empty", ESheetType::Normal, GableData { heads: vec![], cells: vec![] }) };
    let tab = OpenedSheet::new(&sheet, &tree);
    assert_eq!(tab.display_name, "Main");
    assert_eq!(tab.data.max_row, 6);
    let blank = OpenedSheet::new(&unread, &tree);
    assert_eq!(blank.data.max_row, 0);
    assert!(blank.data.items.is_empty());
    let book = TreeItem {
        item_type: EItemType::Excel,
        display_name: "Hero".to_string(),
        is_open: false,
        fullpath: "ws/Hero".to_string(),
        parent: None,
        link_name: None,
        children: vec![sheet, unread],
        data: None,
    };
    let opened = OpenedExcel::new(book, &tree);
    assert_eq!(opened.selected_sheet_index, 0);
    assert_eq!(opened.full_path, "ws/Hero");
    assert_eq!(opened.sheets.len(), 2);
    assert_eq!(opened.sheets[1].display_name, "Empty");
    let cell = OpenedCellData::new(&c("x"), 2, 3);
    assert_eq!(cell.value, "x");
    assert_eq!(cell.row, 2);
    assert_eq!(cell.column, 3);
}

fn book(path: &str) -> TreeItem {
    let g = normal_sheet(vec![row(&["1"])]);
    TreeItem {
        item_type: EItemType::Excel,
        display_name: path.to_string(),
        is_open: false,
        fullpath: path.to_string(),
        parent: None,
        link_name: None,
        children: vec![linked("Main", ESheetType::Normal, g)],
        data: None,
    }
}

#[test]
fn workbook_tabs() {
    let tree = lookup_tree();
    let mut form = GableForm::new();
    assert!(form.get_selected_excel().is_none());
    form.open(book("a"), &tree);
    form.open(book("b"), &tree);
    form.open(book("c"), &tree);
    assert_eq!(form.selected_excel_index, Some(2));
    form.open(book("a"), &tree);
    assert_eq!(form.excels.len(), 3);
    assert_eq!(form.selected_excel_index, Some(0));
    assert_eq!(form.get_sheet().unwrap().display_name, "Main");
    // Closing another tab keeps the selection as it was.
    form.set_excel_index(2);
    form.remove_item(0);
    assert_eq!(form.selected_excel_index, Some(2));
    assert!(form.get_selected_excel().is_none());
    // Closing the selected last tab selects the new last one.
    form.remove_item(1);
    assert_eq!(form.selected_excel_index, Some(2));
    form.set_excel_index(1);
    form.remove_item(1);
    assert_eq!(form.selected_excel_index, Some(0));
    assert_eq!(form.get_selected_excel().unwrap().full_path, "b");
    form.remove_item(0);
    assert_eq!(form.selected_excel_index, None);
    form.remove_item(5);
    assert!(form.excels.is_empty());
}
