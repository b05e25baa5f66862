use gable::gui::datas::cell_data::CellData;
use gable::gui::datas::edata_type::EDataType;
use gable::gui::datas::esheet_type::ESheetType;
use gable::gui::datas::gable_data::GableData;
use gable::gui::datas::tree_data::{cell_value, CellValue, TreeData};

fn c(v: &str) -> CellData {
    CellData { value: v.to_string(), bg_fill: String::new(), font_fill: String::new() }
}

fn row(vs: &[&str]) -> Vec<CellData> {
    vs.iter().map(|v| c(v)).collect()
}

fn texts(rows: &[Vec<CellData>]) -> Vec<Vec<String>> {
    rows.iter().map(|r| r.iter().map(|x| x.value.clone()).collect()).collect()
}

/// A normal table: id (key), name, hp (keyword "s" only), weight (no keyword).
fn heroes() -> GableData {
    GableData {
        heads: vec![
            row(&["ID", "Name", "HP", "Weight"]),
            row(&["*id", "name", "hp", "weight"]),
            row(&["int", "string", "int", "float"]),
            row(&["cs", "cs", "s", ""]),
            row(&["", "", "", ""]),
        ],
        cells: vec![row(&["1", "Ann", "10", "2.5"]), row(&["", "Bob", "7", "1"]), row(&["3", "", "9"])],
    }
}

#[test]
fn templates() {
    let n = GableData::new(ESheetType::Normal);
    assert_eq!(texts(&n.heads), vec![vec!["ID"], vec!["*id"], vec!["int"], vec![], vec![]]);
    assert_eq!(texts(&n.cells), vec![vec!["1"]]);
    assert_eq!(n.heads.len(), 5);
    let kv = GableData::new(ESheetType::KV);
    assert_eq!(texts(&kv.heads), vec![vec!["key", "Data Type", "Target", "Link Info", "Value", "Description"]]);
    assert!(kv.cells.is_empty());
    let e = GableData::new(ESheetType::Enum);
    assert_eq!(texts(&e.heads), vec![vec!["Field Name", "Value", "Description"]]);
    let l = GableData::new(ESheetType::Localize);
    assert_eq!(texts(&l.heads), vec![vec!["ID"], vec!["*key"], vec!["string"], vec![], vec![]]);
    assert!(l.cells.is_empty());
}

#[test]
fn row_and_column_counts() {
    let g = heroes();
    assert_eq!(g.get_max_row(), 8);
    assert_eq!(g.get_max_col(), 4);
    let empty = GableData { heads: vec![], cells: vec![] };
    assert_eq!(empty.get_max_row(), 0);
    assert_eq!(empty.get_max_col(), 0);
    let wide = GableData { heads: vec![row(&["a"])], cells: vec![row(&["a", "b", "c", "d", "e"])] };
    assert_eq!(wide.get_max_col(), 5);
}

#[test]
fn valid_heads_by_keyword() {
    let g = heroes();
    assert_eq!(g.get_valid_normal_heads("cs"), (vec![0], vec![1]));
    assert_eq!(g.get_valid_normal_heads("s"), (vec![0], vec![1, 2]));
    assert_eq!(g.get_valid_normal_heads(""), (vec![0], vec![1, 2]));
    assert_eq!(g.get_valid_normal_heads("go"), (vec![], vec![]));
}

#[test]
fn normal_fields() {
    let t = TreeData { gable_type: ESheetType::Normal, file_name: "Hero".into(), content: heroes() };
    let f = t.to_fields("s");
    assert_eq!(f.len(), 3);
    assert!(f[0].is_key);
    assert_eq!(f[0].field_name, "id");
    assert_eq!(f[0].field_type, EDataType::Int);
    assert_eq!(f[0].field_desc, "ID");
    assert_eq!(f[0].field_index, 1);
    assert!(!f[1].is_key);
    assert_eq!(f[1].field_name, "name");
    assert_eq!(f[1].field_type, EDataType::String);
    assert_eq!(f[2].field_name, "hp");
    assert_eq!(f[2].field_index, 3);
    // without a non-key column there are no fields
    assert!(t.to_fields("cs").len() == 2);
    assert!(t.to_fields("go").is_empty());
}

#[test]
fn normal_records() {
    let t = TreeData { gable_type: ESheetType::Normal, file_name: "Hero".into(), content: heroes() };
    let r = t.to_records("s");
    // the row with an empty key is not a record
    assert_eq!(r.len(), 2);
    let keys: Vec<&str> = r[0].iter().map(|e| e.key.as_str()).collect();
    assert_eq!(keys, vec!["id", "name", "hp"]);
    assert_eq!(r[0][0].data_type, EDataType::Int);
    assert_eq!(r[0][0].text, "1");
    // the third row has no name, so it gives id and hp only
    let keys: Vec<&str> = r[1].iter().map(|e| e.key.as_str()).collect();
    assert_eq!(keys, vec!["id", "hp"]);
    assert_eq!(r[1][1].text, "9");
}

#[test]
fn records_need_key_and_value_columns() {
    let mut g = heroes();
    g.heads[1][1].value = "*name".into();
    g.heads[1][2].value = "*hp".into();
    let t = TreeData { gable_type: ESheetType::Normal, file_name: "Hero".into(), content: g };
    assert!(t.to_records("cs").is_empty());
}

#[test]
fn every_data_row_is_read() {
    // a table without the link header row still exports each of its rows
    let g = GableData {
        heads: vec![row(&["ID", "Name"]), row(&["*id", "name"]), row(&["int", "string"]), row(&["c", "c"])],
        cells: vec![row(&["1", "a"]), row(&["2", "b"]), row(&["3", "c"])],
    };
    let t = TreeData { gable_type: ESheetType::Normal, file_name: "x".into(), content: g };
    let r = t.to_records("c");
    assert_eq!(r.len(), 3);
    assert_eq!(r[2][0].text, "3");
    assert_eq!(r[2][1].text, "c");
    let empty = GableData { heads: vec![], cells: vec![row(&["1"]); 7] };
    let t = TreeData { gable_type: ESheetType::Normal, file_name: "x".into(), content: empty };
    assert!(t.to_records("").is_empty());
}

#[test]
fn localize_fields_and_records() {
    let g = GableData {
        heads: vec![
            row(&["Key", "Chinese", "English"]),
            row(&["*key", "#zh", "en"]),
            row(&["string", "string", "int"]),
            row(&["c", "c", "c"]),
            row(&[]),
        ],
        cells: vec![row(&["hello", "ni hao", "hello"])],
    };
    let t = TreeData { gable_type: ESheetType::Localize, file_name: "Loc".into(), content: g };
    let f = t.to_fields("c");
    assert_eq!(f.len(), 3);
    assert_eq!(f[0].field_name, "key");
    assert!(f.iter().all(|x| x.field_type == EDataType::String && x.field_link.is_empty()));
    assert_eq!(f[2].field_index, 3);
    let r = t.to_records("c");
    assert_eq!(r.len(), 1);
    assert_eq!(r[0][1].key, "#zh");
    assert_eq!(r[0][2].data_type, EDataType::Int);
}

#[test]
fn kv_fields_and_records() {
    let g = GableData {
        heads: vec![row(&["key", "Data Type", "Target", "Link Info", "Value", "Description"])],
        cells: vec![
            row(&["*max_level", "int", "cs", "", "60", "cap"]),
            row(&["title", "string", "go", "", "Gable"]),
            row(&["speed", "float", "cs", "", ""]),
            row(&["mode", "enum", "cs", "Modes", "2"]),
            row(&["", "int", "cs", "", "1"]),
        ],
    };
    let t = TreeData { gable_type: ESheetType::KV, file_name: "Conf".into(), content: g };
    let f = t.to_fields("cs");
    let names: Vec<&str> = f.iter().map(|x| x.field_name.as_str()).collect();
    assert_eq!(names, vec!["max_level", "speed", "mode"]);
    assert_eq!(f[0].field_desc, "cap");
    assert_eq!(f[2].field_link, "Modes");
    assert_eq!(f[2].field_type, EDataType::Enum);
    assert_eq!(f.iter().map(|x| x.field_index).collect::<Vec<_>>(), vec![1, 2, 3]);
    let r = t.to_records("cs");
    assert_eq!(r.len(), 1);
    let keys: Vec<&str> = r[0].iter().map(|e| e.key.as_str()).collect();
    // the key keeps its star here; a row without a value gives nothing
    assert_eq!(keys, vec!["*max_level", "mode"]);
}

#[test]
fn enum_fields() {
    let g = GableData {
        heads: vec![row(&["Field Name", "Value", "Description"])],
        cells: vec![row(&["Red", "1", "warm"]), row(&["Blue", "x"]), row(&["", "3"]), row(&["Big", "4294967297"])],
    };
    let t = TreeData { gable_type: ESheetType::Enum, file_name: "Color".into(), content: g };
    let f = t.to_fields("ignored");
    let names: Vec<&str> = f.iter().map(|x| x.field_name.as_str()).collect();
    assert_eq!(names, vec!["Red", "Blue", "Big"]);
    assert_eq!(f[0].field_index, 1);
    assert_eq!(f[0].field_desc, "warm");
    assert_eq!(f[1].field_index, 0);
    // 2^32 + 1 truncated to 32 bits
    assert_eq!(f[2].field_index, 1);
    assert!(t.to_records("").is_empty());
}

#[test]
fn exported_cell_values_by_type() {
    assert!(matches!(cell_value(EDataType::String, &c("abc")), CellValue::Text(t) if t == "abc"));
    assert!(matches!(cell_value(EDataType::Loc, &c("k")), CellValue::Text(t) if t == "k"));
    assert!(matches!(cell_value(EDataType::Int, &c("-12")), CellValue::Int(-12)));
    assert!(matches!(cell_value(EDataType::Enum, &c("x")), CellValue::Int(0)));
    assert!(matches!(cell_value(EDataType::Boolean, &c(" Yes ")), CellValue::Bool(true)));
    assert!(matches!(cell_value(EDataType::IntArr, &c("1;x;3")), CellValue::IntList(v) if v == vec![1, 3]));
    assert!(matches!(cell_value(EDataType::StringArr, &c("a;b")), CellValue::TextList(v) if v == vec!["a", "b"]));
    assert!(matches!(cell_value(EDataType::BooleanArr, &c("true;false")), CellValue::BoolList(Some(v)) if v == vec![true, false]));
    assert!(matches!(cell_value(EDataType::BooleanArr, &c("true;no")), CellValue::BoolList(None)));
    assert!(matches!(cell_value(EDataType::Float, &c("1.5")), CellValue::Numeric));
    assert!(matches!(cell_value(EDataType::Vector2Arr, &c("1;2")), CellValue::Numeric));
}
