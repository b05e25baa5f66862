//! The preview of one sheet: column names and the text shown in each cell.
use crate::common::constant::{
    TABLE_ENUM_COL_DESC, TABLE_ENUM_COL_VALUE, TABLE_ENUM_ROW_TOTAL, TABLE_KV_COL_LINK,
    TABLE_KV_COL_TYPE, TABLE_KV_COL_VALUE, TABLE_KV_ROW_TOTAL, TABLE_LOCALIZE_ROW_FIELD,
    TABLE_LOCALIZE_ROW_TOTAL, TABLE_NORMAL_ROW_LINK, TABLE_NORMAL_ROW_TOTAL, TABLE_NORMAL_ROW_TYPE,
};
use crate::common::text::{chars_of, has_infix, string_of, text_equal};
use crate::gui::datas::cell_data::{date_seconds_in_range, date_text_of_seconds, seconds_of_text, CellData};
use crate::gui::datas::edata_type::{data_type_of, EDataType};
use crate::gui::datas::esheet_type::ESheetType;
use crate::gui::datas::gable_data::{cell_at, cell_ref, lawful_at, lawful_cell, text_at, GableData};
use crate::gui::datas::gables::{find_linked_table, linked_in};
use crate::gui::datas::tree_item::TreeItem;
use vstd::prelude::*;

verus! {

/// What a preview cell shows.
#[derive(Debug, Clone)]
pub enum DisplayValue {
    /// This text.
    Text(String),
    /// The cell's text read as a number of the given type (percentage,
    /// per-mille, per-ten-thousand or time of day), still to be written.
    Numeric(EDataType, String),
}

/// The mathematical content of a `DisplayValue`.
pub enum DisplayModel {
    Text(Seq<char>),
    Numeric(EDataType, Seq<char>),
}

impl DisplayValue {
    /// The value's content as plain values.
    pub open spec fn model(&self) -> DisplayModel {
        match self {
            DisplayValue::Text(s) => DisplayModel::Text(s@),
            DisplayValue::Numeric(t, s) => DisplayModel::Numeric(*t, s@),
        }
    }
}

/// The models of a row of preview cells.
pub open spec fn row_model(v: Seq<DisplayValue>) -> Seq<DisplayModel> {
    v.map_values(|d: DisplayValue| d.model())
}

/// The models of the keyed rows of a preview.
pub open spec fn items_model(v: Seq<(usize, Vec<DisplayValue>)>) -> Seq<(int, Seq<DisplayModel>)> {
    v.map_values(|p: (usize, Vec<DisplayValue>)| (p.0 as int, row_model(p.1@)))
}

/// The preview of a sheet.
#[derive(Debug, Clone)]
pub struct OpenedGableData {
    /// The number of rows.
    pub max_row: usize,
    /// The number of columns.
    pub max_col: usize,
    /// The spreadsheet names of the columns: `A`, `B`, ..., `Z`, `AA`, ...
    pub column_headers: Vec<String>,
    /// The shown rows, by row number, in ascending order.
    pub items: Vec<(usize, Vec<DisplayValue>)>,
}

/// The letter for `d` (below 26): `A` to `Z`.
pub open spec fn column_letter(d: nat) -> char {
    (65 + d) as char
}

/// The spreadsheet name of the 1-based column `n`: `A`..`Z`, then `AA`...
pub open spec fn column_name(n: nat) -> Seq<char>
    decreases n,
{
    if n == 0 {
        Seq::empty()
    } else {
        column_name(((n - 1) / 26) as nat).push(column_letter(((n - 1) % 26) as nat))
    }
}

/// The text of the first row of an enum table, from row `i` on, whose value
/// column holds `v`: its comment, or `v` when that row has no comment or
/// no row holds `v`.
pub open spec fn enum_scan(rows: Seq<Vec<CellData>>, v: Seq<char>, i: int) -> Seq<char>
    decreases rows.len() - i,
{
    if i < 0 || i >= rows.len() {
        v
    } else if cell_at(rows, i, TABLE_ENUM_COL_VALUE as int) matches Some(x) && x.value@ == v {
        match cell_at(rows, i, TABLE_ENUM_COL_DESC as int) {
            Some(d) => d.value@,
            None => v,
        }
    } else {
        enum_scan(rows, v, i + 1)
    }
}

/// The last of the first `n` cells of `row` whose text contains `mark`, or
/// column 0 when there is none.
pub open spec fn last_marked(row: Seq<CellData>, mark: Seq<char>, n: nat) -> int
    decreases n,
{
    if n == 0 {
        0
    } else if has_infix(row[n - 1].value@, mark) {
        n - 1
    } else {
        last_marked(row, mark, (n - 1) as nat)
    }
}

/// The column of a localisation table that holds the key (`*`) or the shown
/// text (`#`), judged by the field-name row; column 0 when none is marked.
pub open spec fn loc_column(t: GableData, mark: Seq<char>) -> int {
    if TABLE_LOCALIZE_ROW_FIELD < t.heads@.len() {
        let row = t.heads@[TABLE_LOCALIZE_ROW_FIELD as int]@;
        last_marked(row, mark, row.len())
    } else {
        0
    }
}

/// The text of the first row of a localisation table, from row `i` on,
/// whose key column holds `v`: its shown-text column, or `v` when that row
/// has no such cell or no row holds `v`.
pub open spec fn loc_scan(t: GableData, v: Seq<char>, i: int) -> Seq<char>
    decreases t.cells@.len() - i,
{
    if i < 0 || i >= t.cells@.len() {
        v
    } else if cell_at(t.cells@, i, loc_column(t, "*"@)) matches Some(x) && x.value@ == v {
        match cell_at(t.cells@, i, loc_column(t, "#"@)) {
            Some(d) => d.value@,
            None => v,
        }
    } else {
        loc_scan(t, v, i + 1)
    }
}

/// The text a date cell shows.
pub open spec fn date_display(v: Seq<char>) -> Seq<char> {
    if v.len() == 0 {
        Seq::empty()
    } else {
        date_text_of_seconds(seconds_of_text(v))
    }
}

/// What a cell of type `t` with text `v` shows, given the table it links
/// to (if any) and the workspace tree that tables are looked up in.
pub open spec fn display_of(t: EDataType, v: Seq<char>, link: Option<Seq<char>>, tree: Seq<TreeItem>) -> DisplayModel {
    match t {
        EDataType::Percentage | EDataType::Permillage | EDataType::Permian | EDataType::Time =>
            DisplayModel::Numeric(t, v),
        EDataType::Date => DisplayModel::Text(date_display(v)),
        EDataType::Enum => DisplayModel::Text(match link {
            Some(l) => match linked_in(tree, l, ESheetType::Enum) {
                Some(tab) => enum_scan(tab.cells@, v, 0),
                None => v,
            },
            None => v,
        }),
        EDataType::Loc => DisplayModel::Text(match link {
            Some(l) => match linked_in(tree, l, ESheetType::Localize) {
                Some(tab) => loc_scan(tab, v, 0),
                None => v,
            },
            None => v,
        }),
        _ => DisplayModel::Text(v),
    }
}

/// A cell of a percentage, per-mille, per-ten-thousand or time column is
/// shown as a number of its own type read from the cell's text; every other
/// cell is shown as text.
pub proof fn lemma_scaled_cells_show_numbers(t: EDataType, v: Seq<char>, link: Option<Seq<char>>, tree: Seq<TreeItem>)
    ensures
        (t == EDataType::Percentage || t == EDataType::Permillage || t == EDataType::Permian || t == EDataType::Time)
            ==> display_of(t, v, link, tree) == DisplayModel::Numeric(t, v),
        !(t == EDataType::Percentage || t == EDataType::Permillage || t == EDataType::Permian || t == EDataType::Time)
            ==> display_of(t, v, link, tree) is Text,
{
}

/// A row shown as its plain texts.
pub open spec fn plain_row(row: Seq<CellData>) -> Seq<DisplayModel> {
    row.map_values(|c: CellData| DisplayModel::Text(c.value@))
}

/// The declared type of column `c` of a normal table (`string` when the
/// table has fewer rows than header rows or the column declares none).
pub open spec fn normal_col_type(g: GableData, c: int) -> EDataType {
    if g.heads@.len() + g.cells@.len() >= TABLE_NORMAL_ROW_TOTAL
        && cell_at(g.heads@, TABLE_NORMAL_ROW_TYPE as int, c) is Some {
        data_type_of(text_at(g.heads@, TABLE_NORMAL_ROW_TYPE as int, c))
    } else {
        EDataType::String
    }
}

/// The table that column `c` of a normal table links to: its non-empty link
/// cell, for an enum or localisation column.
pub open spec fn normal_col_link(g: GableData, c: int) -> Option<Seq<char>> {
    let t = normal_col_type(g, c);
    if (t == EDataType::Enum || t == EDataType::Loc) && lawful_at(g.heads@, TABLE_NORMAL_ROW_LINK as int, c) {
        Some(text_at(g.heads@, TABLE_NORMAL_ROW_LINK as int, c))
    } else {
        None
    }
}

/// The declared type of a key-value row (`string` when it declares none).
pub open spec fn kv_row_type(row: Seq<CellData>) -> EDataType {
    if TABLE_KV_COL_TYPE < row.len() {
        data_type_of(row[TABLE_KV_COL_TYPE as int].value@)
    } else {
        EDataType::String
    }
}

/// The table a key-value row links to: its link cell, for an enum or
/// localisation row.
pub open spec fn kv_row_link(row: Seq<CellData>) -> Option<Seq<char>> {
    let t = kv_row_type(row);
    if (t == EDataType::Enum || t == EDataType::Loc) && TABLE_KV_COL_LINK < row.len() {
        Some(row[TABLE_KV_COL_LINK as int].value@)
    } else {
        None
    }
}

/// The type that data cell `(r, c)` is shown as.
pub open spec fn shown_type(t: ESheetType, g: GableData, r: int, c: int) -> EDataType {
    match t {
        ESheetType::Normal => normal_col_type(g, c),
        ESheetType::KV => if c == TABLE_KV_COL_VALUE { kv_row_type(g.cells@[r]@) } else { EDataType::String },
        _ => EDataType::String,
    }
}

/// The table that data cell `(r, c)` links to.
pub open spec fn shown_link(t: ESheetType, g: GableData, r: int, c: int) -> Option<Seq<char>> {
    match t {
        ESheetType::Normal => normal_col_link(g, c),
        ESheetType::KV => kv_row_link(g.cells@[r]@),
        _ => None,
    }
}

/// What data row `r` shows.
pub open spec fn data_row(t: ESheetType, g: GableData, tree: Seq<TreeItem>, r: int) -> Seq<DisplayModel> {
    Seq::new(g.cells@[r]@.len(), |c: int| display_of(shown_type(t, g, r, c), g.cells@[r]@[c].value@, shown_link(t, g, r, c), tree))
}

/// The number of header rows of a table kind.
pub open spec fn header_rows(t: ESheetType) -> nat {
    match t {
        ESheetType::Normal => TABLE_NORMAL_ROW_TOTAL as nat,
        ESheetType::Localize => TABLE_LOCALIZE_ROW_TOTAL as nat,
        ESheetType::KV => TABLE_KV_ROW_TOTAL as nat,
        ESheetType::Enum => TABLE_ENUM_ROW_TOTAL as nat,
    }
}

/// The first data row that is not shown over a header row.
pub open spec fn first_appended(t: ESheetType, g: GableData) -> int {
    let h = g.heads@.len() as int;
    let total = header_rows(t) as int;
    if h <= total { 0 } else if h - total < g.cells@.len() { h - total } else { g.cells@.len() as int }
}

/// The rows a preview shows, by row number: header row `k` at `k`, data row
/// `r` at `r` plus the number of header rows, a data row replacing a header
/// row at the same number.
pub open spec fn preview_rows(t: ESheetType, g: GableData, tree: Seq<TreeItem>) -> Seq<(int, Seq<DisplayModel>)> {
    let h = g.heads@.len() as int;
    let total = header_rows(t) as int;
    let first = first_appended(t, g);
    Seq::new(h as nat, |k: int| (k, if k >= total && k - total < g.cells@.len() {
        data_row(t, g, tree, k - total)
    } else {
        plain_row(g.heads@[k]@)
    })) + Seq::new((g.cells@.len() - first) as nat, |j: int| (total + first + j, data_row(t, g, tree, first + j)))
}

/// Every date cell of the sheet holds a number of seconds within the range
/// of `chrono`'s dates.
pub open spec fn dates_in_range(t: ESheetType, g: GableData) -> bool {
    forall|r: int, c: int| 0 <= r < g.cells@.len() && 0 <= c < g.cells@[r]@.len()
        && #[trigger] shown_type(t, g, r, c) == EDataType::Date
        ==> date_seconds_in_range(g.cells@[r]@[c].value@)
}

/// A sheet the preview can show: its rows can be counted and its dates lie
/// within `chrono`'s range.
pub open spec fn displayable(t: ESheetType, g: GableData) -> bool {
    g.heads@.len() + g.cells@.len() + header_rows(t) <= usize::MAX && dates_in_range(t, g)
}

/// The spreadsheet name of the 1-based column `n`.
pub fn column_index_to_name(n: usize) -> (s: String)
    ensures
        s@ == column_name(n as nat),
{
    let mut letters: Vec<char> = Vec::new();
    let mut m: usize = n;
    while m > 0
        invariant
            column_name(n as nat) == column_name(m as nat) + letters@,
        decreases m,
    {
        let d: u8 = ((m - 1) % 26) as u8;
        let c: char = (65u8 + d) as char;
        assert(c == column_letter(d as nat));
        let ghost before = letters@;
        letters.insert(0, c);
        assert(column_name(m as nat) == column_name(((m - 1) / 26) as nat).push(c));
        assert(column_name(n as nat) =~= column_name(((m - 1) / 26) as nat) + letters@);
        m = (m - 1) / 26;
    }
    assert(column_name(0) =~= Seq::<char>::empty());
    assert(column_name(n as nat) =~= letters@);
    string_of(letters.as_slice())
}

/// The comment of the first enum row whose value is `v`, as `enum_scan`.
fn enum_value_text(rows: &Vec<Vec<CellData>>, v: &str) -> (s: String)
    ensures
        s@ == enum_scan(rows@, v@, 0),
{
    let mut i: usize = 0;
    while i < rows.len()
        invariant
            i <= rows@.len(),
            enum_scan(rows@, v@, 0) == enum_scan(rows@, v@, i as int),
        decreases rows.len() - i,
    {
        if let Some(x) = cell_ref(rows, i, TABLE_ENUM_COL_VALUE) {
            if text_equal(x.value.as_str(), v) {
                return match cell_ref(rows, i, TABLE_ENUM_COL_DESC) {
                    Some(d) => d.value.clone(),
                    None => String::from_str(v),
                };
            }
        }
        i = i + 1;
    }
    String::from_str(v)
}

/// The column of the last field-name cell that contains `mark`, as
/// `loc_column`.
fn marked_column(t: &GableData, mark: &str) -> (c: usize)
    ensures
        c as int == loc_column(*t, mark@),
{
    if TABLE_LOCALIZE_ROW_FIELD >= t.heads.len() {
        return 0;
    }
    let row = &t.heads[TABLE_LOCALIZE_ROW_FIELD];
    let m = chars_of(mark);
    let mut found: usize = 0;
    let mut i: usize = 0;
    while i < row.len()
        invariant
            i <= row@.len(),
            m@ == mark@,
            found as int == last_marked(row@, mark@, i as nat),
        decreases row.len() - i,
    {
        let v = chars_of(row[i].value.as_str());
        if crate::common::text::contains(v.as_slice(), m.as_slice()) {
            found = i;
        }
        i = i + 1;
    }
    found
}

/// The shown text of the first localisation row whose key is `v`, as
/// `loc_scan`.
fn loc_value_text(t: &GableData, v: &str) -> (s: String)
    ensures
        s@ == loc_scan(*t, v@, 0),
{
    let key_index = marked_column(t, "*");
    let value_index = marked_column(t, "#");
    let rows = &t.cells;
    let mut i: usize = 0;
    while i < rows.len()
        invariant
            i <= rows@.len(),
            rows@ == t.cells@,
            key_index as int == loc_column(*t, "*"@),
            value_index as int == loc_column(*t, "#"@),
            loc_scan(*t, v@, 0) == loc_scan(*t, v@, i as int),
        decreases rows.len() - i,
    {
        if let Some(x) = cell_ref(rows, i, key_index) {
            if text_equal(x.value.as_str(), v) {
                return match cell_ref(rows, i, value_index) {
                    Some(d) => d.value.clone(),
                    None => String::from_str(v),
                };
            }
        }
        i = i + 1;
    }
    String::from_str(v)
}

impl OpenedGableData {
    /// This is the preview of sheet `g` of kind `t`: its row and column
    /// counts, the names of its columns and its shown rows.
    pub open spec fn is_preview_of(&self, t: ESheetType, g: GableData, tree: Seq<TreeItem>) -> bool {
        &&& self.max_row == g.heads@.len() + g.cells@.len()
        &&& self.max_col == g.max_col()
        &&& self.column_headers@.len() == self.max_col
        &&& forall|i: int| 0 <= i < self.max_col ==> (#[trigger] self.column_headers@[i])@ == column_name((i + 1) as nat)
        &&& items_model(self.items@) == preview_rows(t, g, tree)
    }

    /// This is the preview of a sheet that could not be read: nothing.
    pub open spec fn is_blank(&self) -> bool {
        self.max_row == 0 && self.max_col == 0 && self.column_headers@.len() == 0 && self.items@.len() == 0
    }

    /// What a cell of type `data_type` shows, given the table it links to
    /// and the workspace tree that tables are looked up in.
    pub fn pairs_value(data_type: EDataType, cell: &CellData, link: Option<&String>, tree: &[TreeItem]) -> (d: DisplayValue)
        requires
            data_type == EDataType::Date ==> date_seconds_in_range(cell.value@),
        ensures
            d.model() == display_of(data_type, cell.value@, match link { Some(l) => Some(l@), None => None }, tree@),
            (data_type == EDataType::Percentage || data_type == EDataType::Permillage
                || data_type == EDataType::Permian || data_type == EDataType::Time)
                ==> d.model() == DisplayModel::Numeric(data_type, cell.value@),
            !(data_type == EDataType::Percentage || data_type == EDataType::Permillage
                || data_type == EDataType::Permian || data_type == EDataType::Time) ==> d is Text,
    {
        proof {
            lemma_scaled_cells_show_numbers(data_type, cell.value@, match link { Some(l) => Some(l@), None => None }, tree@);
        }
        match data_type {
            EDataType::Percentage | EDataType::Permillage | EDataType::Permian | EDataType::Time => {
                DisplayValue::Numeric(data_type, cell.value.clone())
            },
            EDataType::Date => DisplayValue::Text(cell.convert_date()),
            EDataType::Enum => {
                match link {
                    Some(l) => match find_linked_table(tree, l.as_str(), ESheetType::Enum) {
                        Some(tab) => DisplayValue::Text(enum_value_text(&tab.cells, cell.value.as_str())),
                        None => DisplayValue::Text(cell.value.clone()),
                    },
                    None => DisplayValue::Text(cell.value.clone()),
                }
            },
            EDataType::Loc => {
                match link {
                    Some(l) => match find_linked_table(tree, l.as_str(), ESheetType::Localize) {
                        Some(tab) => DisplayValue::Text(loc_value_text(tab, cell.value.as_str())),
                        None => DisplayValue::Text(cell.value.clone()),
                    },
                    None => DisplayValue::Text(cell.value.clone()),
                }
            },
            _ => DisplayValue::Text(cell.value.clone()),
        }
    }

    /// The spreadsheet names of the columns 1 to `col`.
    fn pairs_headers(col: usize) -> (v: Vec<String>)
        ensures
            v@.len() == col,
            forall|i: int| 0 <= i < col ==> (#[trigger] v@[i])@ == column_name((i + 1) as nat),
    {
        let mut header: Vec<String> = Vec::new();
        let mut i: usize = 0;
        while i < col
            invariant
                i <= col,
                header@.len() == i,
                forall|k: int| 0 <= k < i ==> (#[trigger] header@[k])@ == column_name((k + 1) as nat),
            decreases col - i,
        {
            header.push(column_index_to_name(i + 1));
            i = i + 1;
        }
        header
    }

    fn normal_col_type_of(g: &GableData, c: usize) -> (t: EDataType)
        requires
            g.heads@.len() + g.cells@.len() <= usize::MAX,
        ensures
            t == normal_col_type(*g, c as int),
    {
        if g.heads.len() + g.cells.len() >= TABLE_NORMAL_ROW_TOTAL {
            match cell_ref(&g.heads, TABLE_NORMAL_ROW_TYPE, c) {
                Some(x) => EDataType::convert(x.value.as_str()),
                None => EDataType::String,
            }
        } else {
            EDataType::String
        }
    }

    fn plain(row: &Vec<CellData>) -> (v: Vec<DisplayValue>)
        ensures
            row_model(v@) == plain_row(row@),
    {
        let mut v: Vec<DisplayValue> = Vec::new();
        let mut c: usize = 0;
        while c < row.len()
            invariant
                c <= row@.len(),
                row_model(v@) =~= plain_row(row@.take(c as int)),
            decreases row.len() - c,
        {
            let ghost before = v@;
            v.push(DisplayValue::Text(row[c].value.clone()));
            assert(row_model(v@) =~= row_model(before).push(DisplayModel::Text(row@[c as int].value@)));
            assert(plain_row(row@.take(c + 1)) =~= plain_row(row@.take(c as int)).push(DisplayModel::Text(row@[c as int].value@)));
            c = c + 1;
        }
        assert(row@.take(c as int) =~= row@);
        v
    }

    fn shown_row(t: ESheetType, g: &GableData, tree: &[TreeItem], r: usize) -> (v: Vec<DisplayValue>)
        requires
            r < g.cells@.len(),
            displayable(t, *g),
        ensures
            row_model(v@) == data_row(t, *g, tree@, r as int),
    {
        let row = &g.cells[r];
        let kv_type = if t == ESheetType::KV && TABLE_KV_COL_TYPE < row.len() {
            EDataType::convert(row[TABLE_KV_COL_TYPE].value.as_str())
        } else {
            EDataType::String
        };
        let mut v: Vec<DisplayValue> = Vec::new();
        let mut c: usize = 0;
        while c < row.len()
            invariant
                c <= row@.len(),
                r < g.cells@.len(),
                *row == g.cells@[r as int],
                displayable(t, *g),
                t == ESheetType::KV ==> kv_type == kv_row_type(row@),
                row_model(v@) =~= data_row(t, *g, tree@, r as int).take(c as int),
            decreases row.len() - c,
        {
            let data_type = match t {
                ESheetType::Normal => Self::normal_col_type_of(g, c),
                ESheetType::KV => if c == TABLE_KV_COL_VALUE { kv_type } else { EDataType::String },
                _ => EDataType::String,
            };
            assert(data_type == shown_type(t, *g, r as int, c as int));
            let link: Option<&String> = match t {
                ESheetType::Normal => {
                    if (data_type == EDataType::Enum || data_type == EDataType::Loc)
                        && lawful_cell(&g.heads, TABLE_NORMAL_ROW_LINK, c) {
                        Some(&g.heads[TABLE_NORMAL_ROW_LINK][c].value)
                    } else {
                        None
                    }
                },
                ESheetType::KV => {
                    if (kv_type == EDataType::Enum || kv_type == EDataType::Loc) && TABLE_KV_COL_LINK < row.len() {
                        Some(&row[TABLE_KV_COL_LINK].value)
                    } else {
                        None
                    }
                },
                _ => None,
            };
            assert((match link { Some(l) => Some(l@), None => None }) == shown_link(t, *g, r as int, c as int));
            let d = Self::pairs_value(data_type, &row[c], link, tree);
            let ghost before = v@;
            v.push(d);
            assert(row_model(v@) =~= row_model(before).push(d.model()));
            assert(data_row(t, *g, tree@, r as int).take(c + 1) =~= data_row(t, *g, tree@, r as int).take(c as int).push(d.model()));
            c = c + 1;
        }
        assert(data_row(t, *g, tree@, r as int).take(c as int) =~= data_row(t, *g, tree@, r as int));
        v
    }

    fn pairs_items(t: ESheetType, g: &GableData, tree: &[TreeItem]) -> (v: Vec<(usize, Vec<DisplayValue>)>)
        requires
            displayable(t, *g),
        ensures
            items_model(v@) == preview_rows(t, *g, tree@),
    {
        let total: usize = match t {
            ESheetType::Normal => TABLE_NORMAL_ROW_TOTAL,
            ESheetType::Localize => TABLE_LOCALIZE_ROW_TOTAL,
            ESheetType::KV => TABLE_KV_ROW_TOTAL,
            ESheetType::Enum => TABLE_ENUM_ROW_TOTAL,
        };
        let h = g.heads.len();
        let n = g.cells.len();
        let ghost expected = preview_rows(t, *g, tree@);
        let mut items: Vec<(usize, Vec<DisplayValue>)> = Vec::new();
        let mut k: usize = 0;
        while k < h
            invariant
                k <= h,
                h == g.heads@.len(),
                n == g.cells@.len(),
                total == header_rows(t),
                displayable(t, *g),
                expected == preview_rows(t, *g, tree@),
                items_model(items@) =~= expected.take(k as int),
            decreases h - k,
        {
            let row = if k >= total && k - total < n {
                Self::shown_row(t, g, tree, k - total)
            } else {
                Self::plain(&g.heads[k])
            };
            let ghost before = items@;
            let ghost rm = row_model(row@);
            items.push((k, row));
            assert(items_model(items@) =~= items_model(before).push((k as int, rm)));
            assert(expected[k as int] == (k as int, rm));
            assert(expected.take(k + 1) =~= expected.take(k as int).push(expected[k as int]));
            k = k + 1;
        }
        let first: usize = if h <= total { 0 } else if h - total < n { h - total } else { n };
        assert(first as int == first_appended(t, *g));
        let mut r: usize = first;
        while r < n
            invariant
                first <= r <= n,
                first as int == first_appended(t, *g),
                h == g.heads@.len(),
                n == g.cells@.len(),
                total == header_rows(t),
                displayable(t, *g),
                expected == preview_rows(t, *g, tree@),
                items_model(items@) =~= expected.take(h + (r - first)),
            decreases n - r,
        {
            let row = Self::shown_row(t, g, tree, r);
            let ghost before = items@;
            let ghost rm = row_model(row@);
            items.push((total + r, row));
            assert(items_model(items@) =~= items_model(before).push(((total + r) as int, rm)));
            assert(expected[h + (r - first)] == ((total + r) as int, rm));
            assert(expected.take(h + (r - first) + 1) =~= expected.take(h + (r - first)).push(expected[h + (r - first)]));
            r = r + 1;
        }
        assert(expected.take(h + (n - first)) =~= expected);
        items
    }

    /// Whether a sheet of kind `t` can be previewed (see `displayable`):
    /// its rows can be counted and every date cell lies within the range of
    /// `chrono`'s dates.
    pub fn is_displayable(t: ESheetType, g: &GableData) -> (r: bool)
        ensures
            r == displayable(t, *g),
    {
        let total: usize = match t {
            ESheetType::Normal => TABLE_NORMAL_ROW_TOTAL,
            ESheetType::Localize => TABLE_LOCALIZE_ROW_TOTAL,
            ESheetType::KV => TABLE_KV_ROW_TOTAL,
            ESheetType::Enum => TABLE_ENUM_ROW_TOTAL,
        };
        let h = g.heads.len();
        let n = g.cells.len();
        if h > usize::MAX - n || h + n > usize::MAX - total {
            return false;
        }
        let mut r: usize = 0;
        while r < n
            invariant
                r <= n,
                n == g.cells@.len(),
                h == g.heads@.len(),
                h + n + header_rows(t) <= usize::MAX,
                forall|i: int, c: int| 0 <= i < r && 0 <= c < g.cells@[i]@.len()
                    && #[trigger] shown_type(t, *g, i, c) == EDataType::Date
                    ==> date_seconds_in_range(g.cells@[i]@[c].value@),
            decreases n - r,
        {
            let row = &g.cells[r];
            let kv_type = if t == ESheetType::KV && TABLE_KV_COL_TYPE < row.len() {
                EDataType::convert(row[TABLE_KV_COL_TYPE].value.as_str())
            } else {
                EDataType::String
            };
            let mut c: usize = 0;
            while c < row.len()
                invariant
                    c <= row@.len(),
                    r < n,
                    n == g.cells@.len(),
                    h == g.heads@.len(),
                    h + n + header_rows(t) <= usize::MAX,
                    *row == g.cells@[r as int],
                    t == ESheetType::KV ==> kv_type == kv_row_type(row@),
                    forall|i: int, k: int| 0 <= i < r && 0 <= k < g.cells@[i]@.len()
                        && #[trigger] shown_type(t, *g, i, k) == EDataType::Date
                        ==> date_seconds_in_range(g.cells@[i]@[k].value@),
                    forall|k: int| 0 <= k < c && #[trigger] shown_type(t, *g, r as int, k) == EDataType::Date
                        ==> date_seconds_in_range(g.cells@[r as int]@[k].value@),
                decreases row.len() - c,
            {
                let data_type = match t {
                    ESheetType::Normal => Self::normal_col_type_of(g, c),
                    ESheetType::KV => if c == TABLE_KV_COL_VALUE { kv_type } else { EDataType::String },
                    _ => EDataType::String,
                };
                assert(data_type == shown_type(t, *g, r as int, c as int));
                if data_type == EDataType::Date && !row[c].date_fits() {
                    return false;
                }
                c = c + 1;
            }
            r = r + 1;
        }
        true
    }

    /// The preview of a sheet of the given kind: its row and column counts,
    /// its column names and its shown rows. Enum and localisation cells are
    /// looked up in `tree`, the workspace tree.
    pub fn new(sheet_type: ESheetType, data: &GableData, tree: &[TreeItem]) -> (o: Self)
        requires
            displayable(sheet_type, *data),
        ensures
            o.is_preview_of(sheet_type, *data, tree@),
    {
        let max_row = data.get_max_row();
        let max_col = data.get_max_col();
        OpenedGableData {
            max_row,
            max_col,
            column_headers: Self::pairs_headers(max_col),
            items: Self::pairs_items(sheet_type, data, tree),
        }
    }
}

} // verus!
