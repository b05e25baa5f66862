//! A sheet with its kind, and what is extracted from it: field
//! descriptions for code generation and rows for data export.
use crate::common::constant::{
    TABLE_KV_COL_VALUE, TABLE_LOCALIZE_ROW_TOTAL, TABLE_NORMAL_ROW_KEYWORD, TABLE_NORMAL_ROW_TOTAL,
    TABLE_ENUM_COL_DESC, TABLE_ENUM_COL_FIELD, TABLE_ENUM_COL_VALUE, TABLE_KV_COL_DESC,
    TABLE_KV_COL_FIELD, TABLE_KV_COL_KEYWORD, TABLE_KV_COL_LINK, TABLE_KV_COL_TYPE,
    TABLE_LOCALIZE_ROW_DESC, TABLE_LOCALIZE_ROW_FIELD,
    TABLE_NORMAL_ROW_DESC, TABLE_NORMAL_ROW_FIELD, TABLE_NORMAL_ROW_LINK, TABLE_NORMAL_ROW_TYPE,
};
use crate::common::text::{chars_of, has_infix, replace_all, replace_chars, string_of};
use crate::common::text::{lowercased, trimmed};
use crate::gui::datas::cell_data::{bool_value, int_of_text, int_parts, split_parts, true_word, CellData};
use crate::gui::datas::edata_type::{data_type_of, EDataType};
use crate::gui::datas::esheet_type::ESheetType;
use crate::gui::datas::gable_data::{
    cell_contains, cell_ref, lawful_at, lawful_cell, lemma_valid_heads_exact, text_at, GableData,
};
use vstd::prelude::*;

verus! {

/// What code generation needs to know of one field.
pub struct FieldInfo {
    /// The field is a primary key.
    pub is_key: bool,
    /// The field's name.
    pub field_name: String,
    /// The field's data type.
    pub field_type: EDataType,
    /// The field's description.
    pub field_desc: String,
    /// The enum or localisation table the field links to.
    pub field_link: String,
    /// The field's ordinal (for enum members, the member's value).
    pub field_index: i32,
}

/// The mathematical content of a `FieldInfo`.
pub struct FieldModel {
    pub is_key: bool,
    pub name: Seq<char>,
    pub field_type: EDataType,
    pub desc: Seq<char>,
    pub link: Seq<char>,
    pub index: int,
}

impl FieldInfo {
    /// The field's content as plain values.
    pub open spec fn model(&self) -> FieldModel {
        FieldModel {
            is_key: self.is_key,
            name: self.field_name@,
            field_type: self.field_type,
            desc: self.field_desc@,
            link: self.field_link@,
            index: self.field_index as int,
        }
    }
}

/// The models of a list of fields.
pub open spec fn field_models(v: Seq<FieldInfo>) -> Seq<FieldModel> {
    v.map_values(|f: FieldInfo| f.model())
}

/// A sheet loaded from disk.
#[derive(Debug, Clone)]
pub struct TreeData {
    /// The kind of table.
    pub gable_type: ESheetType,
    /// The sheet's name.
    pub file_name: String,
    /// The sheet's cells.
    pub content: GableData,
}

/// A field name with every `*` removed.
pub open spec fn unstarred(s: Seq<char>) -> Seq<char> {
    replace_all(s, "*"@, ""@)
}

/// The field that header column `c` of a normal table describes.
pub open spec fn normal_field(g: GableData, c: usize, is_key: bool, index: int) -> FieldModel {
    let name = text_at(g.heads@, TABLE_NORMAL_ROW_FIELD as int, c as int);
    FieldModel {
        is_key,
        name: if is_key { unstarred(name) } else { name },
        field_type: data_type_of(text_at(g.heads@, TABLE_NORMAL_ROW_TYPE as int, c as int)),
        desc: text_at(g.heads@, TABLE_NORMAL_ROW_DESC as int, c as int),
        link: text_at(g.heads@, TABLE_NORMAL_ROW_LINK as int, c as int),
        index,
    }
}

/// The field that header column `c` of a localisation table describes:
/// always text, never linked.
pub open spec fn localize_field(g: GableData, c: usize, is_key: bool, index: int) -> FieldModel {
    let name = text_at(g.heads@, TABLE_LOCALIZE_ROW_FIELD as int, c as int);
    FieldModel {
        is_key,
        name: if is_key { unstarred(name) } else { name },
        field_type: EDataType::String,
        desc: text_at(g.heads@, TABLE_LOCALIZE_ROW_DESC as int, c as int),
        link: Seq::empty(),
        index,
    }
}

/// Fields of the normal table for a keyword: the key columns numbered from
/// 1, then the other columns numbered on; nothing unless both kinds of
/// column exist.
pub open spec fn normal_fields_of(g: GableData, keyword: Seq<char>) -> Seq<FieldModel> {
    let main = g.valid_heads(keyword, true);
    let others = g.valid_heads(keyword, false);
    if main.len() == 0 || others.len() == 0 {
        Seq::empty()
    } else {
        Seq::new(main.len(), |k: int| normal_field(g, main[k], true, k + 1))
            + Seq::new(others.len(), |k: int| normal_field(g, others[k], false, main.len() + k + 1))
    }
}

/// Fields of the localisation table for a keyword, numbered as in
/// `normal_fields_of`.
pub open spec fn localize_fields_of(g: GableData, keyword: Seq<char>) -> Seq<FieldModel> {
    let main = g.valid_heads(keyword, true);
    let others = g.valid_heads(keyword, false);
    if main.len() == 0 || others.len() == 0 {
        Seq::empty()
    } else {
        Seq::new(main.len(), |k: int| localize_field(g, main[k], true, k + 1))
            + Seq::new(others.len(), |k: int| localize_field(g, others[k], false, main.len() + k + 1))
    }
}

/// Row `r` of a key-value table declares a field for the keyword: its key,
/// type and keyword cells are not empty and the keyword cell contains
/// `keyword`.
pub open spec fn kv_row_declares(rows: Seq<Vec<CellData>>, r: int, keyword: Seq<char>) -> bool {
    &&& lawful_at(rows, r, TABLE_KV_COL_FIELD as int)
    &&& lawful_at(rows, r, TABLE_KV_COL_TYPE as int)
    &&& lawful_at(rows, r, TABLE_KV_COL_KEYWORD as int)
    &&& has_infix(text_at(rows, r, TABLE_KV_COL_KEYWORD as int), keyword)
}

/// The field that row `r` of a key-value table declares.
pub open spec fn kv_field(rows: Seq<Vec<CellData>>, r: int, index: int) -> FieldModel {
    FieldModel {
        is_key: false,
        name: unstarred(text_at(rows, r, TABLE_KV_COL_FIELD as int)),
        field_type: data_type_of(text_at(rows, r, TABLE_KV_COL_TYPE as int)),
        desc: text_at(rows, r, TABLE_KV_COL_DESC as int),
        link: text_at(rows, r, TABLE_KV_COL_LINK as int),
        index,
    }
}

/// The fields declared by the first `n` rows of a key-value table, numbered
/// from 1.
pub open spec fn kv_fields_upto(rows: Seq<Vec<CellData>>, keyword: Seq<char>, n: nat) -> Seq<FieldModel>
    decreases n,
{
    if n == 0 {
        Seq::empty()
    } else {
        let prev = kv_fields_upto(rows, keyword, (n - 1) as nat);
        if kv_row_declares(rows, n - 1, keyword) {
            prev.push(kv_field(rows, n - 1, (prev.len() + 1) as int))
        } else {
            prev
        }
    }
}

/// Row `r` of an enum table declares a member: its name and value cells
/// are not empty.
pub open spec fn enum_row_declares(rows: Seq<Vec<CellData>>, r: int) -> bool {
    lawful_at(rows, r, TABLE_ENUM_COL_FIELD as int) && lawful_at(rows, r, TABLE_ENUM_COL_VALUE as int)
}

/// The member that row `r` of an enum table declares; its ordinal is its
/// value as an `i64` truncated to 32 bits.
pub open spec fn enum_field(rows: Seq<Vec<CellData>>, r: int) -> FieldModel {
    FieldModel {
        is_key: false,
        name: text_at(rows, r, TABLE_ENUM_COL_FIELD as int),
        field_type: EDataType::String,
        desc: text_at(rows, r, TABLE_ENUM_COL_DESC as int),
        link: Seq::empty(),
        index: (int_of_text(text_at(rows, r, TABLE_ENUM_COL_VALUE as int)) as i32) as int,
    }
}

/// The members declared by the first `n` rows of an enum table.
pub open spec fn enum_fields_upto(rows: Seq<Vec<CellData>>, n: nat) -> Seq<FieldModel>
    decreases n,
{
    if n == 0 {
        Seq::empty()
    } else {
        let prev = enum_fields_upto(rows, (n - 1) as nat);
        if enum_row_declares(rows, n - 1) {
            prev.push(enum_field(rows, n - 1))
        } else {
            prev
        }
    }
}

/// The fields that `to_fields` extracts from a sheet for a keyword.
pub open spec fn fields_of(t: ESheetType, g: GableData, keyword: Seq<char>) -> Seq<FieldModel> {
    match t {
        ESheetType::Normal => normal_fields_of(g, keyword),
        ESheetType::Localize => localize_fields_of(g, keyword),
        ESheetType::KV => kv_fields_upto(g.cells@, keyword, g.cells@.len()),
        ESheetType::Enum => enum_fields_upto(g.cells@, g.cells@.len()),
    }
}

/// The header column that the `i`-th field of a normal or localisation
/// table comes from: the key columns in ascending order, then the others.
pub open spec fn field_column(g: GableData, keyword: Seq<char>, i: int) -> int {
    let main = g.valid_heads(keyword, true);
    let others = g.valid_heads(keyword, false);
    if i < main.len() { main[i] as int } else { others[i - main.len()] as int }
}

/// Each field of a normal table describes its header column: its link is
/// the text of the link header row there, its type the type that the type
/// header row names, its description the text of the description row; the
/// key columns come first, numbered from 1. There is one field per valid
/// column when the table has key and other columns, none otherwise.
pub proof fn lemma_normal_fields_follow_header_rows(g: GableData, keyword: Seq<char>)
    ensures
        fields_of(ESheetType::Normal, g, keyword).len() == if g.valid_heads(keyword, true).len() == 0
            || g.valid_heads(keyword, false).len() == 0 {
            0
        } else {
            g.valid_heads(keyword, true).len() + g.valid_heads(keyword, false).len()
        },
        forall|i: int| 0 <= i < fields_of(ESheetType::Normal, g, keyword).len() ==> {
            let f = #[trigger] fields_of(ESheetType::Normal, g, keyword)[i];
            let c = field_column(g, keyword, i);
            &&& f.link == text_at(g.heads@, TABLE_NORMAL_ROW_LINK as int, c)
            &&& f.field_type == data_type_of(text_at(g.heads@, TABLE_NORMAL_ROW_TYPE as int, c))
            &&& f.desc == text_at(g.heads@, TABLE_NORMAL_ROW_DESC as int, c)
            &&& f.is_key == (i < g.valid_heads(keyword, true).len())
            &&& f.index == i + 1
        },
{
}

/// Each field of a localisation table is text and links to nothing.
pub proof fn lemma_localize_fields_are_plain_text(g: GableData, keyword: Seq<char>)
    ensures
        forall|i: int| 0 <= i < fields_of(ESheetType::Localize, g, keyword).len() ==> {
            let f = #[trigger] fields_of(ESheetType::Localize, g, keyword)[i];
            &&& f.field_type == EDataType::String
            &&& f.link.len() == 0
            &&& f.desc == text_at(g.heads@, TABLE_LOCALIZE_ROW_DESC as int, field_column(g, keyword, i))
        },
{
}

/// `f` describes one of the first `n` rows of a key-value table that declare
/// a field for `keyword`: its name is the row's key without `*`, its type
/// the one the row's type cell names, its link and description the texts of
/// the row's link and description cells; it is not a key.
pub open spec fn field_of_kv_row(rows: Seq<Vec<CellData>>, keyword: Seq<char>, n: int, f: FieldModel) -> bool {
    exists|r: int| 0 <= r < n && #[trigger] kv_row_declares(rows, r, keyword) && {
        &&& f.name == unstarred(text_at(rows, r, TABLE_KV_COL_FIELD as int))
        &&& f.field_type == data_type_of(text_at(rows, r, TABLE_KV_COL_TYPE as int))
        &&& f.link == text_at(rows, r, TABLE_KV_COL_LINK as int)
        &&& f.desc == text_at(rows, r, TABLE_KV_COL_DESC as int)
        &&& !f.is_key
    }
}

/// Each field of a key-value table comes from a row that declares it, with
/// that row's name, type, link and description, and the fields are
/// numbered 1, 2, ... in order.
pub proof fn lemma_kv_fields_follow_rows(rows: Seq<Vec<CellData>>, keyword: Seq<char>, n: nat)
    ensures
        forall|i: int| 0 <= i < kv_fields_upto(rows, keyword, n).len() ==> {
            let f = #[trigger] kv_fields_upto(rows, keyword, n)[i];
            field_of_kv_row(rows, keyword, n as int, f) && f.index == i + 1
        },
    decreases n,
{
    if n > 0 {
        let m = (n - 1) as nat;
        lemma_kv_fields_follow_rows(rows, keyword, m);
        let prev = kv_fields_upto(rows, keyword, m);
        let cur = kv_fields_upto(rows, keyword, n);
        assert forall|i: int| 0 <= i < cur.len() implies field_of_kv_row(rows, keyword, n as int, #[trigger] cur[i])
            && cur[i].index == i + 1 by {
            if i < prev.len() {
                assert(cur[i] == prev[i]);
                assert(field_of_kv_row(rows, keyword, m as int, prev[i]));
                let r = choose|r: int| 0 <= r < m && #[trigger] kv_row_declares(rows, r, keyword) && {
                    &&& prev[i].name == unstarred(text_at(rows, r, TABLE_KV_COL_FIELD as int))
                    &&& prev[i].field_type == data_type_of(text_at(rows, r, TABLE_KV_COL_TYPE as int))
                    &&& prev[i].link == text_at(rows, r, TABLE_KV_COL_LINK as int)
                    &&& prev[i].desc == text_at(rows, r, TABLE_KV_COL_DESC as int)
                    &&& !prev[i].is_key
                };
                assert(0 <= r < n && kv_row_declares(rows, r, keyword));
            } else {
                if !kv_row_declares(rows, m as int, keyword) {
                    assert(cur == prev);
                }
                assert(kv_row_declares(rows, m as int, keyword));
                assert(i == prev.len());
                assert(cur[i] == kv_field(rows, m as int, (prev.len() + 1) as int));
            }
        }
    }
}

/// `f` describes one of the first `n` rows of an enum table that declare a
/// member: its name is the row's name cell, its number the row's value read
/// as an integer (kept to 32 bits), its description the row's description;
/// it is text, links nowhere and is not a key.
pub open spec fn field_of_enum_row(rows: Seq<Vec<CellData>>, n: int, f: FieldModel) -> bool {
    exists|r: int| 0 <= r < n && #[trigger] enum_row_declares(rows, r) && {
        &&& f.name == text_at(rows, r, TABLE_ENUM_COL_FIELD as int)
        &&& f.index == (int_of_text(text_at(rows, r, TABLE_ENUM_COL_VALUE as int)) as i32) as int
        &&& f.desc == text_at(rows, r, TABLE_ENUM_COL_DESC as int)
        &&& f.field_type == EDataType::String
        &&& f.link.len() == 0
        &&& !f.is_key
    }
}

/// Each member of an enum table comes from a row that declares it.
pub proof fn lemma_enum_fields_follow_rows(rows: Seq<Vec<CellData>>, n: nat)
    ensures
        forall|i: int| 0 <= i < enum_fields_upto(rows, n).len()
            ==> field_of_enum_row(rows, n as int, #[trigger] enum_fields_upto(rows, n)[i]),
    decreases n,
{
    if n > 0 {
        let m = (n - 1) as nat;
        lemma_enum_fields_follow_rows(rows, m);
        let prev = enum_fields_upto(rows, m);
        let cur = enum_fields_upto(rows, n);
        assert forall|i: int| 0 <= i < cur.len() implies field_of_enum_row(rows, n as int, #[trigger] cur[i]) by {
            if i < prev.len() {
                assert(cur[i] == prev[i]);
                assert(field_of_enum_row(rows, m as int, prev[i]));
                let r = choose|r: int| 0 <= r < m && #[trigger] enum_row_declares(rows, r) && {
                    &&& prev[i].name == text_at(rows, r, TABLE_ENUM_COL_FIELD as int)
                    &&& prev[i].index == (int_of_text(text_at(rows, r, TABLE_ENUM_COL_VALUE as int)) as i32) as int
                    &&& prev[i].desc == text_at(rows, r, TABLE_ENUM_COL_DESC as int)
                    &&& prev[i].field_type == EDataType::String
                    &&& prev[i].link.len() == 0
                    &&& !prev[i].is_key
                };
                assert(0 <= r < n && enum_row_declares(rows, r));
            } else {
                if !enum_row_declares(rows, m as int) {
                    assert(cur == prev);
                }
                assert(enum_row_declares(rows, m as int));
                assert(i == prev.len());
                assert(cur[i] == enum_field(rows, m as int));
            }
        }
    }
}

/// The numbering of the fields that `to_fields` extracts stays within `i32`.
pub open spec fn fields_countable(t: ESheetType, g: GableData, keyword: Seq<char>) -> bool {
    match t {
        ESheetType::Normal | ESheetType::Localize =>
            g.valid_heads(keyword, true).len() + g.valid_heads(keyword, false).len() < i32::MAX,
        ESheetType::KV => kv_fields_upto(g.cells@, keyword, g.cells@.len()).len() < i32::MAX,
        ESheetType::Enum => true,
    }
}

/// The text of the cell at row `r`, column `c`, or the empty text.
pub fn text_or_empty(rows: &Vec<Vec<CellData>>, r: usize, c: usize) -> (s: String)
    ensures
        s@ == text_at(rows@, r as int, c as int),
{
    match cell_ref(rows, r, c) {
        Some(x) => x.value.clone(),
        None => String::new(),
    }
}

/// The text of the cell at row `r`, column `c` with every `*` removed, or
/// the empty text.
fn unstarred_text(rows: &Vec<Vec<CellData>>, r: usize, c: usize) -> (s: String)
    ensures
        s@ == unstarred(text_at(rows@, r as int, c as int)),
{
    let t = text_or_empty(rows, r, c);
    let chars = chars_of(t.as_str());
    let star = chars_of("*");
    let none: Vec<char> = Vec::new();
    proof {
        reveal_strlit("*");
        reveal_strlit("");
        assert(none@ =~= ""@);
    }
    let out = replace_chars(chars.as_slice(), star.as_slice(), none.as_slice());
    string_of(out.as_slice())
}

impl TreeData {
    /// The fields of the sheet for a keyword: for a normal or localisation
    /// table its valid header columns (key columns first), for a key-value
    /// table its declaring rows, for an enum table its members.
    pub fn to_fields(&self, keyword: &str) -> (v: Vec<FieldInfo>)
        requires
            fields_countable(self.gable_type, self.content, keyword@),
        ensures
            field_models(v@) == fields_of(self.gable_type, self.content, keyword@),
            self.gable_type == ESheetType::Normal ==> forall|i: int| 0 <= i < v@.len() ==> {
                let c = field_column(self.content, keyword@, i);
                &&& (#[trigger] v@[i]).field_link@ == text_at(self.content.heads@, TABLE_NORMAL_ROW_LINK as int, c)
                &&& v@[i].field_type == data_type_of(text_at(self.content.heads@, TABLE_NORMAL_ROW_TYPE as int, c))
                &&& v@[i].field_desc@ == text_at(self.content.heads@, TABLE_NORMAL_ROW_DESC as int, c)
            },
            self.gable_type == ESheetType::KV ==> forall|i: int| 0 <= i < v@.len()
                ==> field_of_kv_row(self.content.cells@, keyword@, self.content.cells@.len() as int, (#[trigger] v@[i]).model())
                    && v@[i].field_index == i + 1,
            self.gable_type == ESheetType::Enum ==> forall|i: int| 0 <= i < v@.len()
                ==> field_of_enum_row(self.content.cells@, self.content.cells@.len() as int, (#[trigger] v@[i]).model()),
    {
        proof {
            lemma_normal_fields_follow_header_rows(self.content, keyword@);
            lemma_kv_fields_follow_rows(self.content.cells@, keyword@, self.content.cells@.len());
            lemma_enum_fields_follow_rows(self.content.cells@, self.content.cells@.len());
        }
        let v = match self.gable_type {
            ESheetType::Normal => self.normal_fields(keyword),
            ESheetType::Localize => self.localize_fields(keyword),
            ESheetType::KV => self.kv_fields(keyword),
            ESheetType::Enum => self.enum_fields(),
        };
        assert forall|i: int| 0 <= i < v@.len() && self.gable_type == ESheetType::Normal implies {
            let c = field_column(self.content, keyword@, i);
            &&& (#[trigger] v@[i]).field_link@ == text_at(self.content.heads@, TABLE_NORMAL_ROW_LINK as int, c)
            &&& v@[i].field_type == data_type_of(text_at(self.content.heads@, TABLE_NORMAL_ROW_TYPE as int, c))
            &&& v@[i].field_desc@ == text_at(self.content.heads@, TABLE_NORMAL_ROW_DESC as int, c)
        } by {
            assert(field_models(v@)[i] == v@[i].model());
            assert(fields_of(self.gable_type, self.content, keyword@)[i] == v@[i].model());
        }
        assert forall|i: int| 0 <= i < v@.len() implies #[trigger] fields_of(self.gable_type, self.content, keyword@)[i]
            == v@[i].model() by {
            assert(field_models(v@)[i] == v@[i].model());
        }
        assert forall|i: int| 0 <= i < v@.len() && self.gable_type == ESheetType::KV implies
            field_of_kv_row(self.content.cells@, keyword@, self.content.cells@.len() as int, (#[trigger] v@[i]).model())
                && v@[i].field_index == i + 1 by {
            assert(field_models(v@)[i] == v@[i].model());
            assert(kv_fields_upto(self.content.cells@, keyword@, self.content.cells@.len())[i] == v@[i].model());
        }
        assert forall|i: int| 0 <= i < v@.len() && self.gable_type == ESheetType::Enum implies
            field_of_enum_row(self.content.cells@, self.content.cells@.len() as int, (#[trigger] v@[i]).model()) by {
            assert(field_models(v@)[i] == v@[i].model());
            assert(enum_fields_upto(self.content.cells@, self.content.cells@.len())[i] == v@[i].model());
        }
        v
    }

    fn header_fields(&self, keyword: &str, localize: bool) -> (v: Vec<FieldInfo>)
        requires
            self.content.valid_heads(keyword@, true).len() + self.content.valid_heads(keyword@, false).len() < i32::MAX,
        ensures
            field_models(v@) == if localize {
                localize_fields_of(self.content, keyword@)
            } else {
                normal_fields_of(self.content, keyword@)
            },
    {
        let g = &self.content;
        let (main, others) = g.get_valid_normal_heads(keyword);
        let ghost spec_fields = if localize {
            localize_fields_of(self.content, keyword@)
        } else {
            normal_fields_of(self.content, keyword@)
        };
        if main.len() == 0 || others.len() == 0 {
            let v: Vec<FieldInfo> = Vec::new();
            assert(field_models(v@) =~= spec_fields);
            return v;
        }
        let ghost gm = *g;
        let mut fields: Vec<FieldInfo> = Vec::new();
        let mut k: usize = 0;
        while k < main.len() + others.len()
            invariant
                gm == *g,
                main@ == gm.valid_heads(keyword@, true),
                others@ == gm.valid_heads(keyword@, false),
                main@.len() + others@.len() < i32::MAX,
                main@.len() > 0 && others@.len() > 0,
                k <= main@.len() + others@.len(),
                spec_fields == if localize {
                    localize_fields_of(gm, keyword@)
                } else {
                    normal_fields_of(gm, keyword@)
                },
                field_models(fields@) =~= spec_fields.subrange(0, k as int),
            decreases main.len() + others.len() - k,
        {
            let is_key = k < main.len();
            let c: usize = if is_key { main[k] } else { others[k - main.len()] };
            let field_name = if is_key {
                unstarred_text(&g.heads, TABLE_NORMAL_ROW_FIELD, c)
            } else {
                text_or_empty(&g.heads, TABLE_NORMAL_ROW_FIELD, c)
            };
            let field_type = if localize {
                EDataType::String
            } else {
                let t = text_or_empty(&g.heads, TABLE_NORMAL_ROW_TYPE, c);
                EDataType::convert(t.as_str())
            };
            let field_desc = text_or_empty(&g.heads, TABLE_NORMAL_ROW_DESC, c);
            let field_link = if localize {
                String::new()
            } else {
                text_or_empty(&g.heads, TABLE_NORMAL_ROW_LINK, c)
            };
            let field_index: i32 = (k + 1) as i32;
            let info = FieldInfo { is_key, field_name, field_type, field_desc, field_link, field_index };
            proof {
                if localize {
                    assert(info.model() == spec_fields[k as int]);
                } else {
                    assert(info.model() == spec_fields[k as int]);
                }
            }
            let ghost before = fields@;
            fields.push(info);
            assert(field_models(fields@) =~= field_models(before).push(info.model()));
            assert(spec_fields.subrange(0, k + 1) =~= spec_fields.subrange(0, k as int).push(spec_fields[k as int]));
            k = k + 1;
        }
        assert(spec_fields.subrange(0, k as int) =~= spec_fields);
        fields
    }

    fn normal_fields(&self, keyword: &str) -> (v: Vec<FieldInfo>)
        requires
            self.content.valid_heads(keyword@, true).len() + self.content.valid_heads(keyword@, false).len() < i32::MAX,
        ensures
            field_models(v@) == normal_fields_of(self.content, keyword@),
    {
        self.header_fields(keyword, false)
    }

    fn localize_fields(&self, keyword: &str) -> (v: Vec<FieldInfo>)
        requires
            self.content.valid_heads(keyword@, true).len() + self.content.valid_heads(keyword@, false).len() < i32::MAX,
        ensures
            field_models(v@) == localize_fields_of(self.content, keyword@),
    {
        self.header_fields(keyword, true)
    }

    fn kv_fields(&self, keyword: &str) -> (v: Vec<FieldInfo>)
        requires
            kv_fields_upto(self.content.cells@, keyword@, self.content.cells@.len()).len() < i32::MAX,
        ensures
            field_models(v@) == kv_fields_upto(self.content.cells@, keyword@, self.content.cells@.len()),
    {
        let rows = &self.content.cells;
        let kw = chars_of(keyword);
        let mut fields: Vec<FieldInfo> = Vec::new();
        let mut r: usize = 0;
        while r < rows.len()
            invariant
                r <= rows@.len(),
                kw@ == keyword@,
                field_models(fields@) == kv_fields_upto(rows@, keyword@, r as nat),
                kv_fields_upto(rows@, keyword@, rows@.len()).len() < i32::MAX,
            decreases rows.len() - r,
        {
            proof {
                lemma_kv_fields_grow(rows@, keyword@, r as nat, rows@.len());
            }
            if lawful_cell(rows, r, TABLE_KV_COL_FIELD) && lawful_cell(rows, r, TABLE_KV_COL_TYPE)
                && lawful_cell(rows, r, TABLE_KV_COL_KEYWORD)
                && cell_contains(rows, r, TABLE_KV_COL_KEYWORD, kw.as_slice()) {
                let t = text_or_empty(rows, r, TABLE_KV_COL_TYPE);
                let info = FieldInfo {
                    is_key: false,
                    field_name: unstarred_text(rows, r, TABLE_KV_COL_FIELD),
                    field_type: EDataType::convert(t.as_str()),
                    field_desc: text_or_empty(rows, r, TABLE_KV_COL_DESC),
                    field_link: text_or_empty(rows, r, TABLE_KV_COL_LINK),
                    field_index: (fields.len() + 1) as i32,
                };
                let ghost before = fields@;
                fields.push(info);
                assert(field_models(fields@) =~= field_models(before).push(info.model()));
            }
            r = r + 1;
        }
        fields
    }

    fn enum_fields(&self) -> (v: Vec<FieldInfo>)
        ensures
            field_models(v@) == enum_fields_upto(self.content.cells@, self.content.cells@.len()),
    {
        let rows = &self.content.cells;
        let mut fields: Vec<FieldInfo> = Vec::new();
        let mut r: usize = 0;
        while r < rows.len()
            invariant
                r <= rows@.len(),
                field_models(fields@) == enum_fields_upto(rows@, r as nat),
            decreases rows.len() - r,
        {
            if lawful_cell(rows, r, TABLE_ENUM_COL_FIELD) && lawful_cell(rows, r, TABLE_ENUM_COL_VALUE) {
                let value_cell = CellData {
                    value: text_or_empty(rows, r, TABLE_ENUM_COL_VALUE),
                    bg_fill: String::new(),
                    font_fill: String::new(),
                };
                let value: i64 = value_cell.parse_int();
                let info = FieldInfo {
                    is_key: false,
                    field_name: text_or_empty(rows, r, TABLE_ENUM_COL_FIELD),
                    field_type: EDataType::String,
                    field_desc: text_or_empty(rows, r, TABLE_ENUM_COL_DESC),
                    field_link: String::new(),
                    field_index: value as i32,
                };
                let ghost before = fields@;
                fields.push(info);
                assert(field_models(fields@) =~= field_models(before).push(info.model()));
            }
            r = r + 1;
        }
        fields
    }
}

proof fn lemma_kv_fields_grow(rows: Seq<Vec<CellData>>, keyword: Seq<char>, m: nat, n: nat)
    requires
        m <= n,
    ensures
        kv_fields_upto(rows, keyword, m).len() <= kv_fields_upto(rows, keyword, n).len(),
    decreases n - m,
{
    if m < n {
        lemma_kv_fields_grow(rows, keyword, m, (n - 1) as nat);
    }
}

/// One value of an exported record, before it is written in an output
/// format: the key it is stored under, the declared type that decides how
/// the text is read, and the cell's text.
pub struct ExportEntry {
    /// The key of the value in its record.
    pub key: String,
    /// The declared type of the value.
    pub data_type: EDataType,
    /// The cell's text.
    pub text: String,
}

/// The mathematical content of an `ExportEntry`.
pub struct EntryModel {
    pub key: Seq<char>,
    pub data_type: EDataType,
    pub text: Seq<char>,
}

impl ExportEntry {
    /// The entry's content as plain values.
    pub open spec fn model(&self) -> EntryModel {
        EntryModel { key: self.key@, data_type: self.data_type, text: self.text@ }
    }
}

/// The models of a record's entries.
pub open spec fn entry_models(v: Seq<ExportEntry>) -> Seq<EntryModel> {
    v.map_values(|e: ExportEntry| e.model())
}

/// The models of a list of records.
pub open spec fn record_models(v: Seq<Vec<ExportEntry>>) -> Seq<Seq<EntryModel>> {
    v.map_values(|r: Vec<ExportEntry>| entry_models(r@))
}

/// Data row `r` carries a non-empty value in column `c`.
pub open spec fn has_value(g: GableData, r: int, c: int) -> bool {
    lawful_at(g.cells@, r, c)
}

/// The entry that data row `r` gives for header column `c`; key columns
/// are stored without their `*`.
pub open spec fn header_entry(g: GableData, r: int, c: int, is_key: bool) -> EntryModel {
    let name = text_at(g.heads@, TABLE_NORMAL_ROW_FIELD as int, c);
    EntryModel {
        key: if is_key { unstarred(name) } else { name },
        data_type: data_type_of(text_at(g.heads@, TABLE_NORMAL_ROW_TYPE as int, c)),
        text: text_at(g.cells@, r, c),
    }
}

/// The entries that data row `r` gives for the first `m` non-key columns
/// `cols`: one for each column where the row has a value.
pub open spec fn optional_entries(g: GableData, r: int, cols: Seq<usize>, m: nat) -> Seq<EntryModel>
    decreases m,
{
    if m == 0 {
        Seq::empty()
    } else {
        let prev = optional_entries(g, r, cols, (m - 1) as nat);
        if has_value(g, r, cols[m - 1] as int) {
            prev.push(header_entry(g, r, cols[m - 1] as int, false))
        } else {
            prev
        }
    }
}

/// Data row `r` is read: it is a data row and every key column holds a
/// value. Rows with an empty key are not records. The export walks the rows
/// whose number, counted with the header rows, stays within the row count;
/// whenever a record is possible at all, that is every data row
/// (`lemma_record_rows_are_walked`).
pub open spec fn row_is_record(g: GableData, keyword: Seq<char>, r: int) -> bool {
    &&& 0 <= r < g.cells@.len()
    &&& forall|k: int| 0 <= k < g.valid_heads(keyword, true).len()
        ==> has_value(g, r, #[trigger] g.valid_heads(keyword, true)[k] as int)
}

/// A table with a key column has at least the header rows up to the
/// keyword row, so every data row lies within the rows that the export of
/// a normal or localisation table walks: its number counted with the
/// header rows does not pass the count of all rows.
pub proof fn lemma_record_rows_are_walked(g: GableData, keyword: Seq<char>, r: int)
    requires
        0 <= r < g.cells@.len(),
        g.valid_heads(keyword, true).len() > 0,
    ensures
        g.heads@.len() > TABLE_NORMAL_ROW_KEYWORD,
        r + TABLE_NORMAL_ROW_TOTAL <= g.heads@.len() + g.cells@.len(),
        r + TABLE_LOCALIZE_ROW_TOTAL <= g.heads@.len() + g.cells@.len(),
{
    lemma_valid_heads_exact(g, keyword, true);
    let c = g.valid_heads(keyword, true)[0] as int;
    assert(g.is_valid_head(keyword, c));
    assert(lawful_at(g.heads@, TABLE_NORMAL_ROW_KEYWORD as int, c));
}

/// The record of data row `r`: every key column, then the non-key columns
/// where the row has a value.
pub open spec fn row_record(g: GableData, keyword: Seq<char>, r: int) -> Seq<EntryModel> {
    let main = g.valid_heads(keyword, true);
    let others = g.valid_heads(keyword, false);
    Seq::new(main.len(), |k: int| header_entry(g, r, main[k] as int, true))
        + optional_entries(g, r, others, others.len())
}

/// `e` is what data row `r` holds in header column `c`: the column's field
/// name (without `*` for a key column), the type its type row names, and
/// the row's text in that column.
pub open spec fn entry_of_column(g: GableData, r: int, c: int, is_key: bool, e: EntryModel) -> bool {
    let name = text_at(g.heads@, TABLE_NORMAL_ROW_FIELD as int, c);
    &&& e.key == if is_key { unstarred(name) } else { name }
    &&& e.data_type == data_type_of(text_at(g.heads@, TABLE_NORMAL_ROW_TYPE as int, c))
    &&& e.text == text_at(g.cells@, r, c)
}

/// `e` is what data row `r` holds in one of the first `m` columns `cols`
/// where it has a value.
pub open spec fn entry_of_some_column(g: GableData, r: int, cols: Seq<usize>, m: int, e: EntryModel) -> bool {
    exists|j: int| 0 <= j < m && #[trigger] has_value(g, r, cols[j] as int) && entry_of_column(g, r, cols[j] as int, false, e)
}

proof fn lemma_optional_entries_follow_columns(g: GableData, r: int, cols: Seq<usize>, m: nat)
    requires
        m <= cols.len(),
    ensures
        forall|k: int| 0 <= k < optional_entries(g, r, cols, m).len()
            ==> entry_of_some_column(g, r, cols, m as int, #[trigger] optional_entries(g, r, cols, m)[k]),
    decreases m,
{
    if m > 0 {
        let p = (m - 1) as nat;
        lemma_optional_entries_follow_columns(g, r, cols, p);
        let prev = optional_entries(g, r, cols, p);
        let cur = optional_entries(g, r, cols, m);
        assert forall|k: int| 0 <= k < cur.len() implies entry_of_some_column(g, r, cols, m as int, #[trigger] cur[k]) by {
            if k < prev.len() {
                assert(cur[k] == prev[k]);
                assert(entry_of_some_column(g, r, cols, p as int, prev[k]));
                let j = choose|j: int| 0 <= j < p && #[trigger] has_value(g, r, cols[j] as int)
                    && entry_of_column(g, r, cols[j] as int, false, prev[k]);
                assert(0 <= j < m && has_value(g, r, cols[j] as int));
            } else {
                if !has_value(g, r, cols[p as int] as int) {
                    assert(cur == prev);
                }
                assert(has_value(g, r, cols[p as int] as int));
                assert(k == prev.len());
                assert(cur[k] == header_entry(g, r, cols[p as int] as int, false));
            }
        }
    }
}

/// The record of data row `r` begins with one entry per key column, in
/// ascending column order, each with the column's name (without `*`), the
/// type its type row names and the row's text there; each further entry is
/// that of a non-key column where the row has a value.
pub proof fn lemma_record_entries_follow_columns(g: GableData, keyword: Seq<char>, r: int)
    ensures
        row_record(g, keyword, r).len() >= g.valid_heads(keyword, true).len(),
        forall|k: int| 0 <= k < g.valid_heads(keyword, true).len()
            ==> entry_of_column(g, r, g.valid_heads(keyword, true)[k] as int, true, #[trigger] row_record(g, keyword, r)[k]),
        forall|k: int| g.valid_heads(keyword, true).len() <= k < row_record(g, keyword, r).len()
            ==> entry_of_some_column(g, r, g.valid_heads(keyword, false), g.valid_heads(keyword, false).len() as int,
                #[trigger] row_record(g, keyword, r)[k]),
{
    let main = g.valid_heads(keyword, true);
    let others = g.valid_heads(keyword, false);
    let keys = Seq::new(main.len(), |k: int| header_entry(g, r, main[k] as int, true));
    let opt = optional_entries(g, r, others, others.len());
    lemma_optional_entries_follow_columns(g, r, others, others.len());
    assert(row_record(g, keyword, r) == keys + opt);
    assert forall|k: int| g.valid_heads(keyword, true).len() <= k < row_record(g, keyword, r).len() implies
        entry_of_some_column(g, r, others, others.len() as int, #[trigger] row_record(g, keyword, r)[k]) by {
        assert(row_record(g, keyword, r)[k] == opt[k - main.len()]);
    }
}

/// The records of the first `n` data rows.
pub open spec fn records_upto(g: GableData, keyword: Seq<char>, n: nat) -> Seq<Seq<EntryModel>>
    decreases n,
{
    if n == 0 {
        Seq::empty()
    } else {
        let prev = records_upto(g, keyword, (n - 1) as nat);
        if row_is_record(g, keyword, n - 1) {
            prev.push(row_record(g, keyword, n - 1))
        } else {
            prev
        }
    }
}

/// `rec` is the record of one of the first `n` data rows that is a record.
pub open spec fn record_of_some_row(g: GableData, keyword: Seq<char>, n: int, rec: Seq<EntryModel>) -> bool {
    exists|r: int| 0 <= r < n && #[trigger] row_is_record(g, keyword, r) && rec == row_record(g, keyword, r)
}

/// Each record of the first `n` data rows is the record of one of them
/// whose key columns all hold a value.
pub proof fn lemma_records_come_from_rows(g: GableData, keyword: Seq<char>, n: nat)
    ensures
        forall|j: int| 0 <= j < records_upto(g, keyword, n).len()
            ==> record_of_some_row(g, keyword, n as int, #[trigger] records_upto(g, keyword, n)[j]),
    decreases n,
{
    if n > 0 {
        let m = (n - 1) as nat;
        lemma_records_come_from_rows(g, keyword, m);
        let prev = records_upto(g, keyword, m);
        let cur = records_upto(g, keyword, n);
        assert forall|j: int| 0 <= j < cur.len() implies record_of_some_row(g, keyword, n as int, #[trigger] cur[j]) by {
            if j < prev.len() {
                assert(cur[j] == prev[j]);
                assert(record_of_some_row(g, keyword, m as int, prev[j]));
                let r = choose|r: int| 0 <= r < m && #[trigger] row_is_record(g, keyword, r) && prev[j] == row_record(g, keyword, r);
                assert(0 <= r < n && row_is_record(g, keyword, r));
            } else {
                if !row_is_record(g, keyword, m as int) {
                    assert(cur == prev);
                }
                assert(row_is_record(g, keyword, m as int));
                assert(j == prev.len());
                assert(cur[j] == row_record(g, keyword, m as int));
            }
        }
    }
}

/// The records of a normal or localisation table for a keyword: none
/// unless it has both key and non-key columns, otherwise one per data row
/// that is a record.
pub open spec fn header_records(g: GableData, keyword: Seq<char>) -> Seq<Seq<EntryModel>> {
    if g.valid_heads(keyword, true).len() == 0 || g.valid_heads(keyword, false).len() == 0 {
        Seq::empty()
    } else {
        records_upto(g, keyword, g.cells@.len())
    }
}

/// Row `r` of a key-value table gives a value for the keyword: it declares
/// a field and its value cell is not empty.
pub open spec fn kv_row_gives(rows: Seq<Vec<CellData>>, r: int, keyword: Seq<char>) -> bool {
    kv_row_declares(rows, r, keyword) && lawful_at(rows, r, TABLE_KV_COL_VALUE as int)
}

/// The entries of the first `n` rows of a key-value table.
pub open spec fn kv_entries_upto(rows: Seq<Vec<CellData>>, keyword: Seq<char>, n: nat) -> Seq<EntryModel>
    decreases n,
{
    if n == 0 {
        Seq::empty()
    } else {
        let prev = kv_entries_upto(rows, keyword, (n - 1) as nat);
        let r = n - 1;
        if kv_row_gives(rows, r, keyword) {
            prev.push(EntryModel {
                key: text_at(rows, r, TABLE_KV_COL_FIELD as int),
                data_type: data_type_of(text_at(rows, r, TABLE_KV_COL_TYPE as int)),
                text: text_at(rows, r, TABLE_KV_COL_VALUE as int),
            })
        } else {
            prev
        }
    }
}

/// The export entry of a key-value row taken on its own: the row's key, the
/// data type that its type cell names and the text of its value cell.
pub open spec fn kv_row_entry_is(rows: Seq<Vec<CellData>>, r: int, e: EntryModel) -> bool {
    &&& e.key == text_at(rows, r, TABLE_KV_COL_FIELD as int)
    &&& e.data_type == data_type_of(text_at(rows, r, TABLE_KV_COL_TYPE as int))
    &&& e.text == text_at(rows, r, TABLE_KV_COL_VALUE as int)
}

/// `e` is the entry of one of the first `n` rows of a key-value table that
/// gives a value.
pub open spec fn entry_of_giving_row(rows: Seq<Vec<CellData>>, keyword: Seq<char>, n: int, e: EntryModel) -> bool {
    exists|r: int| 0 <= r < n && #[trigger] kv_row_gives(rows, r, keyword) && kv_row_entry_is(rows, r, e)
}

/// Each of the entries of a key-value table's first `n` rows is that of one
/// of those rows that gives a value: it has the row's key, the data type
/// that the row's type cell names and the row's value text.
pub proof fn lemma_kv_entries_come_from_rows(rows: Seq<Vec<CellData>>, keyword: Seq<char>, n: nat)
    ensures
        forall|i: int| 0 <= i < kv_entries_upto(rows, keyword, n).len()
            ==> entry_of_giving_row(rows, keyword, n as int, #[trigger] kv_entries_upto(rows, keyword, n)[i]),
    decreases n,
{
    if n > 0 {
        let m = (n - 1) as nat;
        lemma_kv_entries_come_from_rows(rows, keyword, m);
        let prev = kv_entries_upto(rows, keyword, m);
        let cur = kv_entries_upto(rows, keyword, n);
        assert forall|i: int| 0 <= i < cur.len() implies entry_of_giving_row(rows, keyword, n as int, #[trigger] cur[i]) by {
            if i < prev.len() {
                assert(cur[i] == prev[i]);
                assert(entry_of_giving_row(rows, keyword, m as int, prev[i]));
                let r = choose|r: int| 0 <= r < m && #[trigger] kv_row_gives(rows, r, keyword) && kv_row_entry_is(rows, r, prev[i]);
                assert(0 <= r < n && kv_row_gives(rows, r, keyword) && kv_row_entry_is(rows, r, cur[i]));
            } else {
                if !kv_row_gives(rows, m as int, keyword) {
                    assert(cur == prev);
                }
                assert(kv_row_gives(rows, m as int, keyword));
                assert(i == prev.len());
                assert(kv_row_entry_is(rows, m as int, cur[i]));
            }
        }
    }
}

/// Each of the first `n` rows of a key-value table that gives a value gives
/// an entry with the row's key, the data type that its type cell names and
/// its value text.
pub proof fn lemma_kv_rows_give_entries(rows: Seq<Vec<CellData>>, keyword: Seq<char>, n: nat)
    ensures
        forall|r: int| 0 <= r < n && #[trigger] kv_row_gives(rows, r, keyword) ==> exists|i: int|
            0 <= i < kv_entries_upto(rows, keyword, n).len()
                && kv_row_entry_is(rows, r, kv_entries_upto(rows, keyword, n)[i]),
    decreases n,
{
    if n > 0 {
        let m = (n - 1) as nat;
        lemma_kv_rows_give_entries(rows, keyword, m);
        let prev = kv_entries_upto(rows, keyword, m);
        let cur = kv_entries_upto(rows, keyword, n);
        assert forall|r: int| 0 <= r < n && #[trigger] kv_row_gives(rows, r, keyword) implies exists|i: int|
            0 <= i < cur.len() && kv_row_entry_is(rows, r, cur[i]) by {
            if r < m {
                let i = choose|i: int| 0 <= i < prev.len() && kv_row_entry_is(rows, r, prev[i]);
                assert(cur[i] == prev[i]);
                assert(0 <= i < cur.len() && kv_row_entry_is(rows, r, cur[i]));
            } else {
                assert(kv_row_gives(rows, m as int, keyword));
                assert(cur == prev.push(cur[prev.len() as int]));
                assert(0 <= prev.len() < cur.len() && kv_row_entry_is(rows, r, cur[prev.len() as int]));
            }
        }
    }
}

/// The records that `to_records` exports from a sheet: those of a normal or
/// localisation table, the single record of a key-value table, and none for
/// an enum table.
pub open spec fn records_of(t: ESheetType, g: GableData, keyword: Seq<char>) -> Seq<Seq<EntryModel>> {
    match t {
        ESheetType::Normal | ESheetType::Localize => header_records(g, keyword),
        ESheetType::KV => seq![kv_entries_upto(g.cells@, keyword, g.cells@.len())],
        ESheetType::Enum => Seq::empty(),
    }
}

impl TreeData {
    /// The records the sheet exports for a keyword (enum tables export
    /// none); each record lists its values in the order they are stored,
    /// a later value replacing an earlier one of the same key.
    pub fn to_records(&self, keyword: &str) -> (v: Vec<Vec<ExportEntry>>)
        ensures
            record_models(v@) == records_of(self.gable_type, self.content, keyword@),
            self.gable_type == ESheetType::Normal || self.gable_type == ESheetType::Localize ==>
                forall|j: int| 0 <= j < v@.len() ==> record_of_some_row(self.content, keyword@,
                    self.content.cells@.len() as int, entry_models((#[trigger] v@[j])@)),
            self.gable_type == ESheetType::KV ==> v@.len() == 1 && forall|i: int| 0 <= i < v@[0]@.len()
                ==> entry_of_giving_row(self.content.cells@, keyword@, self.content.cells@.len() as int,
                    (#[trigger] v@[0]@[i]).model()),
    {
        proof {
            lemma_kv_entries_come_from_rows(self.content.cells@, keyword@, self.content.cells@.len());
            lemma_records_come_from_rows(self.content, keyword@, self.content.cells@.len());
        }
        let v = match self.gable_type {
            ESheetType::Normal => self.normal_data(keyword),
            ESheetType::Localize => self.localize_data(keyword),
            ESheetType::KV => self.kv_data(keyword),
            ESheetType::Enum => {
                let v: Vec<Vec<ExportEntry>> = Vec::new();
                assert(record_models(v@) =~= Seq::<Seq<EntryModel>>::empty());
                v
            },
        };
        proof {
            if self.gable_type == ESheetType::Normal || self.gable_type == ESheetType::Localize {
                assert forall|j: int| 0 <= j < v@.len() implies record_of_some_row(self.content, keyword@,
                    self.content.cells@.len() as int, entry_models((#[trigger] v@[j])@)) by {
                    assert(record_models(v@).len() == v@.len());
                    assert(record_models(v@)[j] == entry_models(v@[j]@));
                    assert(records_of(self.gable_type, self.content, keyword@) == header_records(self.content, keyword@));
                    if !(self.content.valid_heads(keyword@, true).len() == 0 || self.content.valid_heads(keyword@, false).len() == 0) {
                        assert(records_upto(self.content, keyword@, self.content.cells@.len())[j] == entry_models(v@[j]@));
                    }
                }
            }
            if self.gable_type == ESheetType::KV {
                assert(record_models(v@).len() == v@.len());
                assert(record_models(v@).len() == 1);
                assert(record_models(v@)[0] == entry_models(v@[0]@));
                assert forall|i: int| 0 <= i < v@[0]@.len() implies entry_of_giving_row(self.content.cells@, keyword@,
                    self.content.cells@.len() as int, (#[trigger] v@[0]@[i]).model()) by {
                    assert(entry_models(v@[0]@)[i] == v@[0]@[i].model());
                }
            }
        }
        v
    }

    fn normal_data(&self, keyword: &str) -> (v: Vec<Vec<ExportEntry>>)
        ensures
            record_models(v@) == header_records(self.content, keyword@),
    {
        Self::header_data(&self.content, keyword)
    }

    fn localize_data(&self, keyword: &str) -> (v: Vec<Vec<ExportEntry>>)
        ensures
            record_models(v@) == header_records(self.content, keyword@),
    {
        Self::header_data(&self.content, keyword)
    }

    fn entry_for(g: &GableData, r: usize, c: usize, is_key: bool) -> (e: ExportEntry)
        ensures
            e.model() == header_entry(*g, r as int, c as int, is_key),
    {
        let key = if is_key {
            unstarred_text(&g.heads, TABLE_NORMAL_ROW_FIELD, c)
        } else {
            text_or_empty(&g.heads, TABLE_NORMAL_ROW_FIELD, c)
        };
        let t = text_or_empty(&g.heads, TABLE_NORMAL_ROW_TYPE, c);
        ExportEntry { key, data_type: EDataType::convert(t.as_str()), text: text_or_empty(&g.cells, r, c) }
    }

    fn row_data(g: &GableData, keyword: &str, main: &Vec<usize>, others: &Vec<usize>, r: usize)
        -> (e: Option<Vec<ExportEntry>>)
        requires
            main@ == g.valid_heads(keyword@, true),
            others@ == g.valid_heads(keyword@, false),
        ensures
            match e {
                Some(v) => (forall|k: int| 0 <= k < main@.len() ==> has_value(*g, r as int, #[trigger] main@[k] as int))
                    && entry_models(v@) == row_record(*g, keyword@, r as int),
                None => !(forall|k: int| 0 <= k < main@.len() ==> has_value(*g, r as int, #[trigger] main@[k] as int)),
            },
    {
        let mut entries: Vec<ExportEntry> = Vec::new();
        let mut k: usize = 0;
        while k < main.len()
            invariant
                k <= main@.len(),
                forall|j: int| 0 <= j < k ==> has_value(*g, r as int, #[trigger] main@[j] as int),
                entry_models(entries@) =~= Seq::new(k as nat, |j: int| header_entry(*g, r as int, main@[j] as int, true)),
            decreases main.len() - k,
        {
            let c = main[k];
            if !lawful_cell(&g.cells, r, c) {
                return None;
            }
            let e = Self::entry_for(g, r, c, true);
            let ghost before = entries@;
            entries.push(e);
            assert(entry_models(entries@) =~= entry_models(before).push(e.model()));
            k = k + 1;
        }
        let ghost keys = entry_models(entries@);
        let mut m: usize = 0;
        while m < others.len()
            invariant
                m <= others@.len(),
                entry_models(entries@) =~= keys + optional_entries(*g, r as int, others@, m as nat),
            decreases others.len() - m,
        {
            let c = others[m];
            if lawful_cell(&g.cells, r, c) {
                let e = Self::entry_for(g, r, c, false);
                let ghost before = entries@;
                entries.push(e);
                assert(entry_models(entries@) =~= entry_models(before).push(e.model()));
            }
            m = m + 1;
        }
        Some(entries)
    }

    fn header_data(g: &GableData, keyword: &str) -> (v: Vec<Vec<ExportEntry>>)
        ensures
            record_models(v@) == header_records(*g, keyword@),
    {
        let (main, others) = g.get_valid_normal_heads(keyword);
        let mut items: Vec<Vec<ExportEntry>> = Vec::new();
        if main.len() == 0 || others.len() == 0 {
            assert(record_models(items@) =~= header_records(*g, keyword@));
            return items;
        }
        let mut r: usize = 0;
        while r < g.cells.len()
            invariant
                r <= g.cells@.len(),
                main@ == g.valid_heads(keyword@, true),
                others@ == g.valid_heads(keyword@, false),
                record_models(items@) =~= records_upto(*g, keyword@, r as nat),
            decreases g.cells.len() - r,
        {
            match Self::row_data(g, keyword, &main, &others, r) {
                Some(entries) => {
                    let ghost before = items@;
                    items.push(entries);
                    assert(record_models(items@) =~= record_models(before).push(entry_models(entries@)));
                },
                None => {},
            }
            r = r + 1;
        }
        items
    }

    fn kv_data(&self, keyword: &str) -> (v: Vec<Vec<ExportEntry>>)
        ensures
            record_models(v@) == seq![kv_entries_upto(self.content.cells@, keyword@, self.content.cells@.len())],
    {
        let rows = &self.content.cells;
        let kw = chars_of(keyword);
        let mut entries: Vec<ExportEntry> = Vec::new();
        let mut r: usize = 0;
        while r < rows.len()
            invariant
                r <= rows@.len(),
                kw@ == keyword@,
                entry_models(entries@) == kv_entries_upto(rows@, keyword@, r as nat),
            decreases rows.len() - r,
        {
            if lawful_cell(rows, r, TABLE_KV_COL_FIELD) && lawful_cell(rows, r, TABLE_KV_COL_TYPE)
                && lawful_cell(rows, r, TABLE_KV_COL_KEYWORD)
                && cell_contains(rows, r, TABLE_KV_COL_KEYWORD, kw.as_slice())
                && lawful_cell(rows, r, TABLE_KV_COL_VALUE) {
                let t = text_or_empty(rows, r, TABLE_KV_COL_TYPE);
                let e = ExportEntry {
                    key: text_or_empty(rows, r, TABLE_KV_COL_FIELD),
                    data_type: EDataType::convert(t.as_str()),
                    text: text_or_empty(rows, r, TABLE_KV_COL_VALUE),
                };
                let ghost before = entries@;
                entries.push(e);
                assert(entry_models(entries@) =~= entry_models(before).push(e.model()));
            }
            r = r + 1;
        }
        let v = vec![entries];
        assert(record_models(v@) =~= seq![entry_models(v@[0]@)]);
        v
    }
}

/// The value an exported cell stands for, by its declared type.
#[derive(Debug)]
pub enum CellValue {
    /// The text as it is.
    Text(String),
    /// An integer.
    Int(i64),
    /// A flag.
    Bool(bool),
    /// A list of integers.
    IntList(Vec<i64>),
    /// A list of texts.
    TextList(Vec<String>),
    /// A list of flags; `None` when a part is neither `true` nor `false`.
    BoolList(Option<Vec<bool>>),
    /// A floating-point number, a vector or a list of them, read from the
    /// text by the program.
    Numeric,
}

/// The value of an exported cell with text `cell` whose column declares
/// `data_type`: text types keep the text, integer, time, date and enum
/// types read an integer (0 when there is none), `bool` reads a flag, and
/// the list types read the `;`-separated parts; the floating-point and
/// vector types are left to the program.
pub fn cell_value(data_type: EDataType, cell: &CellData) -> (r: CellValue)
    ensures
        match data_type {
            EDataType::Unknown | EDataType::String | EDataType::Loc =>
                r matches CellValue::Text(t) && t@ == cell.value@,
            EDataType::Int | EDataType::Long | EDataType::Time | EDataType::Date | EDataType::Enum =>
                r matches CellValue::Int(v) && v as int == int_of_text(cell.value@),
            EDataType::Boolean =>
                r matches CellValue::Bool(b) && b == (cell.value@.len() > 0
                    && true_word(lowercased(trimmed(cell.value@)))),
            EDataType::IntArr | EDataType::LongArr =>
                r matches CellValue::IntList(v) && v@.map_values(|x: i64| x as int)
                    == int_parts(split_parts(cell.value@, ';')),
            EDataType::StringArr =>
                r matches CellValue::TextList(v) && v@.map_values(|t: String| t@)
                    == split_parts(cell.value@, ';'),
            EDataType::BooleanArr =>
                r matches CellValue::BoolList(o) && match o {
                    Some(v) => v@.len() == split_parts(cell.value@, ';').len()
                        && forall|i: int| 0 <= i < v@.len()
                            ==> bool_value(split_parts(cell.value@, ';')[i]) == Some(#[trigger] v@[i]),
                    None => exists|i: int| 0 <= i < split_parts(cell.value@, ';').len()
                        && bool_value(#[trigger] split_parts(cell.value@, ';')[i]) is None,
                },
            _ => r is Numeric,
        },
{
    match data_type {
        EDataType::Unknown | EDataType::String | EDataType::Loc => CellValue::Text(cell.value.clone()),
        EDataType::Int | EDataType::Long | EDataType::Time | EDataType::Date | EDataType::Enum => {
            CellValue::Int(cell.parse_int())
        },
        EDataType::Boolean => CellValue::Bool(cell.parse_bool()),
        EDataType::IntArr | EDataType::LongArr => CellValue::IntList(cell.int_items()),
        EDataType::StringArr => CellValue::TextList(cell.string_items()),
        EDataType::BooleanArr => CellValue::BoolList(cell.bool_items()),
        _ => CellValue::Numeric,
    }
}

} // verus!
