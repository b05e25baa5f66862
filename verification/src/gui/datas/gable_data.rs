//! The content of a sheet: header rows and data rows of cells.
use crate::common::constant::{TABLE_NORMAL_ROW_FIELD, TABLE_NORMAL_ROW_KEYWORD, TABLE_NORMAL_ROW_TYPE};
use crate::common::text::{chars_of, contains, has_infix};
use crate::gui::datas::cell_data::CellData;
use crate::gui::datas::esheet_type::ESheetType;
use vstd::prelude::*;

verus! {

/// The stored content of one sheet.
#[derive(Debug, Clone)]
pub struct GableData {
    /// Header rows.
    pub heads: Vec<Vec<CellData>>,
    /// Data rows.
    pub cells: Vec<Vec<CellData>>,
}

/// The cell at row `r`, column `c`, when there is one.
pub open spec fn cell_at(rows: Seq<Vec<CellData>>, r: int, c: int) -> Option<CellData> {
    if 0 <= r < rows.len() && 0 <= c < rows[r]@.len() {
        Some(rows[r]@[c])
    } else {
        None
    }
}

/// There is a cell at row `r`, column `c`, and its text is not empty.
pub open spec fn lawful_at(rows: Seq<Vec<CellData>>, r: int, c: int) -> bool {
    match cell_at(rows, r, c) {
        Some(x) => x.value@.len() > 0,
        None => false,
    }
}

/// The text of the cell at row `r`, column `c` (empty when there is none).
pub open spec fn text_at(rows: Seq<Vec<CellData>>, r: int, c: int) -> Seq<char> {
    match cell_at(rows, r, c) {
        Some(x) => x.value@,
        None => Seq::empty(),
    }
}

/// The length of the longest row.
pub open spec fn longest_row(rows: Seq<Vec<CellData>>) -> nat
    decreases rows.len(),
{
    if rows.len() == 0 {
        0
    } else {
        let rest = longest_row(rows.drop_last());
        if rows.last()@.len() > rest { rows.last()@.len() } else { rest }
    }
}

/// The texts of the cells of some rows.
pub open spec fn row_texts(rows: Seq<Vec<CellData>>) -> Seq<Seq<Seq<char>>> {
    rows.map_values(|row: Vec<CellData>| row@.map_values(|c: CellData| c.value@))
}

/// No cell of the rows has a fill.
pub open spec fn unfilled(rows: Seq<Vec<CellData>>) -> bool {
    forall|r: int, c: int| 0 <= r < rows.len() && 0 <= c < rows[r]@.len()
        ==> (#[trigger] rows[r]@[c]).bg_fill@.len() == 0 && rows[r]@[c].font_fill@.len() == 0
}

/// The template of a new normal table: the five header rows with an `ID`
/// column (`*id`, `int`) and one data row holding `1`.
pub open spec fn normal_template_texts() -> (Seq<Seq<Seq<char>>>, Seq<Seq<Seq<char>>>) {
    (seq![seq!["ID"@], seq!["*id"@], seq!["int"@], seq![], seq![]], seq![seq!["1"@]])
}

/// The template of a new key-value table: one header row naming the six
/// columns, no data.
pub open spec fn kv_template_texts() -> (Seq<Seq<Seq<char>>>, Seq<Seq<Seq<char>>>) {
    (seq![seq!["key"@, "Data Type"@, "Target"@, "Link Info"@, "Value"@, "Description"@]], seq![])
}

/// The template of a new enum table: one header row naming the three
/// columns, no data.
pub open spec fn enum_template_texts() -> (Seq<Seq<Seq<char>>>, Seq<Seq<Seq<char>>>) {
    (seq![seq!["Field Name"@, "Value"@, "Description"@]], seq![])
}

/// The template of a new localisation table: the five header rows with an
/// `ID` column (`*key`, `string`), no data.
pub open spec fn localize_template_texts() -> (Seq<Seq<Seq<char>>>, Seq<Seq<Seq<char>>>) {
    (seq![seq!["ID"@], seq!["*key"@], seq!["string"@], seq![], seq![]], seq![])
}

/// The template of a new table of the given kind.
pub open spec fn template_texts(t: ESheetType) -> (Seq<Seq<Seq<char>>>, Seq<Seq<Seq<char>>>) {
    match t {
        ESheetType::Normal => normal_template_texts(),
        ESheetType::KV => kv_template_texts(),
        ESheetType::Enum => enum_template_texts(),
        ESheetType::Localize => localize_template_texts(),
    }
}

fn plain_cell(s: &str) -> (c: CellData)
    ensures
        c.value@ == s@,
        c.bg_fill@.len() == 0,
        c.font_fill@.len() == 0,
{
    CellData { value: String::from_str(s), bg_fill: String::new(), font_fill: String::new() }
}

fn plain_row(words: Vec<&str>) -> (row: Vec<CellData>)
    ensures
        row@.len() == words@.len(),
        forall|i: int| 0 <= i < row@.len() ==> (#[trigger] row@[i]).value@ == words@[i]@
            && row@[i].bg_fill@.len() == 0 && row@[i].font_fill@.len() == 0,
{
    let mut row: Vec<CellData> = Vec::new();
    let mut i: usize = 0;
    while i < words.len()
        invariant
            i <= words@.len(),
            row@.len() == i,
            forall|k: int| 0 <= k < i ==> (#[trigger] row@[k]).value@ == words@[k]@
                && row@[k].bg_fill@.len() == 0 && row@[k].font_fill@.len() == 0,
        decreases words.len() - i,
    {
        row.push(plain_cell(words[i]));
        i = i + 1;
    }
    row
}

impl GableData {
    /// The spec-level column set of the header rows: the columns that
    /// `get_valid_normal_heads` keeps (see `head_columns`).
    pub open spec fn is_valid_head(&self, keyword: Seq<char>, c: int) -> bool {
        &&& lawful_at(self.heads@, TABLE_NORMAL_ROW_FIELD as int, c)
        &&& lawful_at(self.heads@, TABLE_NORMAL_ROW_TYPE as int, c)
        &&& lawful_at(self.heads@, TABLE_NORMAL_ROW_KEYWORD as int, c)
        &&& has_infix(text_at(self.heads@, TABLE_NORMAL_ROW_KEYWORD as int, c), keyword)
    }

    /// Column `c` names a primary key: its field name holds a `*`.
    pub open spec fn is_key_head(&self, c: int) -> bool {
        has_infix(text_at(self.heads@, TABLE_NORMAL_ROW_FIELD as int, c), "*"@)
    }

    /// The valid header columns below `n` whose key-ness is `key`, in
    /// ascending order.
    pub open spec fn head_columns(&self, keyword: Seq<char>, key: bool, n: nat) -> Seq<usize>
        decreases n,
    {
        if n == 0 {
            Seq::empty()
        } else {
            let prev = self.head_columns(keyword, key, (n - 1) as nat);
            if self.is_valid_head(keyword, n - 1) && self.is_key_head(n - 1) == key {
                prev.push((n - 1) as usize)
            } else {
                prev
            }
        }
    }

    /// The number of columns: the length of the longest row.
    pub open spec fn max_col(&self) -> nat {
        let h = longest_row(self.heads@);
        let c = longest_row(self.cells@);
        if h > c { h } else { c }
    }

    /// The valid header columns (key columns when `key`, the others when
    /// not), in ascending order.
    pub open spec fn valid_heads(&self, keyword: Seq<char>, key: bool) -> Seq<usize> {
        self.head_columns(keyword, key, self.max_col())
    }

    /// A new table of the given kind, filled from its template.
    pub fn new(sheet_type: ESheetType) -> (g: Self)
        ensures
            (row_texts(g.heads@), row_texts(g.cells@)) == template_texts(sheet_type),
            unfilled(g.heads@),
            unfilled(g.cells@),
    {
        match sheet_type {
            ESheetType::Normal => Self::normal_template(),
            ESheetType::KV => Self::kv_template(),
            ESheetType::Enum => Self::enum_template(),
            ESheetType::Localize => Self::localize_template(),
        }
    }

    /// The number of rows, header rows included.
    pub fn get_max_row(&self) -> (n: usize)
        requires
            self.heads@.len() + self.cells@.len() <= usize::MAX,
        ensures
            n == self.heads@.len() + self.cells@.len(),
    {
        self.heads.len() + self.cells.len()
    }

    fn longest(rows: &Vec<Vec<CellData>>, start: usize) -> (n: usize)
        requires
            start <= longest_row(rows@),
        ensures
            n == longest_row(rows@),
    {
        let mut max_col = start;
        let mut i: usize = 0;
        while i < rows.len()
            invariant
                i <= rows@.len(),
                max_col == if longest_row(rows@.subrange(0, i as int)) > start {
                    longest_row(rows@.subrange(0, i as int))
                } else {
                    start as nat
                },
                start <= longest_row(rows@),
            decreases rows.len() - i,
        {
            assert(rows@.subrange(0, i + 1).drop_last() =~= rows@.subrange(0, i as int));
            let col_len = rows[i].len();
            if max_col < col_len {
                max_col = col_len;
            }
            i = i + 1;
        }
        assert(rows@.subrange(0, i as int) =~= rows@);
        max_col
    }

    /// The number of columns: the length of the longest row.
    pub fn get_max_col(&self) -> (n: usize)
        ensures
            n == self.max_col(),
    {
        let h = Self::longest(&self.heads, 0);
        let c = Self::longest(&self.cells, 0);
        if h < c { c } else { h }
    }

    fn normal_template() -> (g: GableData)
        ensures
            (row_texts(g.heads@), row_texts(g.cells@)) == normal_template_texts(),
            unfilled(g.heads@),
            unfilled(g.cells@),
    {
        let heads = vec![plain_row(vec!["ID"]), plain_row(vec!["*id"]), plain_row(vec!["int"]), Vec::new(), Vec::new()];
        let cells = vec![plain_row(vec!["1"])];
        let g = GableData { heads, cells };
        assert(row_texts(g.heads@) =~~= normal_template_texts().0);
        assert(row_texts(g.cells@) =~~= normal_template_texts().1);
        g
    }

    fn kv_template() -> (g: GableData)
        ensures
            (row_texts(g.heads@), row_texts(g.cells@)) == kv_template_texts(),
            unfilled(g.heads@),
            unfilled(g.cells@),
    {
        let heads = vec![plain_row(vec!["key", "Data Type", "Target", "Link Info", "Value", "Description"])];
        let g = GableData { heads, cells: Vec::new() };
        assert(row_texts(g.heads@) =~~= kv_template_texts().0);
        assert(row_texts(g.cells@) =~~= kv_template_texts().1);
        g
    }

    fn enum_template() -> (g: GableData)
        ensures
            (row_texts(g.heads@), row_texts(g.cells@)) == enum_template_texts(),
            unfilled(g.heads@),
            unfilled(g.cells@),
    {
        let heads = vec![plain_row(vec!["Field Name", "Value", "Description"])];
        let g = GableData { heads, cells: Vec::new() };
        assert(row_texts(g.heads@) =~~= enum_template_texts().0);
        assert(row_texts(g.cells@) =~~= enum_template_texts().1);
        g
    }

    fn localize_template() -> (g: GableData)
        ensures
            (row_texts(g.heads@), row_texts(g.cells@)) == localize_template_texts(),
            unfilled(g.heads@),
            unfilled(g.cells@),
    {
        let heads = vec![plain_row(vec!["ID"]), plain_row(vec!["*key"]), plain_row(vec!["string"]), Vec::new(), Vec::new()];
        let g = GableData { heads, cells: Vec::new() };
        assert(row_texts(g.heads@) =~~= localize_template_texts().0);
        assert(row_texts(g.cells@) =~~= localize_template_texts().1);
        g
    }
}

/// Reads the cell at row `r`, column `c`, when there is one.
pub fn cell_ref(rows: &Vec<Vec<CellData>>, r: usize, c: usize) -> (x: Option<&CellData>)
    ensures
        match x {
            Some(v) => cell_at(rows@, r as int, c as int) == Some(*v),
            None => cell_at(rows@, r as int, c as int) is None,
        },
{
    if r < rows.len() && c < rows[r].len() {
        Some(&rows[r][c])
    } else {
        None
    }
}

/// Whether the cell at row `r`, column `c` exists and its text is not empty.
pub fn lawful_cell(rows: &Vec<Vec<CellData>>, r: usize, c: usize) -> (b: bool)
    ensures
        b == lawful_at(rows@, r as int, c as int),
{
    match cell_ref(rows, r, c) {
        Some(x) => x.verify_lawful(),
        None => false,
    }
}

/// Whether the cell at row `r`, column `c` exists and its text contains `p`.
pub fn cell_contains(rows: &Vec<Vec<CellData>>, r: usize, c: usize, p: &[char]) -> (b: bool)
    ensures
        b == (cell_at(rows@, r as int, c as int) is Some && has_infix(text_at(rows@, r as int, c as int), p@)),
{
    match cell_ref(rows, r, c) {
        Some(x) => {
            let t = chars_of(x.value.as_str());
            contains(t.as_slice(), p)
        },
        None => false,
    }
}

/// Every row is at most as long as the longest one.
pub proof fn lemma_longest_row(rows: Seq<Vec<CellData>>, r: int)
    requires
        0 <= r < rows.len(),
    ensures
        rows[r]@.len() <= longest_row(rows),
    decreases rows.len(),
{
    if r < rows.len() - 1 {
        lemma_longest_row(rows.drop_last(), r);
        assert(rows.drop_last()[r] == rows[r]);
    }
}

impl GableData {
    fn valid_head_at(&self, keyword: &[char], c: usize) -> (b: bool)
        ensures
            b == self.is_valid_head(keyword@, c as int),
    {
        lawful_cell(&self.heads, TABLE_NORMAL_ROW_FIELD, c)
            && lawful_cell(&self.heads, TABLE_NORMAL_ROW_TYPE, c)
            && lawful_cell(&self.heads, TABLE_NORMAL_ROW_KEYWORD, c)
            && cell_contains(&self.heads, TABLE_NORMAL_ROW_KEYWORD, c, keyword)
    }

    /// The header columns of a normal (or localisation) table that carry
    /// data for the keyword: a non-empty field name, a non-empty type and a
    /// non-empty export keyword that contains `keyword`. The first vector
    /// holds the primary-key columns (field name with a `*`), the second the
    /// others, each in ascending column order. A column's description and
    /// link cells are read from the header rows at the same column.
    pub fn get_valid_normal_heads(&self, keyword: &str) -> (r: (Vec<usize>, Vec<usize>))
        ensures
            r.0@ == self.valid_heads(keyword@, true),
            r.1@ == self.valid_heads(keyword@, false),
    {
        let kw = chars_of(keyword);
        let star = chars_of("*");
        let max_col = self.get_max_col();
        let mut main: Vec<usize> = Vec::new();
        let mut others: Vec<usize> = Vec::new();
        let mut c: usize = 0;
        while c < max_col
            invariant
                c <= max_col,
                max_col == self.max_col(),
                kw@ == keyword@,
                star@ == "*"@,
                main@ == self.head_columns(keyword@, true, c as nat),
                others@ == self.head_columns(keyword@, false, c as nat),
            decreases max_col - c,
        {
            if self.valid_head_at(kw.as_slice(), c) {
                if cell_contains(&self.heads, TABLE_NORMAL_ROW_FIELD, c, star.as_slice()) {
                    main.push(c);
                } else {
                    others.push(c);
                }
            }
            c = c + 1;
        }
        (main, others)
    }
}

proof fn lemma_longest_row_bounded(rows: Seq<Vec<CellData>>)
    ensures
        longest_row(rows) <= usize::MAX,
    decreases rows.len(),
{
    if rows.len() > 0 {
        lemma_longest_row_bounded(rows.drop_last());
        assert(rows.last()@.len() == rows.last().len());
    }
}

proof fn lemma_max_col_bounded(g: GableData)
    ensures
        g.max_col() <= usize::MAX,
{
    lemma_longest_row_bounded(g.heads@);
    lemma_longest_row_bounded(g.cells@);
}

/// The columns of `valid_heads` are exactly the valid columns of the
/// requested key-ness, each once, in ascending order.
pub proof fn lemma_valid_heads_exact(g: GableData, keyword: Seq<char>, key: bool)
    ensures
        ({
            let s = g.valid_heads(keyword, key);
            &&& forall|i: int, j: int| 0 <= i < j < s.len() ==> s[i] < s[j]
            &&& forall|i: int| 0 <= i < s.len() ==> g.is_valid_head(keyword, s[i] as int)
                && g.is_key_head(s[i] as int) == key
            &&& forall|c: int| g.is_valid_head(keyword, c) && g.is_key_head(c) == key
                ==> s.contains(c as usize)
        }),
{
    lemma_max_col_bounded(g);
    lemma_head_columns_exact(g, keyword, key, g.max_col());
    assert forall|c: int| g.is_valid_head(keyword, c) && g.is_key_head(c) == key
        implies g.valid_heads(keyword, key).contains(c as usize) by {
        lemma_longest_row(g.heads@, TABLE_NORMAL_ROW_FIELD as int);
    }
}

proof fn lemma_head_columns_exact(g: GableData, keyword: Seq<char>, key: bool, n: nat)
    requires
        n <= usize::MAX + 1,
    ensures
        ({
            let s = g.head_columns(keyword, key, n);
            &&& forall|i: int, j: int| 0 <= i < j < s.len() ==> s[i] < s[j]
            &&& forall|i: int| 0 <= i < s.len() ==> s[i] < n && g.is_valid_head(keyword, s[i] as int)
                && g.is_key_head(s[i] as int) == key
            &&& forall|c: int| 0 <= c < n && g.is_valid_head(keyword, c) && g.is_key_head(c) == key
                ==> s.contains(c as usize)
        }),
    decreases n,
{
    if n > 0 {
        lemma_head_columns_exact(g, keyword, key, (n - 1) as nat);
        let prev = g.head_columns(keyword, key, (n - 1) as nat);
        let s = g.head_columns(keyword, key, n);
        assert forall|i: int, j: int| 0 <= i < j < s.len() implies s[i] < s[j] by {
            if j == s.len() - 1 && s.len() > prev.len() {
                assert(s[i] == prev[i]);
            } else {
                assert(s[i] == prev[i] && s[j] == prev[j]);
            }
        }
        assert forall|i: int| 0 <= i < s.len() implies s[i] < n && g.is_valid_head(keyword, s[i] as int)
            && g.is_key_head(s[i] as int) == key by {
            if i < prev.len() {
                assert(s[i] == prev[i]);
            }
        }
        assert forall|c: int| 0 <= c < n && g.is_valid_head(keyword, c) && g.is_key_head(c) == key
            implies s.contains(c as usize) by {
            if c < n - 1 {
                let k = choose|k: int| 0 <= k < prev.len() && prev[k] == c as usize;
                assert(s[k] == c as usize);
            } else {
                assert(s[s.len() - 1] == c as usize);
            }
        }
    }
}

} // verus!
