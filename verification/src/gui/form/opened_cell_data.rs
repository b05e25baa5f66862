//! A cell picked out of a sheet, with its position.
use crate::gui::datas::cell_data::CellData;
use vstd::prelude::*;

verus! {

/// A cell's text with its row and column.
#[derive(Debug, Clone)]
pub struct OpenedCellData {
    /// The cell's row.
    pub row: u32,
    /// The cell's column.
    pub column: u16,
    /// The cell's text.
    pub value: String,
}

impl OpenedCellData {
    /// The text of `cell` placed at `row`, `column`.
    pub fn new(cell: &CellData, row: u32, column: u16) -> (o: Self)
        ensures
            o.row == row,
            o.column == column,
            o.value@ == cell.value@,
    {
        Self { row, column, value: cell.value.clone() }
    }
}

} // verus!
