//! An opened workbook: its sheets as preview tabs.
use crate::gui::datas::tree_item::TreeItem;
use crate::gui::form::opened_sheet::{sheet_displayable, OpenedSheet};
use vstd::prelude::*;

verus! {

/// An opened workbook.
#[derive(Debug, Clone)]
pub struct OpenedExcel {
    /// The index of the selected sheet tab.
    pub selected_sheet_index: usize,
    /// The workbook's full path.
    pub full_path: String,
    /// The workbook's name.
    pub display_name: String,
    /// One tab per sheet.
    pub sheets: Vec<OpenedSheet>,
}

impl OpenedExcel {
    /// Opens a workbook node: its first tab selected and one tab per child
    /// sheet, in order.
    pub fn new(item: TreeItem, tree: &[TreeItem]) -> (e: Self)
        requires
            forall|i: int| 0 <= i < item.children@.len() ==> sheet_displayable(#[trigger] item.children@[i]),
        ensures
            e.selected_sheet_index == 0,
            e.full_path@ == item.fullpath@,
            e.display_name@ == item.display_name@,
            e.sheets@.len() == item.children@.len(),
            forall|i: int| 0 <= i < e.sheets@.len() ==> (#[trigger] e.sheets@[i]).is_tab_of(item.children@[i], tree@),
    {
        let sheets = Self::pairs_sheets(&item.children, tree);
        OpenedExcel { selected_sheet_index: 0, full_path: item.fullpath, display_name: item.display_name, sheets }
    }

    fn pairs_sheets(childs: &Vec<TreeItem>, tree: &[TreeItem]) -> (v: Vec<OpenedSheet>)
        requires
            forall|i: int| 0 <= i < childs@.len() ==> sheet_displayable(#[trigger] childs@[i]),
        ensures
            v@.len() == childs@.len(),
            forall|i: int| 0 <= i < v@.len() ==> (#[trigger] v@[i]).is_tab_of(childs@[i], tree@),
    {
        let mut sheets: Vec<OpenedSheet> = Vec::new();
        let mut i: usize = 0;
        while i < childs.len()
            invariant
                i <= childs@.len(),
                sheets@.len() == i,
                forall|k: int| 0 <= k < childs@.len() ==> sheet_displayable(#[trigger] childs@[k]),
                forall|k: int| 0 <= k < i ==> (#[trigger] sheets@[k]).is_tab_of(childs@[k], tree@),
            decreases childs.len() - i,
        {
            sheets.push(OpenedSheet::new(&childs[i], tree));
            i = i + 1;
        }
        sheets
    }
}

} // verus!
