//! The preview of one sheet of an opened workbook.
use crate::gui::datas::tree_data::TreeData;
use crate::gui::datas::tree_item::TreeItem;
use crate::gui::form::opened_gable_data::{displayable, OpenedGableData};
use vstd::prelude::*;

verus! {

/// A sheet tab of the preview.
#[derive(Debug, Clone)]
pub struct OpenedSheet {
    /// The sheet's name.
    pub display_name: String,
    /// What the sheet shows.
    pub data: OpenedGableData,
}

/// The node's sheet, if it was read, can be previewed.
pub open spec fn sheet_displayable(item: TreeItem) -> bool {
    item.data matches Some(d) ==> displayable(d.gable_type, d.content)
}

impl OpenedSheet {
    /// This is the tab of the sheet node `item`.
    pub open spec fn is_tab_of(&self, item: TreeItem, tree: Seq<TreeItem>) -> bool {
        &&& self.display_name@ == item.display_name@
        &&& match item.data {
            Some(d) => self.data.is_preview_of(d.gable_type, d.content, tree),
            None => self.data.is_blank(),
        }
    }

    /// The tab of a sheet node: its name and the preview of its content (an
    /// empty preview when it was not read).
    pub fn new(item: &TreeItem, tree: &[TreeItem]) -> (s: Self)
        requires
            sheet_displayable(*item),
        ensures
            s.is_tab_of(*item, tree@),
    {
        let data = match &item.data {
            Some(d) => Self::pairs_data(d, tree),
            None => OpenedGableData { max_row: 0, max_col: 0, column_headers: Vec::new(), items: Vec::new() },
        };
        OpenedSheet { display_name: item.display_name.clone(), data }
    }

    fn pairs_data(data: &TreeData, tree: &[TreeItem]) -> (o: OpenedGableData)
        requires
            displayable(data.gable_type, data.content),
        ensures
            o.is_preview_of(data.gable_type, data.content, tree@),
    {
        OpenedGableData::new(data.gable_type, &data.content, tree)
    }
}

} // verus!
