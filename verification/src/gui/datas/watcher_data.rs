//! What is recorded for a workbook that is open for editing.
use crate::gui::datas::esheet_type::ESheetType;
use vstd::prelude::*;

verus! {

/// The target of a workbook that is being edited outside the tool.
#[derive(Debug, Clone)]
pub struct WatcherData {
    /// Folder of the sheet files that the workbook is written back to.
    pub target_path: String,
    /// Kind of the tables in the workbook.
    pub sheet_type: ESheetType,
}

} // verus!
