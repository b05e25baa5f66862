//! The kinds of node in the file tree.
use vstd::prelude::*;

verus! {

/// The kind of a node in the workspace tree.
#[derive(Debug, Clone, Copy, PartialEq, Eq, Structural)]
pub enum EItemType {
    /// A folder.
    Folder,
    /// A workbook, grouping the sheets stored under one name.
    Excel,
    /// A sheet file.
    Sheet,
}

} // verus!
