//! A simple node of a named tree, as the navigation prototype keeps it.
use vstd::prelude::*;

verus! {

/// The kind of a node.
#[derive(Debug, Clone, Copy, PartialEq, Eq, Structural)]
pub enum ItemType {
    /// A folder.
    Folder,
    /// A workbook.
    Excel,
    /// A sheet.
    Sheet,
}

/// A node with an id, a name and children.
#[derive(Debug)]
pub struct TreeItem {
    /// The node's id.
    pub id: String,
    /// The node's name.
    pub name: String,
    /// Whether the node is expanded.
    pub is_open: bool,
    /// The kind of node.
    pub item_type: ItemType,
    /// The child nodes.
    pub children: Vec<TreeItem>,
}

} // verus!
