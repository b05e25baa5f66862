//! The four kinds of table.
use vstd::prelude::*;

verus! {

/// The kind of a table, decided by the workspace folder it lives in.
#[derive(Debug, Clone, Copy, PartialEq, Eq, Structural)]
pub enum ESheetType {
    /// A normal data table.
    Normal,
    /// A localisation table.
    Localize,
    /// A key-value table.
    KV,
    /// An enum table.
    Enum,
}

} // verus!
