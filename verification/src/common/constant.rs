//! Layout of the four table kinds and the spellings of the data types.
use vstd::prelude::*;

verus! {

/// File extension of a stored sheet.
pub const GABLE_FILE_TYPE: &'static str = ".gable";

/// Normal table: row of the column descriptions.
pub const TABLE_NORMAL_ROW_DESC: usize = 0;
/// Normal table: row of the field names (a `*` marks a primary key).
pub const TABLE_NORMAL_ROW_FIELD: usize = 1;
/// Normal table: row of the data types.
pub const TABLE_NORMAL_ROW_TYPE: usize = 2;
/// Normal table: row of the export keywords.
pub const TABLE_NORMAL_ROW_KEYWORD: usize = 3;
/// Normal table: row of the enum / localisation links.
pub const TABLE_NORMAL_ROW_LINK: usize = 4;
/// Normal table: number of header rows.
pub const TABLE_NORMAL_ROW_TOTAL: usize = 5;

/// Localisation table: row of the descriptions.
pub const TABLE_LOCALIZE_ROW_DESC: usize = 0;
/// Localisation table: row of the field names.
pub const TABLE_LOCALIZE_ROW_FIELD: usize = 1;
/// Localisation table: row of the data types.
pub const TABLE_LOCALIZE_ROW_TYPE: usize = 2;
/// Localisation table: number of header rows.
pub const TABLE_LOCALIZE_ROW_TOTAL: usize = 5;

/// Key-value table: column of the key.
pub const TABLE_KV_COL_FIELD: usize = 0;
/// Key-value table: column of the data type.
pub const TABLE_KV_COL_TYPE: usize = 1;
/// Key-value table: column of the export keyword.
pub const TABLE_KV_COL_KEYWORD: usize = 2;
/// Key-value table: column of the enum / localisation link.
pub const TABLE_KV_COL_LINK: usize = 3;
/// Key-value table: column of the value.
pub const TABLE_KV_COL_VALUE: usize = 4;
/// Key-value table: column of the comment.
pub const TABLE_KV_COL_DESC: usize = 5;
/// Key-value table: number of header rows.
pub const TABLE_KV_ROW_TOTAL: usize = 1;

/// Enum table: column of the member name.
pub const TABLE_ENUM_COL_FIELD: usize = 0;
/// Enum table: column of the member value.
pub const TABLE_ENUM_COL_VALUE: usize = 1;
/// Enum table: column of the comment.
pub const TABLE_ENUM_COL_DESC: usize = 2;
/// Enum table: number of header rows.
pub const TABLE_ENUM_ROW_TOTAL: usize = 1;

} // verus!
