//! Table data, cells, enumerations and the file tree.
pub mod action_command;

pub mod edata_type;
pub mod edevelop_type;
pub mod eitem_type;
pub mod esheet_type;
pub mod etarget_type;
pub mod watcher_data;
pub mod cell_data;
pub mod gable_data;
pub mod tree_data;
pub mod tree_build;
pub mod tree_item;
pub mod gables;
pub mod log;
