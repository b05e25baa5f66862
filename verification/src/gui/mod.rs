//! The application's data and interface state.
pub mod datas;
pub mod file_watcher;
pub mod localization;
pub mod form;
pub mod gable_about;
pub mod gable_build_setting;
pub mod gable_explorer;
pub mod gable_menu;
pub mod gable_navigation;
pub mod gable_popup;
pub mod tree_item;
