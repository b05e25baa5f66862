//! Gable: the data model of a spreadsheet-to-config tool, with its table
//! layouts, cell parsing, field extraction, workspace tree, preview
//! projection and localisation, each stated by contract.
pub mod command_line;
pub mod common;
pub mod gui;
