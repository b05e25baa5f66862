//! What the preview shows of opened workbooks and sheets.
pub mod gable_form;
pub mod opened_cell_data;
pub mod opened_excel;
pub mod opened_gable_data;
pub mod opened_sheet;
