//! Shared constants, text operations, dates and paths.

pub mod calendar;
pub mod constant;
pub mod text;
pub mod utils;
