//! A personal GPA tracker: courses, grading systems, statistics and reports.

pub mod text;
pub mod utils;
pub mod decimal;
pub mod commands;
pub mod model;
pub mod report;
pub mod settings;
pub mod ui;
