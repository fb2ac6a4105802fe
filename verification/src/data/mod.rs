//! The process-table data layer: model, configuration and their logic.

pub mod config;
pub mod fuzzy;
pub mod gpu;
pub mod icons;
pub mod merge;
pub mod model;
pub mod platform;
pub mod processes;
pub mod settings;
pub mod theme;
pub mod window_picker;
