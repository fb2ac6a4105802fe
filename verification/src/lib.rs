//! Process and system monitoring logic: models, parsers for `/proc` text,
//! process-tree queries, filtering and ordering of process tables.

pub mod about;
pub mod collect;
pub mod config;
pub mod data;
pub mod laws;
pub mod lucide;
pub mod model;
pub mod platform;
pub mod snapshot;
pub mod text;
