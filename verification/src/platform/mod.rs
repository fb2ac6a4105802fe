//! First-generation platform layer.

pub mod linux;
