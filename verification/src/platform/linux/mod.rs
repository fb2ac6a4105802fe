//! Linux: init systems and service detection, first generation.

pub mod system;
