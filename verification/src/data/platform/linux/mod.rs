//! Linux: init systems and service detection.

pub mod system;
pub mod process_details;
