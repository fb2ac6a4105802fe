//! Operating-system specific classification of processes.

pub mod linux;
