//! The process table: parent links, tree queries and the table delegate.

pub mod lineage;
pub mod totals;
pub mod rank;
pub mod delegate;
pub mod tree;
