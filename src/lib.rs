//! Synchronise descriptive metadata between audio tag containers, and
//! exchange it in bulk through a tab-delimited table.

pub mod text;
pub mod paths;
pub mod error;
pub mod attributes;
pub mod table;
pub mod convert;
pub mod apply;
pub mod cli;
