//! Request parsing and partial-reload selection.

pub mod context;
pub mod header_list;
pub mod selection;
