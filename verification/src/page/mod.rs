//! Page-object metadata.

pub mod metadata;
pub mod object;
pub mod shared;
pub mod model;
pub mod render;
pub mod dynamic;
