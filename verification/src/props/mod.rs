//! Prop policies, pending props, and route-local lazy props.

pub mod lazy;
pub mod pending;
pub mod policy;
