//! Verified core of an Inertia.js protocol adapter.

mod text;
pub mod json;
pub mod assets;
pub mod engine;
pub mod visit;
pub mod ssr;
pub mod form;
pub mod str_map;
pub mod lists;
pub mod page;
pub mod props;
pub mod request;
pub mod transient;
pub mod cookie_store;
pub mod redirect;
pub mod html;
pub mod adapter;
pub mod guard;
