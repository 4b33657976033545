//! Extraction, rendering and search of Rust item signatures.
pub mod text;
pub mod types;
pub mod model;
pub mod collector;
pub mod item_kinds;
pub mod syntax;
pub mod search;
pub mod analyze;
pub mod version;
pub mod registry;
