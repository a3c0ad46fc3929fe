//! Element-level logic.
pub mod text_area;
pub mod text_field;
pub mod toolbar;
pub mod tooltip;
pub mod tree;
