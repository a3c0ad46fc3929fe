//! Editing, focus and interaction logic of the slate UI framework.
use vstd::prelude::*;

pub mod elements;
pub mod event;
pub mod executor;
pub mod focus;
pub mod font_cache;
pub mod image_cache;
pub mod hit_test;
pub mod ime;
pub mod ime_registry;
pub mod interaction;
pub mod map_keys;
pub mod menu;
pub mod order;
pub mod paint_cache;
pub mod persistence;
pub mod reactive_value;
pub mod readback;
pub mod text_edit;
pub mod time;
pub mod types;

verus! {

} // verus!
