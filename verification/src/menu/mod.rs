//! Native-menu model and action routing, the platform-agnostic half of native
//! menus: a closure-free menu tree whose actionable items carry stable ids,
//! and a registry from those ids to the handlers that run on activation.
pub mod model;
pub mod routing;

pub use model::{Menu, MenuAction, MenuId, MenuItem, SubMenu};
pub use routing::MenuRegistry;
