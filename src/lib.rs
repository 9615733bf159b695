//! Aggregation of launchable desktop applications from start-menu shortcuts and
//! uninstall-registry entries into one deduplicated, name-sorted catalog.

pub mod text;
pub mod paths;
pub mod envvars;
pub mod identity;
pub mod catalog;
pub mod shortcut;
pub mod registry;
pub mod scan;
pub mod laws;
pub mod defaults;
pub mod error;
pub mod clipboard;
pub mod screenshot;
pub mod window;
pub mod pixels;
