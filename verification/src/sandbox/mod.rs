//! Sandboxes.

pub mod config;
pub mod containers;
pub mod data;
pub mod files;
pub mod inject;
pub mod intent;
pub mod lifecycle;
pub mod pool_start;
pub mod recover;
pub mod refs;
pub mod restore;
pub mod sandboxer;
pub mod start;
pub mod state;
pub mod template_pool;
