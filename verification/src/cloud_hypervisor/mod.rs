//! Cloud Hypervisor.

pub mod appliance_factory;
pub mod appliance_hooks;
pub mod client;
pub mod config;
pub mod factory;
pub mod hooks;
pub mod snapshot;
pub mod vm;
