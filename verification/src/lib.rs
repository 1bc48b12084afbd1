//! The decision-making core of a VM-based container sandboxer.

pub mod cloud_hypervisor;
pub mod guest_runtime;
pub mod json;
pub mod metrics_server;
pub mod order;
pub mod profile;
pub mod resolver;
pub mod sandbox;
pub mod service;
pub mod snapshot;
pub mod storage;
pub mod string_map;
pub mod template;
pub mod text;
pub mod text_map;
pub mod vm;
