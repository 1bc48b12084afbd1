//! The service interface: templates and sandboxes without a container runtime.

pub mod admin;
pub mod grpc;
pub mod sandbox;
pub mod snapshot;
