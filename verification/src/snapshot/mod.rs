//! Snapshots of applications: keeping them, restoring from them and holding
//! restored guests in readiness.

pub mod error;
pub mod manager;
pub mod metrics;
pub mod mgmt_server;
pub mod post_restore;
pub mod store;
pub mod warm_pool;
