//! Sandbox profiles: what kind of guest a sandbox boots.

use crate::guest_runtime::{fresh_runtime, GuestRuntime, RuntimeKind};
use crate::text::concat;
use vstd::prelude::*;

verus! {

/// The disk image of an appliance, an absolute path on the host.
pub const ANNOTATION_APPLIANCE_IMAGE: &'static str = "io.kuasar.appliance.image";

/// The executable of an appliance.
pub const ANNOTATION_APPLIANCE_APP: &'static str = "io.kuasar.appliance.app";

/// The arguments of an appliance, a JSON list of strings.
pub const ANNOTATION_APPLIANCE_ARGS: &'static str = "io.kuasar.appliance.args";

/// What stands before the name of an environment variable of an appliance.
pub const ANNOTATION_APPLIANCE_ENV_PREFIX: &'static str = "io.kuasar.appliance.env.";

/// The interval between two heartbeats of an appliance, in milliseconds.
pub const ANNOTATION_APPLIANCE_HEARTBEAT_MS: &'static str = "io.kuasar.appliance.heartbeat_ms";

/// The readiness probe of an appliance.
pub const ANNOTATION_APPLIANCE_READY_CHECK: &'static str = "io.kuasar.appliance.ready_check";

/// The timeout of the readiness probe, in milliseconds.
pub const ANNOTATION_APPLIANCE_READY_TIMEOUT_MS: &'static str =
    "io.kuasar.appliance.ready_timeout_ms";

/// What kind of guest a sandbox boots.
#[derive(Clone, Copy, Debug, PartialEq, Eq, Structural)]
pub enum SandboxProfile {
    /// A guest with `vmm-task`, which runs the containers of a pod.
    Standard,
    /// A guest whose image is the workload.
    Appliance,
}

impl Default for SandboxProfile {
    fn default() -> (r: Self)
        ensures
            r is Standard,
    {
        SandboxProfile::Standard
    }
}

impl SandboxProfile {
    /// The protocol that a guest of this profile speaks.
    pub fn runtime_kind(&self) -> (r: RuntimeKind)
        ensures
            r == (match *self {
                SandboxProfile::Standard => RuntimeKind::VmmTask,
                SandboxProfile::Appliance => RuntimeKind::Appliance,
            }),
    {
        match self {
            SandboxProfile::Standard => RuntimeKind::VmmTask,
            SandboxProfile::Appliance => RuntimeKind::Appliance,
        }
    }

    /// The host's side of the protocol that a guest of this profile speaks.
    pub fn create_runtime(&self, sandbox_id: &str, default_app: &str) -> (r: GuestRuntime)
        ensures
            fresh_runtime(
                r,
                (match *self {
                    SandboxProfile::Standard => RuntimeKind::VmmTask,
                    SandboxProfile::Appliance => RuntimeKind::Appliance,
                }),
                sandbox_id@,
                default_app@,
            ),
    {
        self.runtime_kind().create_runtime(sandbox_id, default_app)
    }

    /// Whether a guest of this profile shares a directory with the host.
    pub fn needs_virtiofsd(&self) -> (r: bool)
        ensures
            r == (*self is Standard),
    {
        matches!(self, SandboxProfile::Standard)
    }

    /// Where containerd finds the task service of a guest whose agent listens on
    /// `agent_socket`; an appliance has none.
    pub fn task_address(&self, agent_socket: &str) -> (r: Option<String>)
        ensures
            match r {
                Some(address) => *self is Standard && address@ == "ttrpc+"@ + agent_socket@,
                None => *self is Appliance,
            },
    {
        match self {
            SandboxProfile::Standard => Some(concat("ttrpc+", agent_socket)),
            SandboxProfile::Appliance => None,
        }
    }
}

} // verus!
