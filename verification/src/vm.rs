//! What all hypervisors have in common.

use crate::string_map::StringMap;
use vstd::prelude::*;

verus! {

/// The way of sharing files with the guest that hot-plugs block devices.
pub const SHAREFS_VIRTIO_BLK: &'static str = "virtio-blk";

/// The way of sharing files with the guest that mounts a host directory.
pub const SHAREFS_VIRTIOFS: &'static str = "virtiofs";

/// The settings that every hypervisor takes.
pub struct HypervisorCommonConfig {
    pub debug: bool,
    pub vcpus: u32,
    pub memory_in_mb: u32,
    pub kernel_path: String,
    pub image_path: String,
    pub initrd_path: String,
    pub kernel_params: String,
    pub sharefs_type: String,
}

impl Default for HypervisorCommonConfig {
    fn default() -> (r: Self)
        ensures
            !r.debug,
            r.vcpus == 1,
            r.memory_in_mb == 1024,
            r.kernel_path@ == "/var/lib/kuasar/vmlinux.bin"@,
            r.image_path@ == ""@,
            r.initrd_path@ == "/var/lib/kuasar/kuasar.initrd"@,
            r.kernel_params@ == ""@,
            r.sharefs_type@ == "virtiofs"@,
    {
        HypervisorCommonConfig {
            debug: false,
            vcpus: 1,
            memory_in_mb: 1024,
            kernel_path: "/var/lib/kuasar/vmlinux.bin".to_owned(),
            image_path: "".to_owned(),
            initrd_path: "/var/lib/kuasar/kuasar.initrd".to_owned(),
            kernel_params: "".to_owned(),
            sharefs_type: SHAREFS_VIRTIOFS.to_owned(),
        }
    }
}

/// The processes of a VM.
pub struct Pids {
    pub vmm_pid: Option<u32>,
    pub affiliated_pids: Vec<u32>,
}

// ── Warm forks ──────────────────────────────────────────────────────────────

/// The task that a restored workload gets. Without one it starts by itself.
pub const ANNOTATION_WARM_FORK_TASK_ID: &'static str = "kuasar.io/task-id";

/// The containers of a pod that wait for a task, separated by commas.
pub const ANNOTATION_WARM_FORK_CONTAINERS: &'static str = "kuasar.io/warm-fork-containers";

/// The socket on which a workload waits for its task.
pub const ANNOTATION_WARM_FORK_READINESS_SOCKET: &'static str =
    "kuasar.io/warm-fork-readiness-socket";

/// The socket of a workload that names none.
pub const ANNOTATION_WARM_FORK_DEFAULT_READINESS_SOCKET: &'static str =
    "/run/kuasar/warm-fork-ready.sock";

/// What a workload is told beside its task.
pub const ANNOTATION_WARM_FORK_TASK_CONTEXT: &'static str = "kuasar.io/task-context";

/// What stands before the name of an environment variable of a task.
pub const ANNOTATION_WARM_FORK_ENV_PREFIX: &'static str = "kuasar.io/task-env/";

/// The protocol that a waiting workload speaks.
pub const ANNOTATION_WARM_FORK_READY_PROTOCOL: &'static str =
    "kuasar.io/warm-fork-ready-protocol";

/// The protocol that is understood.
pub const WARM_FORK_PROTOCOL_V1: &'static str = "v1";

/// A container of a restored guest that gets a task.
pub struct WarmForkTarget {
    /// Empty where the pod has one container only.
    pub container_name: String,
    /// Known only from the snapshot.
    pub container_id: String,
    pub socket_path: String,
    pub env_overrides: StringMap,
    pub context: String,
}

/// The tasks of a restored guest.
pub struct WarmForkParams {
    /// Absent where the workload starts by itself.
    pub task_id: Option<String>,
    pub targets: Vec<WarmForkTarget>,
    pub prepare_timeout_ms: u32,
    pub commit_timeout_ms: u32,
}

} // verus!
