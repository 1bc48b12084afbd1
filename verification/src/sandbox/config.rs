//! Settings of the sandboxer.

use crate::text::{lower, same, to_lower};
use vstd::prelude::*;

verus! {

/// How the memory of a restored guest comes from its snapshot.
#[derive(Clone, Copy, Debug, PartialEq, Eq, Structural)]
pub enum MemoryRestoreMode {
    /// It is copied. The snapshot is not needed afterwards.
    Copy,
    /// Pages are loaded from the snapshot when they are touched.
    OnDemand,
    /// The snapshot is mapped.
    FileBackend,
    /// Another process provides the pages.
    ExternalUffd,
}

impl Default for MemoryRestoreMode {
    fn default() -> (r: Self)
        ensures
            r is Copy,
    {
        MemoryRestoreMode::Copy
    }
}

impl MemoryRestoreMode {
    /// The name of a mode in a configuration file, in lower case.
    pub open spec fn name_text(self) -> Seq<char> {
        match self {
            MemoryRestoreMode::Copy => "copy"@,
            MemoryRestoreMode::OnDemand => "ondemand"@,
            MemoryRestoreMode::FileBackend => "filebackend"@,
            MemoryRestoreMode::ExternalUffd => "externaluffd"@,
        }
    }

    /// The mode that a configuration file names, in letters of either case.
    pub fn from_name(name: &str) -> (r: Option<MemoryRestoreMode>)
        ensures
            match r {
                Some(mode) => lower(name@) == mode.name_text(),
                None => forall|m: MemoryRestoreMode| lower(name@) != #[trigger] m.name_text(),
            },
    {
        let name = to_lower(name);
        if same(name.as_str(), "copy") {
            Some(MemoryRestoreMode::Copy)
        } else if same(name.as_str(), "ondemand") {
            Some(MemoryRestoreMode::OnDemand)
        } else if same(name.as_str(), "filebackend") {
            Some(MemoryRestoreMode::FileBackend)
        } else if same(name.as_str(), "externaluffd") {
            Some(MemoryRestoreMode::ExternalUffd)
        } else {
            None
        }
    }
}

/// No two modes have one name.
pub proof fn lemma_mode_names_differ(a: MemoryRestoreMode, b: MemoryRestoreMode)
    requires
        a.name_text() == b.name_text(),
    ensures
        a == b,
{
    reveal_strlit("copy");
    reveal_strlit("ondemand");
    reveal_strlit("filebackend");
    reveal_strlit("externaluffd");
    assert("copy"@.len() == 4 && "ondemand"@.len() == 8);
    assert("filebackend"@.len() == 11 && "externaluffd"@.len() == 12);
}

/// How many guests are restored at once, unless something else is set.
pub const DEFAULT_MAX_CONCURRENT_RESTORES: usize = 4;

/// The settings for starting sandboxes from snapshots.
#[derive(Clone, Copy, Debug, PartialEq, Eq, Structural)]
pub struct SnapshotConfig {
    pub enable_environment_restore: bool,
    pub enable_warmfork_restore: bool,
    pub enable_continuation_restore: bool,
    pub max_concurrent_restores: usize,
    /// Boot afresh where no snapshot fits.
    pub fallback_to_fresh_boot: bool,
    pub default_memory_restore_mode: MemoryRestoreMode,
}

impl Default for SnapshotConfig {
    fn default() -> (r: Self)
        ensures
            !r.enable_environment_restore,
            !r.enable_warmfork_restore,
            !r.enable_continuation_restore,
            r.max_concurrent_restores == DEFAULT_MAX_CONCURRENT_RESTORES,
            r.fallback_to_fresh_boot,
            r.default_memory_restore_mode is Copy,
    {
        SnapshotConfig {
            enable_environment_restore: false,
            enable_warmfork_restore: false,
            enable_continuation_restore: false,
            max_concurrent_restores: DEFAULT_MAX_CONCURRENT_RESTORES,
            fallback_to_fresh_boot: true,
            default_memory_restore_mode: MemoryRestoreMode::Copy,
        }
    }
}

impl SnapshotConfig {
    /// How many guests are restored at once, unless something else is set.
    pub fn default_max_concurrent_restores() -> (r: usize)
        ensures
            r == 4,
    {
        DEFAULT_MAX_CONCURRENT_RESTORES
    }

    /// Whether sandboxes are started from snapshots of any type.
    pub open spec fn any_enabled(self) -> bool {
        self.enable_warmfork_restore || self.enable_continuation_restore
            || self.enable_environment_restore
    }

    /// Whether sandboxes are started from snapshots of any type.
    pub fn any_snapshot_restore_enabled(&self) -> (r: bool)
        ensures
            r == self.any_enabled(),
    {
        self.enable_warmfork_restore || self.enable_continuation_restore
            || self.enable_environment_restore
    }
}

/// The settings of the sandboxer.
pub struct SandboxConfig {
    pub log_level: String,
    pub enable_tracing: bool,
    pub snapshot: SnapshotConfig,
}

impl SandboxConfig {
    /// The log level.
    pub fn log_level(&self) -> (r: String)
        ensures
            r@ == self.log_level@,
    {
        self.log_level.clone()
    }

    /// Whether traces are recorded.
    pub fn enable_tracing(&self) -> (r: bool)
        ensures
            r == self.enable_tracing,
    {
        self.enable_tracing
    }
}

/// What becomes of a template once a sandbox was restored from it.
#[derive(Clone, Copy, Debug, PartialEq, Eq, Structural)]
pub enum TemplateLeaseMode {
    /// It stays, and several sandboxes can be restored from it.
    Shared,
    /// It is used up.
    Exclusive,
}

impl Default for TemplateLeaseMode {
    fn default() -> (r: Self)
        ensures
            r is Shared,
    {
        TemplateLeaseMode::Shared
    }
}

impl TemplateLeaseMode {
    /// The mode in words.
    pub fn to_string(&self) -> (r: String)
        ensures
            r@ == (match *self {
                TemplateLeaseMode::Shared => "shared"@,
                TemplateLeaseMode::Exclusive => "exclusive"@,
            }),
    {
        match self {
            TemplateLeaseMode::Shared => "shared".to_owned(),
            TemplateLeaseMode::Exclusive => "exclusive".to_owned(),
        }
    }
}

/// Devices of the host that guests may use.
#[derive(Debug)]
pub struct StaticDeviceSpec {
    pub host_path: Vec<String>,
    pub bdf: Vec<String>,
}

} // verus!
