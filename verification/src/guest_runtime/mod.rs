//! The coordination protocols between the host and the agent in the guest.

pub mod appliance;
pub mod vmm_task;

use crate::guest_runtime::appliance::ApplianceRuntime;
use crate::guest_runtime::vmm_task::VmmTaskRuntime;
use crate::text::same;
use vstd::prelude::*;

verus! {

/// Which protocol a guest speaks. It is kept with the sandbox, so that the same
/// one is taken up again after a restart of the host process.
#[derive(Clone, Copy, Debug, PartialEq, Eq, Structural)]
pub enum RuntimeKind {
    /// `vmm-task`, over ttrpc and vsock.
    VmmTask,
    /// An appliance guest, which connects to the host by itself.
    Appliance,
}

impl Default for RuntimeKind {
    fn default() -> (r: Self)
        ensures
            r is VmmTask,
    {
        RuntimeKind::VmmTask
    }
}

impl RuntimeKind {
    /// The name under which the kind is stored.
    pub open spec fn name_text(self) -> Seq<char> {
        match self {
            RuntimeKind::VmmTask => "vmm_task"@,
            RuntimeKind::Appliance => "appliance"@,
        }
    }

    /// The name under which the kind is stored.
    pub fn name(&self) -> (r: &'static str)
        ensures
            r@ == self.name_text(),
    {
        match self {
            RuntimeKind::VmmTask => "vmm_task",
            RuntimeKind::Appliance => "appliance",
        }
    }

    /// The kind that is stored under a name.
    pub fn from_name(name: &str) -> (r: Option<RuntimeKind>)
        ensures
            match r {
                Some(kind) => kind.name_text() == name@,
                None => name@ != "vmm_task"@ && name@ != "appliance"@,
            },
    {
        if same(name, "vmm_task") {
            Some(RuntimeKind::VmmTask)
        } else if same(name, "appliance") {
            Some(RuntimeKind::Appliance)
        } else {
            None
        }
    }
}

/// The host's side of a protocol, in the state in which it is.
pub enum GuestRuntime {
    VmmTask(VmmTaskRuntime),
    Appliance(ApplianceRuntime),
}

/// Whether `r` is the host's side of a protocol before any contact with the guest.
pub open spec fn fresh_runtime(
    r: GuestRuntime,
    kind: RuntimeKind,
    sandbox_id: Seq<char>,
    default_app: Seq<char>,
) -> bool {
    match r {
        GuestRuntime::VmmTask(runtime) => kind is VmmTask && runtime.client is None,
        GuestRuntime::Appliance(runtime) => {
            &&& kind is Appliance
            &&& runtime.sandbox_id@ == sandbox_id
            &&& runtime.default_app@ == default_app
            &&& !runtime.connection.reader && !runtime.connection.writer
        },
    }
}

impl RuntimeKind {
    /// The host's side of the protocol, for a new sandbox or for one that is taken up
    /// again. The executable is that of an appliance whose pod names none.
    pub fn create_runtime(&self, sandbox_id: &str, default_app: &str) -> (r: GuestRuntime)
        ensures
            fresh_runtime(r, *self, sandbox_id@, default_app@),
    {
        match self {
            RuntimeKind::VmmTask => GuestRuntime::VmmTask(VmmTaskRuntime::new()),
            RuntimeKind::Appliance => GuestRuntime::Appliance(
                ApplianceRuntime::new(sandbox_id, default_app),
            ),
        }
    }
}

impl GuestRuntime {
    /// Whether the clock of the guest is kept in step with the host's. An appliance
    /// keeps its own.
    pub fn syncs_clock(&self) -> (r: bool)
        ensures
            r == (self is VmmTask),
    {
        matches!(self, GuestRuntime::VmmTask(_))
    }
}

/// A kind reads back from the name under which it is stored.
pub proof fn lemma_runtime_names_differ(a: RuntimeKind, b: RuntimeKind)
    requires
        a.name_text() == b.name_text(),
    ensures
        a == b,
{
    reveal_strlit("vmm_task");
    reveal_strlit("appliance");
    assert("vmm_task"@.len() == 8);
    assert("appliance"@.len() == 9);
}

} // verus!
