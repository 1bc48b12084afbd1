//! The snapshot interface that pods are managed through: which requests are
//! refused, what they are turned into and what is told of a snapshot.

use crate::order::{comes_before, lemma_comes_before};
use crate::sandbox::lifecycle::after_end;
use crate::sandbox::state::{KuasarSandbox, SandboxStatus};
use crate::service::admin::PoolRemoval;
use crate::service::sandbox::{pod_uid_of, sandbox_pod_uid};
use crate::string_map::StringMap;
use crate::template::{
    identity_view, opt_identity_view, workload_key, PooledTemplate, SnapshotType, TemplateKey,
    WorkloadIdentity,
};
use crate::text::{
    concat, concat3, contains_char, decimal, decimal_u64, lemma_decimal_round_trip, opt_text,
    parse_u64, same,
};
use vstd::prelude::*;

verus! {

/// What a snapshot is for.
#[derive(Clone, Copy, Debug, PartialEq, Eq, Structural)]
pub enum SsiSnapshotMode {
    Unspecified,
    /// New sandboxes are made from it.
    Fork,
    /// Its sandbox is taken up again.
    Resume,
}

/// The snapshot type that a mode asks for.
pub open spec fn type_of(mode: SsiSnapshotMode) -> SnapshotType {
    if mode is Resume {
        SnapshotType::Continuation
    } else {
        SnapshotType::WarmFork
    }
}

/// The snapshot type that a mode asks for.
pub fn snapshot_type(mode: SsiSnapshotMode) -> (r: SnapshotType)
    ensures
        r == type_of(mode),
{
    match mode {
        SsiSnapshotMode::Resume => SnapshotType::Continuation,
        _ => SnapshotType::WarmFork,
    }
}

/// The mode that a snapshot type is told as.
pub open spec fn mode_of(t: SnapshotType) -> SsiSnapshotMode {
    if t is Continuation {
        SsiSnapshotMode::Resume
    } else {
        SsiSnapshotMode::Fork
    }
}

/// A snapshot that was taken in a mode is told as one of that mode.
pub proof fn lemma_mode_is_kept(mode: SsiSnapshotMode)
    requires
        !(mode is Unspecified),
    ensures
        mode_of(type_of(mode)) == mode,
        type_of(mode) is Continuation <==> mode is Resume,
        !(type_of(mode) is Environment),
{
}

/// What is told of a snapshot.
pub struct SandboxSnapshot {
    pub pod_uid: String,
    pub snapshot_name: String,
    pub mode: SsiSnapshotMode,
}

/// What is told of a snapshot.
pub open spec fn told(s: SandboxSnapshot) -> (Seq<char>, Seq<char>, SsiSnapshotMode) {
    (s.pod_uid@, s.snapshot_name@, s.mode)
}

/// What is told of snapshots.
pub open spec fn all_told(v: Seq<SandboxSnapshot>) -> Seq<(Seq<char>, Seq<char>, SsiSnapshotMode)> {
    Seq::new(v.len(), |i: int| told(v[i]))
}

/// What is told of a template.
pub fn template_to_proto(tmpl: &PooledTemplate, snapshot_name: &str, pod_uid: &str) -> (r:
    SandboxSnapshot)
    ensures
        told(r) == (pod_uid@, snapshot_name@, mode_of(tmpl.snapshot_type)),
{
    SandboxSnapshot {
        pod_uid: pod_uid.to_owned(),
        snapshot_name: snapshot_name.to_owned(),
        mode: match tmpl.snapshot_type {
            SnapshotType::Continuation => SsiSnapshotMode::Resume,
            _ => SsiSnapshotMode::Fork,
        },
    }
}

/// The state of a sandbox in words.
pub open spec fn status_word(status: SandboxStatus) -> Seq<char> {
    match status {
        SandboxStatus::Created => "created"@,
        SandboxStatus::Running(_) => "running"@,
        SandboxStatus::Stopped(_, _) => "stopped"@,
        SandboxStatus::Paused => "paused"@,
    }
}

/// The state of a sandbox in words.
pub fn sandbox_status_str(status: &SandboxStatus) -> (r: &'static str)
    ensures
        r@ == status_word(*status),
{
    match status {
        SandboxStatus::Created => "created",
        SandboxStatus::Running(_) => "running",
        SandboxStatus::Stopped(_, _) => "stopped",
        SandboxStatus::Paused => "paused",
    }
}

/// The name under which the interface is known.
pub const PLUGIN_NAME: &'static str = "kuasar-vmm-snapshot";

/// The modes in which snapshots can be taken.
pub fn plugin_capabilities() -> (r: Vec<SsiSnapshotMode>)
    ensures
        r@ == seq![SsiSnapshotMode::Fork, SsiSnapshotMode::Resume],
{
    let mut r: Vec<SsiSnapshotMode> = Vec::new();
    r.push(SsiSnapshotMode::Fork);
    r.push(SsiSnapshotMode::Resume);
    assert(r@ =~= seq![SsiSnapshotMode::Fork, SsiSnapshotMode::Resume]);
    r
}

// ── Sandboxes ───────────────────────────────────────────────────────────────

/// What the snapshot that a sandbox came from was for.
#[derive(Clone, Copy, Debug, PartialEq, Eq, Structural)]
pub enum SnapshotMode {
    Unspecified,
    WarmFork,
    Continuation,
}

/// What is told of a sandbox.
pub struct SandboxEntry {
    pub pod_uid: String,
    pub sandbox_id: String,
    pub snapshot_name: String,
    pub snapshot_mode: SnapshotMode,
    pub created_at_secs: i64,
    pub status: String,
}

/// The mode that a sandbox is listed with.
pub open spec fn listed_mode(t: Option<SnapshotType>) -> SnapshotMode {
    match t {
        Some(SnapshotType::WarmFork) => SnapshotMode::WarmFork,
        Some(SnapshotType::Continuation) => SnapshotMode::Continuation,
        _ => SnapshotMode::Unspecified,
    }
}

/// The mode that a single sandbox is told with: one that is no continuation counts
/// as a warm fork.
pub open spec fn shown_mode(t: Option<SnapshotType>) -> SnapshotMode {
    match t {
        Some(SnapshotType::Continuation) => SnapshotMode::Continuation,
        _ => SnapshotMode::WarmFork,
    }
}

/// A sandbox that came from a snapshot is told by what this was for, listed or by itself;
/// the two differ only on one that came from none or from a booted guest.
pub proof fn lemma_mode_is_told(t: Option<SnapshotType>)
    ensures
        listed_mode(t) is Continuation <==> t == Some(SnapshotType::Continuation),
        listed_mode(t) is WarmFork <==> t == Some(SnapshotType::WarmFork),
        shown_mode(t) is Continuation <==> listed_mode(t) is Continuation,
        shown_mode(t) is WarmFork <==> !(listed_mode(t) is Continuation),
        listed_mode(t) != shown_mode(t) <==> t is None || t == Some(SnapshotType::Environment),
{
}

/// No two states have the same word.
pub proof fn lemma_status_words_differ(a: SandboxStatus, b: SandboxStatus)
    ensures
        status_word(a) == status_word(b) <==> {
            ||| a is Created && b is Created
            ||| a is Running && b is Running
            ||| a is Stopped && b is Stopped
            ||| a is Paused && b is Paused
        },
{
    reveal_strlit("created");
    reveal_strlit("running");
    reveal_strlit("stopped");
    reveal_strlit("paused");
    assert("created"@[0] == 'c' && "running"@[0] == 'r' && "stopped"@[0] == 's');
    assert("paused"@[0] == 'p');
}

/// What is told of a sandbox: among others, under the id by which it is listed, or by
/// itself. One whose time of creation is unknown was created at 0.
pub fn describe_sandbox(
    sandbox: &KuasarSandbox,
    created_at_secs: Option<i64>,
    listed_as: Option<&str>,
) -> (r: SandboxEntry)
    ensures
        r.pod_uid@ == (match pod_uid_of(*sandbox) {
            Some(uid) => uid,
            None => Seq::empty(),
        }),
        r.sandbox_id@ == (match listed_as {
            Some(id) => id@,
            None => sandbox.id@,
        }),
        r.snapshot_name@ == (match opt_text(sandbox.template_key) {
            Some(key) => key,
            None => Seq::empty(),
        }),
        r.snapshot_mode == (if listed_as is Some {
            listed_mode(sandbox.template_snapshot_type)
        } else {
            shown_mode(sandbox.template_snapshot_type)
        }),
        r.created_at_secs == (match created_at_secs {
            Some(t) => t,
            None => 0,
        }),
        r.status@ == status_word(sandbox.status),
{
    proof {
        reveal_strlit("");
        assert(""@ =~= Seq::<char>::empty());
    }
    let pod_uid = match sandbox_pod_uid(sandbox) {
        Some(uid) => uid.clone(),
        None => "".to_owned(),
    };
    let snapshot_name = match &sandbox.template_key {
        Some(key) => key.clone(),
        None => "".to_owned(),
    };
    let snapshot_mode = match sandbox.template_snapshot_type {
        Some(SnapshotType::Continuation) => SnapshotMode::Continuation,
        Some(SnapshotType::WarmFork) => SnapshotMode::WarmFork,
        _ => if listed_as.is_some() {
            SnapshotMode::Unspecified
        } else {
            SnapshotMode::WarmFork
        },
    };
    SandboxEntry {
        pod_uid,
        sandbox_id: match listed_as {
            Some(id) => id.to_owned(),
            None => sandbox.id.clone(),
        },
        snapshot_name,
        snapshot_mode,
        created_at_secs: match created_at_secs {
            Some(t) => t,
            None => 0,
        },
        status: sandbox_status_str(&sandbox.status).to_owned(),
    }
}

/// Why a request is refused.
#[derive(Clone, Copy, Debug, PartialEq, Eq, Structural)]
pub enum RequestFault {
    NoSandboxId,
    SandboxNotFound,
    NoPodUid,
    NoSnapshotName,
    /// The slash is kept for names that are made from a workload.
    SlashInName,
    PodNotFound,
    /// A fork needs a name.
    NoForkName,
    SnapshotNotFound,
}

/// The kind of an error.
#[derive(Clone, Copy, Debug, PartialEq, Eq, Structural)]
pub enum FaultCode {
    InvalidArgument,
    NotFound,
    Internal,
}

impl RequestFault {
    /// What is answered; `subject` is the sandbox, the pod or the snapshot that was
    /// asked for.
    pub open spec fn text(self, subject: Seq<char>) -> Seq<char> {
        match self {
            RequestFault::NoSandboxId => "sandbox_id is required"@,
            RequestFault::SandboxNotFound => "sandbox "@ + subject + " not found"@,
            RequestFault::NoPodUid => "pod_uid is required"@,
            RequestFault::NoSnapshotName => "snapshot_name is required"@,
            RequestFault::SlashInName => "snapshot_name must not contain '/'; that separator is reserved for auto-generated continuation keys"@,
            RequestFault::PodNotFound => "no running sandbox found for pod_uid="@ + subject,
            RequestFault::NoForkName => "snapshot_name is required for fork mode"@,
            RequestFault::SnapshotNotFound => "snapshot '"@ + subject + "' not found"@,
        }
    }

    /// What is answered.
    pub fn message(&self, subject: &str) -> (r: String)
        ensures
            r@ == self.text(subject@),
    {
        match self {
            RequestFault::NoSandboxId => "sandbox_id is required".to_owned(),
            RequestFault::SandboxNotFound => concat3("sandbox ", subject, " not found"),
            RequestFault::NoPodUid => "pod_uid is required".to_owned(),
            RequestFault::NoSnapshotName => "snapshot_name is required".to_owned(),
            RequestFault::SlashInName => "snapshot_name must not contain '/'; that separator is reserved for auto-generated continuation keys".to_owned(),
            RequestFault::PodNotFound => concat("no running sandbox found for pod_uid=", subject),
            RequestFault::NoForkName => "snapshot_name is required for fork mode".to_owned(),
            RequestFault::SnapshotNotFound => concat3("snapshot '", subject, "' not found"),
        }
    }

    /// The kind of error that is answered.
    pub open spec fn kind(self) -> FaultCode {
        match self {
            RequestFault::SandboxNotFound | RequestFault::SnapshotNotFound => FaultCode::NotFound,
            RequestFault::PodNotFound => FaultCode::Internal,
            _ => FaultCode::InvalidArgument,
        }
    }

    /// The kind of error that is answered.
    pub fn code(&self) -> (r: FaultCode)
        ensures
            r == self.kind(),
    {
        match self {
            RequestFault::SandboxNotFound | RequestFault::SnapshotNotFound => FaultCode::NotFound,
            RequestFault::PodNotFound => FaultCode::Internal,
            _ => FaultCode::InvalidArgument,
        }
    }
}

/// What is not there is told as such, a request that lacks something or says it wrongly as
/// wrong, and a pod without a sandbox as a fault of the host.
pub proof fn lemma_kinds_of_faults(fault: RequestFault, subject: Seq<char>)
    ensures
        fault.kind() is NotFound <==> fault is SandboxNotFound || fault is SnapshotNotFound,
        fault.kind() is Internal <==> fault is PodNotFound,
        fault.kind() is InvalidArgument <==> fault is NoSandboxId || fault is NoPodUid || fault
            is NoSnapshotName || fault is SlashInName || fault is NoForkName,
        fault is PodNotFound ==> subject.is_suffix_of(fault.text(subject)),
{
    let head = "no running sandbox found for pod_uid="@;
    assert((head + subject).skip(head.len() as int) =~= subject);
}

/// Whether a request that names a sandbox can go on.
pub fn check_sandbox_id(sandbox_id: &str, found: bool) -> (r: Result<(), RequestFault>)
    ensures
        match r {
            Ok(()) => sandbox_id@.len() > 0 && found,
            Err(e) => if sandbox_id@.len() == 0 {
                e is NoSandboxId
            } else {
                e is SandboxNotFound && !found
            },
        },
{
    if sandbox_id.is_empty() {
        return Err(RequestFault::NoSandboxId);
    }
    if !found {
        return Err(RequestFault::SandboxNotFound);
    }
    Ok(())
}

/// The life of the workload that a paused sandbox is kept as: that of its pod, or
/// its own where it belongs to none.
pub fn pause_identity(sandbox_id: &str, sandbox: &KuasarSandbox) -> (r: WorkloadIdentity)
    ensures
        identity_view(r) == (
            match pod_uid_of(*sandbox) {
                Some(uid) => uid,
                None => sandbox_id@,
            },
            0u64,
        ),
{
    let pod_uid = match sandbox_pod_uid(sandbox) {
        Some(uid) => uid.clone(),
        None => sandbox_id.to_owned(),
    };
    WorkloadIdentity { pod_uid, generation: 0 }
}

impl KuasarSandbox {
    /// Puts this sandbox aside. This comes before its hypervisor is stopped, so
    /// that the end of the hypervisor is not taken for the end of the sandbox.
    pub fn pause(&mut self)
        ensures
            *final(self) == (KuasarSandbox { status: SandboxStatus::Paused, ..*old(self) }),
    {
        self.status = SandboxStatus::Paused;
    }

    /// Remembers the snapshot as which this sandbox was put aside, which is kept
    /// under its own id.
    pub fn remember_pause(&mut self, sandbox_id: &str)
        ensures
            final(self).template_key matches Some(key) && key@ == sandbox_id@,
            *final(self) == (KuasarSandbox {
                template_key: final(self).template_key,
                ..*old(self)
            }),
    {
        self.template_key = Some(sandbox_id.to_owned());
    }
}

/// A step of putting a sandbox aside.
#[derive(Clone, Copy, Debug, PartialEq, Eq, Structural)]
pub enum PauseStep {
    /// Take a continuation of it, under its own id.
    Snapshot,
    /// Mark it as put aside. This cannot fail.
    MarkPaused,
    /// Stop the hypervisor by force.
    StopVm,
    /// Remember the snapshot. This cannot fail.
    Remember,
    /// That this fails changes nothing.
    Dump,
}

/// The steps of putting a sandbox aside, in order.
pub open spec fn pause_plan() -> Seq<PauseStep> {
    seq![
        PauseStep::Snapshot,
        PauseStep::MarkPaused,
        PauseStep::StopVm,
        PauseStep::Remember,
        PauseStep::Dump,
    ]
}

/// The steps of putting a sandbox aside, or why that is refused. The first step that
/// fails ends it, but for the last.
pub fn pause_sandbox(sandbox_id: &str, found: bool) -> (r: Result<Vec<PauseStep>, RequestFault>)
    ensures
        match r {
            Ok(steps) => sandbox_id@.len() > 0 && found && steps@ == pause_plan(),
            Err(e) => if sandbox_id@.len() == 0 {
                e is NoSandboxId
            } else {
                e is SandboxNotFound && !found
            },
        },
{
    match check_sandbox_id(sandbox_id, found) {
        Ok(()) => {},
        Err(e) => {
            return Err(e);
        },
    }
    let mut steps: Vec<PauseStep> = Vec::new();
    steps.push(PauseStep::Snapshot);
    steps.push(PauseStep::MarkPaused);
    steps.push(PauseStep::StopVm);
    steps.push(PauseStep::Remember);
    steps.push(PauseStep::Dump);
    assert(steps@ =~= pause_plan());
    Ok(steps)
}

/// A sandbox is put aside in order: its snapshot is taken while the guest runs, it is marked,
/// its guest is stopped, and only then what it was put aside as is remembered and kept.
pub proof fn lemma_sandbox_is_put_aside_in_order()
    ensures
        ({
            let plan = pause_plan();
            &&& plan.no_duplicates()
            &&& comes_before(plan, PauseStep::Snapshot, PauseStep::MarkPaused)
            &&& comes_before(plan, PauseStep::MarkPaused, PauseStep::StopVm)
            &&& comes_before(plan, PauseStep::StopVm, PauseStep::Remember)
            &&& comes_before(plan, PauseStep::Remember, PauseStep::Dump)
        }),
{
    let plan = pause_plan();
    assert(plan =~= seq![
        PauseStep::Snapshot,
        PauseStep::MarkPaused,
        PauseStep::StopVm,
        PauseStep::Remember,
        PauseStep::Dump,
    ]);
    lemma_comes_before(plan, 0, 1);
    lemma_comes_before(plan, 1, 2);
    lemma_comes_before(plan, 2, 3);
    lemma_comes_before(plan, 3, 4);
}

/// A sandbox is put aside only once its snapshot is there, and it is marked so before
/// its hypervisor is stopped: the end of the hypervisor then leaves it as it is.
pub proof fn lemma_pause_outlives_the_guest(i: int, sandbox: KuasarSandbox, code: u32, at: i128)
    requires
        0 <= i < pause_plan().len(),
        pause_plan()[i] is StopVm,
        sandbox.status is Paused,
    ensures
        exists|j: int, k: int|
            0 <= j < k < i && (#[trigger] pause_plan()[j]) is Snapshot && (
            #[trigger] pause_plan()[k]) is MarkPaused,
        after_end(sandbox.status, code, at) is Paused,
{
    assert(pause_plan()[0] is Snapshot && pause_plan()[1] is MarkPaused);
}

// ── Snapshots ───────────────────────────────────────────────────────────────

/// A snapshot that is to be taken.
pub struct SnapshotOrder {
    pub sandbox_id: String,
    pub key: String,
    pub snapshot_type: SnapshotType,
    pub identity: Option<WorkloadIdentity>,
}

/// The generation that a request names; one that is no number counts as 0.
pub open spec fn requested_generation(parameters: Map<Seq<char>, Seq<char>>) -> u64 {
    if parameters.contains_key("generation"@) {
        match decimal_u64(parameters["generation"@]) {
            Some(n) => n,
            None => 0,
        }
    } else {
        0
    }
}

/// Why a request for a snapshot is refused, if it is.
pub open spec fn order_fault(
    pod_uid: Seq<char>,
    name: Seq<char>,
    mode: SsiSnapshotMode,
    index: Map<Seq<char>, Seq<char>>,
) -> Option<RequestFault> {
    if pod_uid.len() == 0 {
        Some(RequestFault::NoPodUid)
    } else if name.contains('/') {
        Some(RequestFault::SlashInName)
    } else if !index.contains_key(pod_uid) {
        Some(RequestFault::PodNotFound)
    } else if name.len() == 0 && !(mode is Resume) {
        Some(RequestFault::NoForkName)
    } else {
        None
    }
}

/// A snapshot is ordered for a pod that has a sandbox, under a name without a slash, which
/// a fork cannot do without; what is refused is refused for the first of these.
pub proof fn lemma_what_can_be_ordered(
    pod_uid: Seq<char>,
    name: Seq<char>,
    mode: SsiSnapshotMode,
    index: Map<Seq<char>, Seq<char>>,
)
    ensures
        ({
            let fault = order_fault(pod_uid, name, mode, index);
            let named = !name.contains('/');
            &&& fault is None <==> pod_uid.len() > 0 && named && index.contains_key(pod_uid) && (
            name.len() > 0 || mode is Resume)
            &&& fault == Some(RequestFault::NoPodUid) <==> pod_uid.len() == 0
            &&& fault == Some(RequestFault::SlashInName) <==> pod_uid.len() > 0 && !named
            &&& fault == Some(RequestFault::PodNotFound) <==> pod_uid.len() > 0 && named
                && !index.contains_key(pod_uid)
            &&& fault == Some(RequestFault::NoForkName) <==> pod_uid.len() > 0 && named
                && index.contains_key(pod_uid) && name.len() == 0 && !(mode is Resume)
        }),
{
}

/// A generation that is written in decimal is the one that is meant; what is missing or no
/// number is the first.
pub proof fn lemma_requested_generation(parameters: Map<Seq<char>, Seq<char>>, n: u64)
    ensures
        requested_generation(parameters.insert("generation"@, decimal(n as nat))) == n,
        !parameters.contains_key("generation"@) ==> requested_generation(parameters) == 0,
        parameters.contains_key("generation"@) && decimal_u64(parameters["generation"@]) is None
            ==> requested_generation(parameters) == 0,
{
    lemma_decimal_round_trip(n);
}

/// Turns a request into the snapshot that is to be taken. A continuation without a
/// name is kept under the key of its workload.
pub fn order_snapshot(
    pod_uid: &str,
    name: &str,
    mode: SsiSnapshotMode,
    parameters: &StringMap,
    index: &StringMap,
) -> (r: Result<SnapshotOrder, RequestFault>)
    ensures
        match r {
            Ok(o) => {
                let generation = requested_generation(parameters@);
                &&& order_fault(pod_uid@, name@, mode, index@) is None
                &&& o.sandbox_id@ == index@[pod_uid@]
                &&& o.snapshot_type == type_of(mode)
                &&& opt_identity_view(o.identity) == (if mode is Resume {
                    Some((pod_uid@, generation))
                } else {
                    None
                })
                &&& o.key@ == (if name@.len() == 0 {
                    workload_key(pod_uid@, generation as nat)
                } else {
                    name@
                })
            },
            Err(e) => order_fault(pod_uid@, name@, mode, index@) == Some(e),
        },
{
    if pod_uid.is_empty() {
        return Err(RequestFault::NoPodUid);
    }
    if contains_char(name, '/') {
        return Err(RequestFault::SlashInName);
    }
    let sandbox_id = match index.get(pod_uid) {
        Some(id) => id.clone(),
        None => {
            return Err(RequestFault::PodNotFound);
        },
    };
    let kind = snapshot_type(mode);
    if matches!(kind, SnapshotType::Continuation) {
        let generation: u64 = match parameters.get("generation") {
            Some(text) => match parse_u64(text.as_str()) {
                Some(n) => n,
                None => 0,
            },
            None => 0,
        };
        let key = if name.is_empty() {
            TemplateKey::from_workload_identity(pod_uid, generation).key
        } else {
            name.to_owned()
        };
        Ok(
            SnapshotOrder {
                sandbox_id,
                key,
                snapshot_type: kind,
                identity: Some(WorkloadIdentity { pod_uid: pod_uid.to_owned(), generation }),
            },
        )
    } else {
        if name.is_empty() {
            return Err(RequestFault::NoForkName);
        }
        Ok(SnapshotOrder { sandbox_id, key: name.to_owned(), snapshot_type: kind, identity: None })
    }
}

/// Whether a request that names a snapshot can go on.
pub fn check_snapshot_name(name: &str) -> (r: Result<(), RequestFault>)
    ensures
        match r {
            Ok(()) => name@.len() > 0,
            Err(e) => e is NoSnapshotName && name@.len() == 0,
        },
{
    if name.is_empty() {
        Err(RequestFault::NoSnapshotName)
    } else {
        Ok(())
    }
}

/// Whether the first template with a key in a list is the one at a place.
pub open spec fn first_with_key(templates: Seq<PooledTemplate>, key: Seq<char>, i: int) -> bool {
    &&& 0 <= i < templates.len()
    &&& templates[i].key.key@ == key
    &&& forall|k: int| 0 <= k < i ==> (#[trigger] templates[k]).key.key@ != key
}

/// The place of the first template with a key.
pub fn find_by_key(templates: &Vec<PooledTemplate>, key: &str) -> (r: Option<usize>)
    ensures
        match r {
            Some(i) => first_with_key(templates@, key@, i as int),
            None => forall|i: int|
                0 <= i < templates@.len() ==> (#[trigger] templates@[i]).key.key@ != key@,
        },
{
    let mut i: usize = 0;
    while i < templates.len()
        invariant
            i <= templates@.len(),
            forall|k: int| 0 <= k < i ==> (#[trigger] templates@[k]).key.key@ != key@,
        decreases templates.len() - i,
    {
        if same(templates[i].key.key.as_str(), key) {
            return Some(i);
        }
        i = i + 1;
    }
    None
}

/// The pod that a template was taken from, where it is known.
pub open spec fn template_pod(t: PooledTemplate) -> Seq<char> {
    match t.workload_identity {
        Some(identity) => identity.pod_uid@,
        None => Seq::empty(),
    }
}

fn pod_of(t: &PooledTemplate) -> (r: String)
    ensures
        r@ == template_pod(*t),
{
    proof {
        reveal_strlit("");
        assert(""@ =~= Seq::<char>::empty());
    }
    match &t.workload_identity {
        Some(identity) => identity.pod_uid.clone(),
        None => "".to_owned(),
    }
}

/// What is told of the snapshot with a name: the pool is searched before the store
/// of continuations. The pod is told only of what the store holds.
pub fn get_snapshot(pool: &Vec<PooledTemplate>, store: &Vec<PooledTemplate>, name: &str) -> (r:
    Option<SandboxSnapshot>)
    ensures
        match r {
            Some(s) => (exists|i: int| #[trigger]
                first_with_key(pool@, name@, i) && told(s) == (
                    Seq::<char>::empty(),
                    name@,
                    mode_of(pool@[i].snapshot_type),
                )) || ((forall|k: int|
                0 <= k < pool@.len() ==> (#[trigger] pool@[k]).key.key@ != name@) && exists|
                i: int,
            | #[trigger]
                first_with_key(store@, name@, i) && told(s) == (
                    template_pod(store@[i]),
                    name@,
                    mode_of(store@[i].snapshot_type),
                )),
            None => (forall|k: int|
                0 <= k < pool@.len() ==> (#[trigger] pool@[k]).key.key@ != name@) && (forall|
                k: int,
            |
                0 <= k < store@.len() ==> (#[trigger] store@[k]).key.key@ != name@),
        },
{
    proof {
        reveal_strlit("");
        assert(""@ =~= Seq::<char>::empty());
    }
    if let Some(i) = find_by_key(pool, name) {
        return Some(template_to_proto(&pool[i], name, ""));
    }
    if let Some(i) = find_by_key(store, name) {
        let pod = pod_of(&store[i]);
        return Some(template_to_proto(&store[i], name, pod.as_str()));
    }
    None
}

/// What is deleted with the name of a snapshot.
pub struct SnapshotDeletion {
    /// What the pool is asked to remove.
    pub pool: Option<PoolRemoval>,
    /// The template that the store of continuations is asked to delete.
    pub store: Option<String>,
}

/// The snapshots with a name that are deleted: the first of the pool, which is asked to
/// remove a warm fork, and the first of the store of continuations. That there is none
/// is no fault.
pub fn delete_snapshot(
    pool: &Vec<PooledTemplate>,
    store: &Vec<PooledTemplate>,
    name: &str,
) -> (r: SnapshotDeletion)
    ensures
        match r.pool {
            Some(removal) => deletes(Some(removal.id), pool@, name@) && removal.snapshot_type
                is WarmFork,
            None => deletes(None, pool@, name@),
        },
        deletes(r.store, store@, name@),
{
    SnapshotDeletion {
        pool: match find_by_key(pool, name) {
            Some(i) => Some(
                PoolRemoval { id: pool[i].id.clone(), snapshot_type: SnapshotType::WarmFork },
            ),
            None => None,
        },
        store: match find_by_key(store, name) {
            Some(i) => Some(store[i].id.clone()),
            None => None,
        },
    }
}

/// Whether `id` is that of the first template with a key, where there is one.
pub open spec fn deletes(id: Option<String>, templates: Seq<PooledTemplate>, key: Seq<char>) -> bool {
    match id {
        Some(id) => exists|i: int| #[trigger]
            first_with_key(templates, key, i) && templates[i].id@ == id@,
        None => forall|i: int|
            0 <= i < templates.len() ==> (#[trigger] templates[i]).key.key@ != key,
    }
}

/// What is told of the warm forks of the pool.
pub open spec fn pool_told(pool: Seq<PooledTemplate>) -> Seq<(
    Seq<char>,
    Seq<char>,
    SsiSnapshotMode,
)>
    decreases pool.len(),
{
    if pool.len() == 0 {
        Seq::empty()
    } else {
        let before = pool_told(pool.drop_last());
        if pool.last().snapshot_type is WarmFork {
            before.push((Seq::empty(), pool.last().key.key@, SsiSnapshotMode::Fork))
        } else {
            before
        }
    }
}

/// What is told of the store of continuations.
pub open spec fn store_told(store: Seq<PooledTemplate>) -> Seq<(
    Seq<char>,
    Seq<char>,
    SsiSnapshotMode,
)> {
    Seq::new(
        store.len(),
        |i: int| (template_pod(store[i]), store[i].key.key@, mode_of(store[i].snapshot_type)),
    )
}

/// What is told of all snapshots, or of those of one mode: the warm forks of the
/// pool, then the continuations.
pub fn list_snapshots(
    pool: &Vec<PooledTemplate>,
    store: &Vec<PooledTemplate>,
    filter: SsiSnapshotMode,
) -> (r: Vec<SandboxSnapshot>)
    ensures
        all_told(r@) == (if filter is Resume {
            Seq::empty()
        } else {
            pool_told(pool@)
        }) + (if filter is Fork {
            Seq::empty()
        } else {
            store_told(store@)
        }),
{
    proof {
        reveal_strlit("");
        assert(""@ =~= Seq::<char>::empty());
    }
    let mut out: Vec<SandboxSnapshot> = Vec::new();
    if !matches!(filter, SsiSnapshotMode::Resume) {
        let mut i: usize = 0;
        assert(pool@.take(0) =~= Seq::<PooledTemplate>::empty());
        assert(all_told(out@) =~= pool_told(pool@.take(0)));
        while i < pool.len()
            invariant
                i <= pool@.len(),
                ""@ == Seq::<char>::empty(),
                all_told(out@) == pool_told(pool@.take(i as int)),
            decreases pool.len() - i,
        {
            proof {
                assert(pool@.take(i + 1).drop_last() =~= pool@.take(i as int));
                assert(pool@.take(i + 1).last() == pool@[i as int]);
            }
            if matches!(pool[i].snapshot_type, SnapshotType::WarmFork) {
                let ghost before = out@;
                let s = template_to_proto(&pool[i], pool[i].key.key.as_str(), "");
                out.push(s);
                assert(all_told(out@) =~= all_told(before).push(told(s)));
            }
            i = i + 1;
        }
        assert(pool@.take(i as int) =~= pool@);
    }
    let ghost head = all_told(out@);
    assert(head =~= if filter is Resume {
        Seq::empty()
    } else {
        pool_told(pool@)
    });
    let ghost tail = store_told(store@);
    if !matches!(filter, SsiSnapshotMode::Fork) {
        let mut i: usize = 0;
        assert(head + tail.take(0) =~= head);
        while i < store.len()
            invariant
                i <= store@.len(),
                tail == store_told(store@),
                all_told(out@) == head + tail.take(i as int),
            decreases store.len() - i,
        {
            let ghost before = out@;
            let pod = pod_of(&store[i]);
            let s = template_to_proto(&store[i], store[i].key.key.as_str(), pod.as_str());
            out.push(s);
            proof {
                assert(all_told(out@) =~= all_told(before).push(told(s)));
                assert(told(s) == tail[i as int]);
                assert(head + tail.take(i + 1) =~= (head + tail.take(i as int)).push(
                    tail[i as int],
                ));
            }
            i = i + 1;
        }
        assert(tail.take(i as int) =~= tail);
    } else {
        assert(all_told(out@) =~= head + Seq::empty());
    }
    out
}

/// Each warm fork of the pool is told under its own key, in its place among the others,
/// and nothing else of the pool is.
pub proof fn lemma_pool_is_told(pool: Seq<PooledTemplate>, i: int)
    requires
        0 <= i < pool.len(),
    ensures
        pool_told(pool) == pool_told(pool.take(i)) + (if pool[i].snapshot_type is WarmFork {
            seq![(Seq::<char>::empty(), pool[i].key.key@, SsiSnapshotMode::Fork)]
        } else {
            Seq::empty()
        }) + pool_told(pool.skip(i + 1)),
        pool_told(Seq::empty()).len() == 0,
    decreases pool.len(),
{
    let init = pool.drop_last();
    let own = if pool[i].snapshot_type is WarmFork {
        seq![(Seq::<char>::empty(), pool[i].key.key@, SsiSnapshotMode::Fork)]
    } else {
        Seq::empty()
    };
    if i == pool.len() - 1 {
        assert(pool.take(i) =~= init);
        assert(pool.skip(i + 1) =~= Seq::<PooledTemplate>::empty());
    } else {
        lemma_pool_is_told(init, i);
        assert(init.take(i) =~= pool.take(i));
        assert(pool.skip(i + 1).drop_last() =~= init.skip(i + 1));
        assert(pool.skip(i + 1).last() == pool.last());
    }
    assert(pool_told(pool) =~= pool_told(pool.take(i)) + own + pool_told(pool.skip(i + 1)));
}

/// Each continuation of the store is told, in order, under its own key and as of its own
/// pod, where that is known.
pub proof fn lemma_store_is_told(store: Seq<PooledTemplate>, i: int)
    requires
        0 <= i < store.len(),
    ensures
        store_told(store).len() == store.len(),
        store_told(store)[i].1 == store[i].key.key@,
        store[i].workload_identity is Some ==> store_told(store)[i].0
            == store[i].workload_identity->0.pod_uid@,
        store[i].workload_identity is None ==> store_told(store)[i].0.len() == 0,
        store_told(store)[i].2 is Resume <==> store[i].snapshot_type is Continuation,
{
}

/// A name leads to at most one template of a list, which is the first that has it.
pub proof fn lemma_first_with_key(templates: Seq<PooledTemplate>, key: Seq<char>, i: int, k: int)
    requires
        first_with_key(templates, key, i),
        0 <= k < templates.len(),
        templates[k].key.key@ == key,
    ensures
        i <= k,
        templates[i].key.key@ == key,
        first_with_key(templates, key, k) <==> k == i,
{
}

/// A warm fork of the pool is told unless only continuations were asked for, and
/// then as a fork under its key.
pub proof fn lemma_warm_fork_is_listed(pool: Seq<PooledTemplate>, i: int)
    requires
        0 <= i < pool.len(),
        pool[i].snapshot_type is WarmFork,
    ensures
        pool_told(pool).contains(
            (Seq::<char>::empty(), pool[i].key.key@, SsiSnapshotMode::Fork),
        ),
    decreases pool.len(),
{
    let entry = (Seq::<char>::empty(), pool[i].key.key@, SsiSnapshotMode::Fork);
    let before = pool_told(pool.drop_last());
    if i == pool.len() - 1 {
        assert(pool_told(pool)[before.len() as int] == entry);
    } else {
        assert(pool.drop_last()[i] == pool[i]);
        lemma_warm_fork_is_listed(pool.drop_last(), i);
        let k = choose|k: int| 0 <= k < before.len() && before[k] == entry;
        assert(pool_told(pool)[k] == entry);
    }
}

} // verus!
