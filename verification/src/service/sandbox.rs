//! Sandboxes without a container runtime: their slots, and restoring them.

use crate::cloud_hypervisor::snapshot::SnapshotPathOverrides;
use crate::order::{comes_before, lemma_comes_before};
use crate::sandbox::config::{MemoryRestoreMode, TemplateLeaseMode};
use crate::sandbox::data::SandboxData;
use crate::sandbox::lifecycle::{
    delete_plan, delete_steps, lemma_sandbox_is_deleted_in_order, DeleteStep,
};
use crate::sandbox::refs::{destroy_release, Release};
use crate::sandbox::restore::{file_name, RestoreSource};
use crate::sandbox::state::{forgot_template, KuasarContainer, KuasarSandbox, SandboxStatus};
use crate::sandbox::template_pool::{
    target_views, TargetView, TemplateFailure, COMMIT_TIMEOUT_MS, PREPARE_TIMEOUT_MS,
};
use crate::string_map::StringMap;
use crate::template::{
    PooledTemplate, ReadyTarget, SnapshotType, WorkloadIdentity, POD_UID_ANNOTATION,
};
use crate::text::{
    concat, concat3, decimal, join_path, lemma_decimal_injective, path_join, same, u64_to_string,
};
use crate::vm::{WarmForkParams, WarmForkTarget};
use vstd::prelude::*;

verus! {

// ── Slots ───────────────────────────────────────────────────────────────────

/// The pod that a sandbox belongs to, where it says so.
pub open spec fn pod_uid_of(s: KuasarSandbox) -> Option<Seq<char>> {
    if s.data.labels@.contains_key(POD_UID_ANNOTATION@) {
        Some(s.data.labels@[POD_UID_ANNOTATION@])
    } else {
        None
    }
}

/// The pod that a sandbox belongs to.
pub fn sandbox_pod_uid(sandbox: &KuasarSandbox) -> (r: Option<&String>)
    ensures
        match r {
            Some(uid) => pod_uid_of(*sandbox) == Some(uid@),
            None => pod_uid_of(*sandbox) is None,
        },
{
    sandbox.data.labels.get(POD_UID_ANNOTATION)
}

/// A sandbox that waits to be restored. An id that is in use gives none.
pub fn create_sandbox_slot(
    exists: bool,
    sandbox_base_dir: &str,
    sandbox_id: &str,
    pod_uid: Option<&str>,
    netns: &str,
) -> (r: Option<KuasarSandbox>)
    ensures
        match r {
            Some(s) => {
                &&& !exists
                &&& s.id@ == sandbox_id@
                &&& s.status is Created
                &&& s.base_dir@ == path_join(sandbox_base_dir@, sandbox_id@)
                &&& s.data.id@ == sandbox_id@
                &&& s.data.netns@ == netns@
                &&& s.data.task_address@.len() == 0
                &&& s.data.config is None
                &&& s.data.labels@ == (match pod_uid {
                    Some(uid) => Map::empty().insert(POD_UID_ANNOTATION@, uid@),
                    None => Map::empty(),
                })
                &&& pod_uid_of(s) == (match pod_uid {
                    Some(uid) => Some(uid@),
                    None => None,
                })
                &&& s.containers@ == Map::<Seq<char>, KuasarContainer>::empty()
                &&& s.storages@.len() == 0
                &&& s.id_generator == 0
                &&& s.template_key is None
                &&& s.orphan_container_ids@.len() == 0
                &&& forgot_template(s)
            },
            None => exists,
        },
{
    proof {
        reveal_strlit("");
    }
    if exists {
        return None;
    }
    let base_dir = join_path(sandbox_base_dir, sandbox_id);
    let mut labels = StringMap::new();
    if let Some(uid) = pod_uid {
        labels.insert(POD_UID_ANNOTATION.to_owned(), uid.to_owned());
    }
    let data = SandboxData {
        id: sandbox_id.to_owned(),
        netns: netns.to_owned(),
        task_address: "".to_owned(),
        labels,
        config: None,
    };
    Some(KuasarSandbox::new(sandbox_id, base_dir.as_str(), data))
}

/// Enters a sandbox in the index of pods, where it belongs to one. Another sandbox
/// that the pod was mapped to is handed back.
pub fn index_pod(index: &mut StringMap, sandbox: &KuasarSandbox) -> (r: Option<String>)
    ensures
        match pod_uid_of(*sandbox) {
            Some(uid) => final(index)@ == old(index)@.insert(uid, sandbox.id@) && (match r {
                Some(before) => old(index)@.contains_key(uid) && old(index)@[uid] == before@
                    && before@ != sandbox.id@,
                None => old(index)@.contains_key(uid) ==> old(index)@[uid] == sandbox.id@,
            }),
            None => final(index)@ == old(index)@ && r is None,
        },
{
    match sandbox_pod_uid(sandbox) {
        Some(uid) => {
            let replaced: Option<String> = match index.get(uid.as_str()) {
                Some(before) => if same(before.as_str(), sandbox.id.as_str()) {
                    None
                } else {
                    Some(before.clone())
                },
                None => None,
            };
            index.insert(uid.clone(), sandbox.id.clone());
            replaced
        },
        None => None,
    }
}

/// Whether the cgroups of a sandbox are removed with it.
pub open spec fn cgroups_go(cgroup_parent_path: Seq<char>, cgroup_v2: bool) -> bool {
    cgroup_parent_path.len() > 0 && !cgroup_v2
}

/// The cgroups of a sandbox that has a parent for them are removed after it was stopped and
/// before its mounts are undone; without a parent, or in unified mode, they are left alone.
pub proof fn lemma_cgroups_go_with_the_sandbox(cgroup_parent_path: Seq<char>, cgroup_v2: bool)
    ensures
        ({
            let plan = delete_plan(true, cgroups_go(cgroup_parent_path, cgroup_v2));
            &&& plan.contains(DeleteStep::RemoveCgroups) <==> cgroup_parent_path.len() > 0
                && !cgroup_v2
            &&& plan.contains(DeleteStep::RemoveCgroups) ==> comes_before(
                plan,
                DeleteStep::Stop,
                DeleteStep::RemoveCgroups,
            ) && comes_before(plan, DeleteStep::RemoveCgroups, DeleteStep::CleanupMounts)
        }),
{
    lemma_sandbox_is_deleted_in_order(cgroups_go(cgroup_parent_path, cgroup_v2));
}

/// Whether the cgroups of a sandbox are removed with it: one of the service has
/// none unless it was given a parent, and in unified mode the parent holds them.
pub fn removes_cgroups(cgroup_parent_path: &str, cgroup_v2: bool) -> (r: bool)
    ensures
        r == cgroups_go(cgroup_parent_path@, cgroup_v2),
{
    !cgroup_parent_path.is_empty() && !cgroup_v2
}

/// What destroying a sandbox of the service takes: the steps in order, and what
/// becomes of its template. A sandbox that is not there gives none.
pub fn destroy_sandbox(
    sandbox: Option<&KuasarSandbox>,
    cgroup_parent_path: &str,
    cgroup_v2: bool,
    has_pool: bool,
) -> (r: Option<(Vec<DeleteStep>, Release)>)
    ensures
        match (sandbox, r) {
            (Some(s), Some((steps, release))) => {
                &&& steps@ == delete_plan(true, cgroups_go(cgroup_parent_path@, cgroup_v2))
                &&& release == destroy_release(*s, has_pool)
            },
            (None, None) => true,
            _ => false,
        },
{
    match sandbox {
        Some(s) => Some(
            (
                delete_steps(true, removes_cgroups(cgroup_parent_path, cgroup_v2)),
                s.release_on_destroy(has_pool),
            ),
        ),
        None => None,
    }
}

// ── Whether a sandbox can be restored ───────────────────────────────────────

/// Which way a sandbox is restored.
#[derive(Clone, Copy, Debug, PartialEq, Eq, Structural)]
pub enum ServiceRestore {
    /// A waiting sandbox, from a warm fork of the pool.
    WarmFork,
    /// A waiting sandbox, from the continuation of a workload.
    Continuation,
    /// A paused sandbox, from what it was put aside as.
    Resume,
}

/// Why a sandbox is not restored.
#[derive(Clone, Copy, Debug, PartialEq, Eq, Structural)]
pub enum RestoreRefusal {
    NotFound,
    /// It is not in the state from which it could be restored.
    WrongState,
    NoPool,
    NoStore,
    /// Neither a key nor an id of a template was given.
    NoTemplateNamed,
}

/// The state from which a sandbox can be restored.
pub open spec fn restorable(way: ServiceRestore, status: SandboxStatus) -> bool {
    match way {
        ServiceRestore::Resume => status is Paused,
        _ => status is Created,
    }
}

/// Why a sandbox cannot be restored, where that is so.
pub open spec fn restore_fault(
    way: ServiceRestore,
    sandbox: Option<&KuasarSandbox>,
    has_pool: bool,
    has_store: bool,
) -> Option<RestoreRefusal> {
    if sandbox is None {
        Some(RestoreRefusal::NotFound)
    } else if !restorable(way, sandbox->0.status) {
        Some(RestoreRefusal::WrongState)
    } else if way is WarmFork {
        if has_pool {
            None
        } else {
            Some(RestoreRefusal::NoPool)
        }
    } else if has_store {
        None
    } else {
        Some(RestoreRefusal::NoStore)
    }
}

/// A sandbox is restored only out of the state that the way asks for: one that waits is
/// given a guest, and one that was put aside is resumed, never the other way round. What
/// it is restored from must have a place, which is the pool for a warm fork and the store
/// for all else.
pub proof fn lemma_what_can_be_restored_by_service(
    way: ServiceRestore,
    sandbox: Option<&KuasarSandbox>,
    has_pool: bool,
    has_store: bool,
)
    ensures
        ({
            let fault = restore_fault(way, sandbox, has_pool, has_store);
            let ready = sandbox is Some && if way is Resume {
                sandbox->0.status is Paused
            } else {
                sandbox->0.status is Created
            };
            let placed = if way is WarmFork {
                has_pool
            } else {
                has_store
            };
            &&& fault is None <==> ready && placed
            &&& fault == Some(RestoreRefusal::NotFound) <==> sandbox is None
            &&& fault == Some(RestoreRefusal::WrongState) <==> sandbox is Some && !ready
            &&& fault == Some(RestoreRefusal::NoPool) <==> ready && way is WarmFork && !has_pool
            &&& fault == Some(RestoreRefusal::NoStore) <==> ready && !(way is WarmFork)
                && !has_store
        }),
{
}

/// Whether a sandbox can be restored.
pub fn check_restorable(
    way: ServiceRestore,
    sandbox: Option<&KuasarSandbox>,
    has_pool: bool,
    has_store: bool,
) -> (r: Result<(), RestoreRefusal>)
    ensures
        r == (match restore_fault(way, sandbox, has_pool, has_store) {
            Some(e) => Err::<(), RestoreRefusal>(e),
            None => Ok(()),
        }),
{
    let sandbox = match sandbox {
        Some(s) => s,
        None => {
            return Err(RestoreRefusal::NotFound);
        },
    };
    let ready: bool = match way {
        ServiceRestore::Resume => matches!(sandbox.status, SandboxStatus::Paused),
        _ => matches!(sandbox.status, SandboxStatus::Created),
    };
    if !ready {
        return Err(RestoreRefusal::WrongState);
    }
    match way {
        ServiceRestore::WarmFork => if has_pool {
            Ok(())
        } else {
            Err(RestoreRefusal::NoPool)
        },
        _ => if has_store {
            Ok(())
        } else {
            Err(RestoreRefusal::NoStore)
        },
    }
}

// ── Which template ──────────────────────────────────────────────────────────

/// How the pool is asked for a warm fork.
pub enum Wanted {
    ById(String),
    ByKey(String),
}

/// How the pool is asked for a warm fork: an id goes before a key, and one of them
/// is needed.
pub fn wanted_template(key: Option<&str>, template_id: Option<&str>) -> (r: Option<Wanted>)
    ensures
        match r {
            Some(Wanted::ById(id)) => template_id matches Some(t) && id@ == t@,
            Some(Wanted::ByKey(k)) => template_id is None && (key matches Some(t) && k@ == t@),
            None => template_id is None && key is None,
        },
{
    match template_id {
        Some(id) => Some(Wanted::ById(id.to_owned())),
        None => match key {
            Some(k) => Some(Wanted::ByKey(k.to_owned())),
            None => None,
        },
    }
}

/// Begins to restore a waiting sandbox from a warm fork: how the pool is asked for it,
/// or why the sandbox cannot be restored.
pub fn restore_sandbox_warm_fork(
    sandbox: Option<&KuasarSandbox>,
    has_pool: bool,
    key: Option<&str>,
    template_id: Option<&str>,
) -> (r: Result<Wanted, RestoreRefusal>)
    ensures
        match restore_fault(ServiceRestore::WarmFork, sandbox, has_pool, false) {
            Some(fault) => r == Err::<Wanted, RestoreRefusal>(fault),
            None => match r {
                Ok(Wanted::ById(id)) => template_id matches Some(t) && id@ == t@,
                Ok(Wanted::ByKey(k)) => template_id is None && (key matches Some(t) && k@ == t@),
                Err(e) => e is NoTemplateNamed && template_id is None && key is None,
            },
        },
{
    match check_restorable(ServiceRestore::WarmFork, sandbox, has_pool, false) {
        Ok(()) => match wanted_template(key, template_id) {
            Some(wanted) => Ok(wanted),
            None => Err(RestoreRefusal::NoTemplateNamed),
        },
        Err(e) => Err(e),
    }
}

/// Why a template that the pool gave is not used.
pub open spec fn unfit(tmpl: PooledTemplate, key: Option<Seq<char>>) -> Option<TemplateFailure> {
    if !(tmpl.snapshot_type is WarmFork) {
        Some(TemplateFailure::WrongType)
    } else if key matches Some(k) && tmpl.key.key@ != k {
        Some(TemplateFailure::KeyMismatch)
    } else {
        None
    }
}

/// Only a warm fork with the key that was demanded, if any was, is used.
pub proof fn lemma_only_what_was_asked_for_is_used(tmpl: PooledTemplate, key: Option<Seq<char>>)
    ensures
        unfit(tmpl, key) is None <==> tmpl.snapshot_type is WarmFork && (key is None || key->0
            == tmpl.key.key@),
        unfit(tmpl, key) == Some(TemplateFailure::WrongType) <==> !(tmpl.snapshot_type is WarmFork),
        unfit(tmpl, key) == Some(TemplateFailure::KeyMismatch) <==> tmpl.snapshot_type is WarmFork
            && key is Some && key->0 != tmpl.key.key@,
{
}

/// Whether what the pool gave is what was asked for. It must be a warm fork. Where
/// it was asked for by its id, a key that is given too must be the one of the
/// template. Only a template of the wrong key has been leased by then.
pub fn check_wanted(
    wanted: &Wanted,
    key: Option<&str>,
    found: Option<&PooledTemplate>,
) -> (r: Result<(), TemplateFailure>)
    ensures
        ({
            let demanded = if wanted is ById {
                match key {
                    Some(k) => Some(k@),
                    None => None,
                }
            } else {
                None
            };
            match found {
                Some(tmpl) => match unfit(*tmpl, demanded) {
                    Some(f) => r == Err::<(), TemplateFailure>(f),
                    None => r is Ok,
                },
                None => r == Err::<(), TemplateFailure>(TemplateFailure::NotAvailable),
            }
        }),
{
    let tmpl = match found {
        Some(t) => t,
        None => {
            return Err(TemplateFailure::NotAvailable);
        },
    };
    if !matches!(tmpl.snapshot_type, SnapshotType::WarmFork) {
        return Err(TemplateFailure::WrongType);
    }
    if let Wanted::ById(_) = wanted {
        if let Some(k) = key {
            if !same(tmpl.key.key.as_str(), k) {
                return Err(TemplateFailure::KeyMismatch);
            }
        }
    }
    Ok(())
}

/// The name under which a continuation is asked for.
pub open spec fn continuation_name(
    snapshot_name: Option<Seq<char>>,
    pod_uid: Seq<char>,
    generation: u64,
) -> Seq<char> {
    match snapshot_name {
        Some(name) => name,
        None => pod_uid + "/g"@ + decimal(generation as nat),
    }
}

/// A continuation has the name that is given. Without one, the name tells the workload
/// and its generation: different generations of a workload have different names.
pub proof fn lemma_continuation_names(name: Seq<char>, pod_uid: Seq<char>, a: u64, b: u64)
    ensures
        continuation_name(Some(name), pod_uid, a) == name,
        pod_uid.is_prefix_of(continuation_name(None, pod_uid, a)),
        a != b ==> continuation_name(None, pod_uid, a) != continuation_name(None, pod_uid, b),
        decimal(a as nat).is_suffix_of(continuation_name(None, pod_uid, a)),
{
    let head = pod_uid + "/g"@;
    let first = continuation_name(None, pod_uid, a);
    let second = continuation_name(None, pod_uid, b);
    assert(first.skip(head.len() as int) =~= decimal(a as nat));
    assert(second.skip(head.len() as int) =~= decimal(b as nat));
    assert(first.take(pod_uid.len() as int) =~= pod_uid);
    if first == second {
        lemma_decimal_injective(a as nat, b as nat);
    }
}

/// The name under which a continuation is remembered: the one that it was asked
/// for by, or that of the workload.
pub fn acquired_key(snapshot_name: Option<&str>, pod_uid: &str, generation: u64) -> (r: String)
    ensures
        r@ == continuation_name(
            match snapshot_name {
                Some(name) => Some(name@),
                None => None,
            },
            pod_uid@,
            generation,
        ),
{
    match snapshot_name {
        Some(name) => name.to_owned(),
        None => {
            let head = concat(pod_uid, "/g");
            let number = u64_to_string(generation);
            concat(head.as_str(), number.as_str())
        },
    }
}

/// How the store is asked for a continuation.
pub enum ContinuationLookup {
    ByName(String),
    ByWorkload(WorkloadIdentity),
}

/// Whether the store is asked by the name that is given, or else by the workload.
pub open spec fn looks_up(
    lookup: ContinuationLookup,
    pod_uid: Seq<char>,
    generation: u64,
    snapshot_name: Option<&str>,
) -> bool {
    match (lookup, snapshot_name) {
        (ContinuationLookup::ByName(asked), Some(name)) => asked@ == name@,
        (ContinuationLookup::ByWorkload(w), None) => w.pod_uid@ == pod_uid && w.generation
            == generation,
        _ => false,
    }
}

/// What is said where the store has no continuation.
pub open spec fn no_continuation(lookup: ContinuationLookup) -> Seq<char> {
    match lookup {
        ContinuationLookup::ByName(name) => {
            "no continuation snapshot found for snapshot_name='"@ + name@ + "'"@
        },
        ContinuationLookup::ByWorkload(w) => {
            "no continuation snapshot available for pod_uid='"@ + w.pod_uid@ + "' generation="@
                + decimal(w.generation as nat)
        },
    }
}

impl ContinuationLookup {
    /// What the store gave, or what is said where it gave nothing.
    pub fn settle(&self, found: Option<PooledTemplate>) -> (r: Result<PooledTemplate, String>)
        ensures
            match (r, found) {
                (Ok(tmpl), Some(given)) => tmpl == given,
                (Err(message), None) => message@ == no_continuation(*self),
                _ => false,
            },
    {
        if let Some(tmpl) = found {
            return Ok(tmpl);
        }
        match self {
            ContinuationLookup::ByName(name) => Err(
                concat3("no continuation snapshot found for snapshot_name='", name.as_str(), "'"),
            ),
            ContinuationLookup::ByWorkload(w) => {
                let generation = u64_to_string(w.generation);
                let head = concat3(
                    "no continuation snapshot available for pod_uid='",
                    w.pod_uid.as_str(),
                    "' generation=",
                );
                Err(concat(head.as_str(), generation.as_str()))
            },
        }
    }
}

/// A continuation that is asked for.
pub struct ContinuationRequest {
    pub lookup: ContinuationLookup,
    /// The name under which it is remembered.
    pub key: String,
}

/// Begins to restore a waiting sandbox from a continuation: how the store is asked for
/// it and the name under which it is remembered, or why the sandbox cannot be restored.
pub fn restore_sandbox_continuation(
    sandbox: Option<&KuasarSandbox>,
    has_store: bool,
    pod_uid: &str,
    generation: u64,
    snapshot_name: Option<&str>,
) -> (r: Result<ContinuationRequest, RestoreRefusal>)
    ensures
        match restore_fault(ServiceRestore::Continuation, sandbox, false, has_store) {
            Some(fault) => r == Err::<ContinuationRequest, RestoreRefusal>(fault),
            None => r matches Ok(request) && looks_up(
                request.lookup,
                pod_uid@,
                generation,
                snapshot_name,
            ) && request.key@ == continuation_name(
                match snapshot_name {
                    Some(name) => Some(name@),
                    None => None,
                },
                pod_uid@,
                generation,
            ),
        },
{
    match check_restorable(ServiceRestore::Continuation, sandbox, false, has_store) {
        Ok(()) => {
            let lookup = match snapshot_name {
                Some(name) => ContinuationLookup::ByName(name.to_owned()),
                None => ContinuationLookup::ByWorkload(
                    WorkloadIdentity { pod_uid: pod_uid.to_owned(), generation },
                ),
            };
            Ok(ContinuationRequest { lookup, key: acquired_key(snapshot_name, pod_uid, generation) })
        },
        Err(e) => Err(e),
    }
}

/// Begins to resume a paused sandbox: the name of what it was put aside as, which is
/// its own id, or why it cannot be resumed.
pub fn resume_paused_sandbox(
    sandbox_id: &str,
    sandbox: Option<&KuasarSandbox>,
    has_store: bool,
) -> (r: Result<String, RestoreRefusal>)
    ensures
        match restore_fault(ServiceRestore::Resume, sandbox, false, has_store) {
            Some(fault) => r == Err::<String, RestoreRefusal>(fault),
            None => r matches Ok(name) && name@ == sandbox_id@,
        },
{
    match check_restorable(ServiceRestore::Resume, sandbox, false, has_store) {
        Ok(()) => Ok(sandbox_id.to_owned()),
        Err(e) => Err(e),
    }
}

/// What a paused sandbox was put aside as, or what is said where the store has nothing
/// under its name.
pub fn settle_resume(sandbox_id: &str, found: Option<PooledTemplate>) -> (r: Result<
    PooledTemplate,
    String,
>)
    ensures
        match (r, found) {
            (Ok(tmpl), Some(given)) => tmpl == given,
            (Err(message), None) => message@ == "no pause snapshot found for sandbox "@
                + sandbox_id@,
            _ => false,
        },
{
    match found {
        Some(tmpl) => Ok(tmpl),
        None => Err(concat("no pause snapshot found for sandbox ", sandbox_id)),
    }
}

// ── What is restored ────────────────────────────────────────────────────────

/// The task of a container that starts by itself.
pub open spec fn idle_target(t: ReadyTarget) -> TargetView {
    TargetView {
        container_name: t.container_name@,
        container_id: t.container_id@,
        socket_path: t.socket_path@,
        env: Map::empty(),
        context: Seq::empty(),
    }
}

/// The tasks of containers that start by themselves.
pub open spec fn idle_targets(v: Seq<ReadyTarget>) -> Seq<TargetView> {
    Seq::new(v.len(), |i: int| idle_target(v[i]))
}

/// Each container that waits is told to start by itself, on its own socket and under its
/// own id, and is given nothing else.
pub proof fn lemma_every_waiting_container_starts(v: Seq<ReadyTarget>, i: int)
    requires
        0 <= i < v.len(),
    ensures
        idle_targets(v).len() == v.len(),
        idle_targets(v)[i].container_name == v[i].container_name@,
        idle_targets(v)[i].container_id == v[i].container_id@,
        idle_targets(v)[i].socket_path == v[i].socket_path@,
        idle_targets(v)[i].env == Map::<Seq<char>, Seq<char>>::empty(),
        idle_targets(v)[i].context.len() == 0,
{
}

/// The tasks of a warm fork that is restored without a pod: none, so that each
/// waiting container starts by itself.
pub fn autonomous_params(ready: &Vec<ReadyTarget>) -> (r: WarmForkParams)
    ensures
        r.task_id is None,
        target_views(r.targets@) == idle_targets(ready@),
        r.prepare_timeout_ms == PREPARE_TIMEOUT_MS,
        r.commit_timeout_ms == COMMIT_TIMEOUT_MS,
{
    let mut targets: Vec<WarmForkTarget> = Vec::new();
    let mut i: usize = 0;
    while i < ready.len()
        invariant
            i <= ready@.len(),
            target_views(targets@) == idle_targets(ready@).take(i as int),
            targets@.len() == i,
        decreases ready.len() - i,
    {
        proof {
            reveal_strlit("");
            assert(""@ =~= Seq::<char>::empty());
        }
        let ghost before = targets@;
        targets.push(
            WarmForkTarget {
                container_name: ready[i].container_name.clone(),
                container_id: ready[i].container_id.clone(),
                socket_path: ready[i].socket_path.clone(),
                env_overrides: StringMap::new(),
                context: "".to_owned(),
            },
        );
        assert(target_views(targets@) =~= target_views(before).push(
            idle_target(ready@[i as int]),
        ));
        assert(idle_targets(ready@).take(i + 1) =~= idle_targets(ready@).take(i as int).push(
            idle_target(ready@[i as int]),
        ));
        i = i + 1;
    }
    assert(idle_targets(ready@).take(i as int) =~= idle_targets(ready@));
    WarmForkParams {
        task_id: None,
        targets,
        prepare_timeout_ms: PREPARE_TIMEOUT_MS,
        commit_timeout_ms: COMMIT_TIMEOUT_MS,
    }
}

/// Whether a sandbox remembers the template that it is restored from, and is
/// otherwise as before.
pub open spec fn remembers(
    after: KuasarSandbox,
    before: KuasarSandbox,
    tmpl: PooledTemplate,
    key: Seq<char>,
    snapshot_type: SnapshotType,
    lease_mode: TemplateLeaseMode,
    reflink_supported: bool,
) -> bool {
    &&& after.template_id matches Some(id) && id@ == tmpl.id@
    &&& after.template_key matches Some(k) && k@ == key
    &&& after.template_snapshot_type == Some(snapshot_type)
    &&& after.lease_mode == Some(lease_mode)
    &&& after.reflink_supported == Some(reflink_supported)
    &&& after.id_generator == tmpl.id_generator
    &&& after.id == before.id
    &&& after.status == before.status
    &&& after.base_dir == before.base_dir
    &&& after.containers == before.containers
    &&& after.storages == before.storages
    &&& after.memory_restore_mode == before.memory_restore_mode
    &&& after.orphan_container_ids == before.orphan_container_ids
}

/// A sandbox that remembers a template knows it by its own id and by the key that is given,
/// and goes on giving out ids where the template was. When it is destroyed it gives back
/// exactly the reference of a shared warm fork. All else of it stays as it was.
pub proof fn lemma_remembered_template_is_given_back(
    after: KuasarSandbox,
    before: KuasarSandbox,
    tmpl: PooledTemplate,
    key: Seq<char>,
    snapshot_type: SnapshotType,
    lease_mode: TemplateLeaseMode,
    reflink_supported: bool,
)
    requires
        remembers(after, before, tmpl, key, snapshot_type, lease_mode, reflink_supported),
        !(snapshot_type is Environment),
    ensures
        destroy_release(after, true) is Deref <==> snapshot_type is WarmFork && lease_mode
            is Shared,
        after.template_id is Some && after.template_id->0@ == tmpl.id@,
        after.template_key is Some && after.template_key->0@ == key,
        after.id_generator == tmpl.id_generator,
        after == (KuasarSandbox {
            data: after.data,
            template_id: after.template_id,
            template_key: after.template_key,
            template_snapshot_type: Some(snapshot_type),
            lease_mode: Some(lease_mode),
            reflink_supported: Some(reflink_supported),
            id_generator: tmpl.id_generator,
            ..before
        }),
{
}

/// Whether two states of a pod differ at most in the network namespace.
pub open spec fn same_but_netns(a: SandboxData, b: SandboxData) -> bool {
    &&& a.id == b.id
    &&& a.task_address == b.task_address
    &&& a.labels == b.labels
    &&& a.config == b.config
}

/// Of a pod that changes its namespace nothing else changes.
pub proof fn lemma_only_the_namespace_changes(a: SandboxData, b: SandboxData)
    ensures
        same_but_netns(a, b) <==> a == (SandboxData { netns: a.netns, ..b }),
{
}

/// The network namespace of a sandbox that is continued: its own, and without one
/// that which the snapshot kept alive. A sandbox that is resumed takes up the one
/// of the snapshot, where it has any.
pub open spec fn continued_netns(way: ServiceRestore, own: Seq<char>, kept: Seq<char>) -> Seq<char> {
    if kept.len() == 0 || (way is Continuation && own.len() > 0) {
        own
    } else {
        kept
    }
}

/// A sandbox has a network namespace once it or its snapshot has one. What the caller
/// provided for a continuation is never replaced, and one that is resumed goes back to
/// where its snapshot was taken.
pub proof fn lemma_continued_in_its_namespace(
    way: ServiceRestore,
    own: Seq<char>,
    kept: Seq<char>,
)
    ensures
        continued_netns(way, own, kept).len() > 0 <==> own.len() > 0 || kept.len() > 0,
        way is Continuation && own.len() > 0 ==> continued_netns(way, own, kept) == own,
        way is Resume && kept.len() > 0 ==> continued_netns(way, own, kept) == kept,
        own.len() == 0 ==> continued_netns(way, own, kept) == kept || kept.len() == 0,
        kept.len() == 0 ==> continued_netns(way, own, kept) == own,
{
}

impl KuasarSandbox {
    /// Remembers the warm fork that this sandbox is restored from.
    pub fn remember_warm_fork(
        &mut self,
        tmpl: &PooledTemplate,
        lease_mode: TemplateLeaseMode,
        reflink_supported: bool,
    )
        ensures
            remembers(
                *final(self),
                *old(self),
                *tmpl,
                tmpl.key.key@,
                SnapshotType::WarmFork,
                lease_mode,
                reflink_supported,
            ),
            final(self).data == old(self).data,
    {
        self.template_id = Some(tmpl.id.clone());
        self.template_key = Some(tmpl.key.key.clone());
        self.template_snapshot_type = Some(SnapshotType::WarmFork);
        self.lease_mode = Some(lease_mode);
        self.reflink_supported = Some(reflink_supported);
        self.id_generator = tmpl.id_generator;
    }

    /// Remembers the continuation that this sandbox is restored from, and takes up
    /// its network namespace where it has to. The result tells whether the caller
    /// had provided a namespace. A continuation is used up.
    pub fn remember_continuation(
        &mut self,
        way: ServiceRestore,
        tmpl: &PooledTemplate,
        key: &str,
        reflink_supported: bool,
    ) -> (r: bool)
        requires
            !(way is WarmFork),
        ensures
            remembers(
                *final(self),
                *old(self),
                *tmpl,
                key@,
                SnapshotType::Continuation,
                TemplateLeaseMode::Exclusive,
                reflink_supported,
            ),
            same_but_netns(final(self).data, old(self).data),
            final(self).data.netns@ == continued_netns(way, old(self).data.netns@, tmpl.netns@),
            r == (old(self).data.netns@.len() > 0),
    {
        let provided: bool = !self.data.netns.as_str().is_empty();
        self.template_id = Some(tmpl.id.clone());
        self.template_key = Some(key.to_owned());
        self.template_snapshot_type = Some(SnapshotType::Continuation);
        self.lease_mode = Some(TemplateLeaseMode::Exclusive);
        self.reflink_supported = Some(reflink_supported);
        self.id_generator = tmpl.id_generator;
        let keeps_own: bool = matches!(way, ServiceRestore::Continuation) && provided;
        if !keeps_own && !tmpl.netns.as_str().is_empty() {
            self.data.netns = tmpl.netns.clone();
        }
        provided
    }

    /// What the hypervisor restores this sandbox from.
    pub fn service_source(
        &self,
        sandbox_id: &str,
        tmpl: PooledTemplate,
        snapshot_type: SnapshotType,
        lease_mode: TemplateLeaseMode,
        memory_restore_mode: MemoryRestoreMode,
        reflink_supported: bool,
        warm_fork_params: Option<WarmForkParams>,
    ) -> (r: RestoreSource)
        ensures
            r.snapshot_dir == tmpl.snapshot_dir,
            r.work_dir@ == self.base_dir@ + "/restore"@,
            r.overrides.task_vsock@ == self.base_dir@ + "/"@ + file_name(
                tmpl.original_task_vsock@,
            ),
            r.overrides.console_path@ == "/tmp/"@ + sandbox_id@ + "-task.log"@,
            r.snapshot_type == snapshot_type,
            r.disk_images == tmpl.disk_images,
            r.storages == tmpl.storages,
            r.orphan_container_ids == tmpl.orphan_container_ids,
            r.memory_restore_mode == memory_restore_mode,
            r.reflink_supported == reflink_supported,
            r.lease_mode == lease_mode,
            r.warm_fork_params == warm_fork_params,
    {
        RestoreSource {
            snapshot_dir: tmpl.snapshot_dir,
            work_dir: concat(self.base_dir.as_str(), "/restore"),
            overrides: SnapshotPathOverrides::from_original(
                self.base_dir.as_str(),
                tmpl.original_task_vsock.as_str(),
                sandbox_id,
            ),
            snapshot_type,
            disk_images: tmpl.disk_images,
            storages: tmpl.storages,
            orphan_container_ids: tmpl.orphan_container_ids,
            memory_restore_mode,
            reflink_supported,
            lease_mode,
            warm_fork_params,
        }
    }
}

// ── In which steps ──────────────────────────────────────────────────────────

/// A step of restoring a sandbox.
#[derive(Clone, Copy, Debug, PartialEq, Eq, Structural)]
pub enum ServiceStep {
    /// Let go of the network of the life before. This cannot fail.
    DropNetwork,
    /// Let go of the connection of the life before. This cannot fail.
    DropClient,
    /// Build a network in the namespace that the caller provided.
    PrepareNetwork,
    /// Open the tap devices that the snapshot left in its namespace.
    ReopenTaps,
    /// Restore the guest.
    Restore,
    /// Watch for the end of the guest. This cannot fail.
    Monitor,
    AddToCgroup,
    Dump,
}

/// What is known of a sandbox when its restoration is planned.
#[derive(Clone, Copy, Debug, PartialEq, Eq, Structural)]
pub struct ServiceSituation {
    pub way: ServiceRestore,
    /// Whether it has a network namespace.
    pub has_netns: bool,
    /// Whether the caller provided that namespace.
    pub caller_netns: bool,
    /// Whether it has a parent cgroup.
    pub has_cgroup: bool,
}

/// How the network of a sandbox comes about. A warm fork gets a new one. A
/// continuation gets a new one in a namespace that the caller provided, and
/// otherwise takes up its own. A sandbox that is resumed takes up its own.
pub open spec fn network_step(s: ServiceSituation) -> Option<ServiceStep> {
    if !s.has_netns {
        None
    } else {
        match s.way {
            ServiceRestore::WarmFork => Some(ServiceStep::PrepareNetwork),
            ServiceRestore::Continuation => if s.caller_netns {
                Some(ServiceStep::PrepareNetwork)
            } else {
                Some(ServiceStep::ReopenTaps)
            },
            ServiceRestore::Resume => Some(ServiceStep::ReopenTaps),
        }
    }
}

/// The steps before the guest is restored.
pub open spec fn service_lead(s: ServiceSituation) -> Seq<ServiceStep> {
    (if s.way is Resume {
        seq![ServiceStep::DropNetwork, ServiceStep::DropClient]
    } else {
        Seq::empty()
    }) + (match network_step(s) {
        Some(step) => seq![step],
        None => Seq::empty(),
    })
}

/// The steps from restoring the guest on.
pub open spec fn service_tail(s: ServiceSituation) -> Seq<ServiceStep> {
    seq![ServiceStep::Restore, ServiceStep::Monitor] + (if s.has_cgroup {
        seq![ServiceStep::AddToCgroup]
    } else {
        Seq::empty()
    }) + seq![ServiceStep::Dump]
}

/// The steps of restoring a sandbox, in order.
pub open spec fn service_plan(s: ServiceSituation) -> Seq<ServiceStep> {
    service_lead(s) + service_tail(s)
}

/// The steps of restoring a sandbox, in order. The first that fails ends it. After
/// the last the lease of the template is completed.
pub fn service_steps(s: ServiceSituation) -> (r: Vec<ServiceStep>)
    ensures
        r@ == service_plan(s),
{
    let mut steps: Vec<ServiceStep> = Vec::new();
    if matches!(s.way, ServiceRestore::Resume) {
        steps.push(ServiceStep::DropNetwork);
        steps.push(ServiceStep::DropClient);
    }
    if s.has_netns {
        match s.way {
            ServiceRestore::WarmFork => {
                steps.push(ServiceStep::PrepareNetwork);
            },
            ServiceRestore::Continuation => {
                if s.caller_netns {
                    steps.push(ServiceStep::PrepareNetwork);
                } else {
                    steps.push(ServiceStep::ReopenTaps);
                }
            },
            ServiceRestore::Resume => {
                steps.push(ServiceStep::ReopenTaps);
            },
        }
    }
    assert(steps@ =~= service_lead(s));
    steps.push(ServiceStep::Restore);
    steps.push(ServiceStep::Monitor);
    if s.has_cgroup {
        steps.push(ServiceStep::AddToCgroup);
    }
    steps.push(ServiceStep::Dump);
    assert(steps@ =~= service_plan(s));
    steps
}

/// A sandbox is restored in order: one that is resumed first lets go of the life before; the
/// network comes next, before the guest; then the guest is restored, watched, put into its
/// control group where it has one, and kept in its file. A network is built for a warm fork,
/// and for a continuation whose caller provided the namespace; the taps are taken up again
/// for any other that has a namespace.
pub proof fn lemma_service_restores_in_order(s: ServiceSituation)
    ensures
        ({
            let plan = service_plan(s);
            let built = s.has_netns && (s.way is WarmFork || (s.way is Continuation
                && s.caller_netns));
            let taken_up = s.has_netns && (s.way is Resume || (s.way is Continuation
                && !s.caller_netns));
            &&& plan.no_duplicates()
            &&& plan.contains(ServiceStep::DropNetwork) <==> s.way is Resume
            &&& plan.contains(ServiceStep::DropClient) <==> s.way is Resume
            &&& plan.contains(ServiceStep::PrepareNetwork) <==> built
            &&& plan.contains(ServiceStep::ReopenTaps) <==> taken_up
            &&& plan.contains(ServiceStep::AddToCgroup) <==> s.has_cgroup
            &&& s.way is Resume ==> comes_before(
                plan,
                ServiceStep::DropNetwork,
                ServiceStep::DropClient,
            ) && comes_before(plan, ServiceStep::DropClient, ServiceStep::Restore)
            &&& s.way is Resume && s.has_netns ==> comes_before(
                plan,
                ServiceStep::DropClient,
                ServiceStep::ReopenTaps,
            )
            &&& built ==> comes_before(plan, ServiceStep::PrepareNetwork, ServiceStep::Restore)
            &&& taken_up ==> comes_before(plan, ServiceStep::ReopenTaps, ServiceStep::Restore)
            &&& comes_before(plan, ServiceStep::Restore, ServiceStep::Monitor)
            &&& comes_before(plan, ServiceStep::Monitor, ServiceStep::Dump)
            &&& s.has_cgroup ==> comes_before(
                plan,
                ServiceStep::Monitor,
                ServiceStep::AddToCgroup,
            ) && comes_before(plan, ServiceStep::AddToCgroup, ServiceStep::Dump)
        }),
{
    let plan = service_plan(s);
    let n = plan.len() as int;
    let a: int = if s.way is Resume {
        2
    } else {
        0
    };
    let b: int = a + if s.has_netns {
        1int
    } else {
        0
    };
    assert(plan[b] == ServiceStep::Restore && plan[b + 1] == ServiceStep::Monitor);
    assert(plan[n - 1] == ServiceStep::Dump);
    if s.way is Resume {
        assert(plan[0] == ServiceStep::DropNetwork && plan[1] == ServiceStep::DropClient);
    }
    if s.has_netns {
        assert(Some(plan[a]) == network_step(s));
    }
    if s.has_cgroup {
        assert(plan[b + 2] == ServiceStep::AddToCgroup);
    }
    assert(plan.no_duplicates());
    lemma_comes_before(plan, b, b + 1);
    lemma_comes_before(plan, b + 1, n - 1);
    if s.way is Resume {
        lemma_comes_before(plan, 0, 1);
        lemma_comes_before(plan, 1, b);
    }
    if s.way is Resume && s.has_netns {
        lemma_comes_before(plan, 1, a);
    }
    if s.has_netns {
        lemma_comes_before(plan, a, b);
    }
    if s.has_cgroup {
        lemma_comes_before(plan, b + 1, b + 2);
        lemma_comes_before(plan, b + 2, n - 1);
    }
}

/// What is undone where a step of restoring a sandbox fails.
#[derive(Clone, Copy, Debug, PartialEq, Eq, Structural)]
pub enum ServiceUndo {
    ClearTemplate,
    /// Stop the sandbox by force. That this fails changes nothing.
    StopSandbox,
    /// Stop the hypervisor by force. That this fails changes nothing.
    StopVm,
    DestroyNetwork,
    FailLease,
}

/// What is undone where a step fails, in order. The template always goes back. A
/// guest that was restored is stopped. The network of a warm fork is destroyed;
/// that of a continuation only as long as its guest was not restored, and only
/// where it was built for it.
pub open spec fn service_undo(s: ServiceSituation, step: ServiceStep) -> Seq<ServiceUndo> {
    match step {
        ServiceStep::DropNetwork | ServiceStep::DropClient | ServiceStep::Monitor => Seq::empty(),
        ServiceStep::PrepareNetwork => if s.way is WarmFork {
            seq![ServiceUndo::FailLease, ServiceUndo::DestroyNetwork]
        } else {
            seq![ServiceUndo::DestroyNetwork, ServiceUndo::FailLease]
        },
        ServiceStep::ReopenTaps => seq![ServiceUndo::FailLease],
        ServiceStep::Restore => if s.way is WarmFork || (s.way is Continuation && s.caller_netns) {
            seq![ServiceUndo::ClearTemplate, ServiceUndo::DestroyNetwork, ServiceUndo::FailLease]
        } else {
            seq![ServiceUndo::ClearTemplate, ServiceUndo::FailLease]
        },
        ServiceStep::AddToCgroup | ServiceStep::Dump => match s.way {
            ServiceRestore::WarmFork => seq![
                ServiceUndo::ClearTemplate,
                ServiceUndo::StopSandbox,
                ServiceUndo::DestroyNetwork,
                ServiceUndo::FailLease,
            ],
            ServiceRestore::Continuation => seq![
                ServiceUndo::ClearTemplate,
                ServiceUndo::StopSandbox,
                ServiceUndo::FailLease,
            ],
            ServiceRestore::Resume => seq![
                ServiceUndo::ClearTemplate,
                ServiceUndo::StopVm,
                ServiceUndo::FailLease,
            ],
        },
    }
}

/// What is undone where a step fails, in order.
pub fn service_rollback(s: ServiceSituation, step: ServiceStep) -> (r: Vec<ServiceUndo>)
    ensures
        r@ == service_undo(s, step),
{
    let warm: bool = matches!(s.way, ServiceRestore::WarmFork);
    let mut undo: Vec<ServiceUndo> = Vec::new();
    match step {
        ServiceStep::DropNetwork | ServiceStep::DropClient | ServiceStep::Monitor => {},
        ServiceStep::PrepareNetwork => {
            if warm {
                undo.push(ServiceUndo::FailLease);
                undo.push(ServiceUndo::DestroyNetwork);
            } else {
                undo.push(ServiceUndo::DestroyNetwork);
                undo.push(ServiceUndo::FailLease);
            }
        },
        ServiceStep::ReopenTaps => {
            undo.push(ServiceUndo::FailLease);
        },
        ServiceStep::Restore => {
            undo.push(ServiceUndo::ClearTemplate);
            if warm || (matches!(s.way, ServiceRestore::Continuation) && s.caller_netns) {
                undo.push(ServiceUndo::DestroyNetwork);
            }
            undo.push(ServiceUndo::FailLease);
        },
        ServiceStep::AddToCgroup | ServiceStep::Dump => {
            undo.push(ServiceUndo::ClearTemplate);
            match s.way {
                ServiceRestore::WarmFork => {
                    undo.push(ServiceUndo::StopSandbox);
                    undo.push(ServiceUndo::DestroyNetwork);
                },
                ServiceRestore::Continuation => {
                    undo.push(ServiceUndo::StopSandbox);
                },
                ServiceRestore::Resume => {
                    undo.push(ServiceUndo::StopVm);
                },
            }
            undo.push(ServiceUndo::FailLease);
        },
    }
    assert(undo@ =~= service_undo(s, step));
    undo
}

/// Whether a step can fail.
pub open spec fn may_fail(step: ServiceStep) -> bool {
    !(step is DropNetwork || step is DropClient || step is Monitor)
}

/// Whether the guest is stopped.
pub open spec fn stops(undo: Seq<ServiceUndo>) -> bool {
    undo.contains(ServiceUndo::StopSandbox) || undo.contains(ServiceUndo::StopVm)
}

/// Whatever step fails, the template goes back. Where the guest runs by then it is
/// stopped, and otherwise nothing is. From restoring the guest on the sandbox
/// forgets the template.
pub proof fn lemma_failed_service_restore_gives_back(s: ServiceSituation, i: int, k: int)
    requires
        0 <= i < service_plan(s).len(),
        may_fail(service_plan(s)[i]),
        0 <= k < service_plan(s).len(),
        service_plan(s)[k] is Restore,
    ensures
        service_undo(s, service_plan(s)[i]).contains(ServiceUndo::FailLease),
        stops(service_undo(s, service_plan(s)[i])) <==> k < i,
        service_undo(s, service_plan(s)[i]).contains(ServiceUndo::ClearTemplate) <==> k <= i,
{
    let plan = service_plan(s);
    let lead = service_lead(s);
    let tail = service_tail(s);
    let undo = service_undo(s, plan[i]);
    assert(plan[i] == if i < lead.len() {
        lead[i]
    } else {
        tail[i - lead.len()]
    });
    assert(plan[k] == if k < lead.len() {
        lead[k]
    } else {
        tail[k - lead.len()]
    });
    assert(tail[0] is Restore);
    assert(k == lead.len());
    assert(undo.last() == ServiceUndo::FailLease || undo[0] == ServiceUndo::FailLease);
    assert(undo.contains(ServiceUndo::FailLease));
    if k <= i {
        assert(undo[0] == ServiceUndo::ClearTemplate);
    }
    if k < i {
        assert(undo[1] == ServiceUndo::StopSandbox || undo[1] == ServiceUndo::StopVm);
    }
}

/// What is undone is undone once and in order: the sandbox forgets its template before it
/// is stopped, and its network and its template are let go of only once it is stopped. One
/// that is resumed keeps its own network whatever fails, and only its guest is stopped; a
/// continuation keeps its network once its guest was restored.
pub proof fn lemma_service_undoes_in_order(s: ServiceSituation, step: ServiceStep)
    ensures
        ({
            let undo = service_undo(s, step);
            let late = step is AddToCgroup || step is Dump;
            &&& undo.no_duplicates()
            &&& undo.contains(ServiceUndo::FailLease) <==> may_fail(step)
            &&& undo.contains(ServiceUndo::StopSandbox) <==> late && !(s.way is Resume)
            &&& undo.contains(ServiceUndo::StopVm) <==> late && s.way is Resume
            &&& undo.contains(ServiceUndo::ClearTemplate) <==> late || step is Restore
            &&& late && s.way is Resume ==> comes_before(
                undo,
                ServiceUndo::ClearTemplate,
                ServiceUndo::StopVm,
            ) && comes_before(undo, ServiceUndo::StopVm, ServiceUndo::FailLease)
            &&& late && !(s.way is Resume) ==> comes_before(
                undo,
                ServiceUndo::ClearTemplate,
                ServiceUndo::StopSandbox,
            ) && comes_before(undo, ServiceUndo::StopSandbox, ServiceUndo::FailLease)
            &&& late && s.way is WarmFork ==> comes_before(
                undo,
                ServiceUndo::StopSandbox,
                ServiceUndo::DestroyNetwork,
            )
            &&& undo.contains(ServiceUndo::DestroyNetwork) <==> step is PrepareNetwork || (step
                is Restore && (s.way is WarmFork || (s.way is Continuation && s.caller_netns))) || (
            late && s.way is WarmFork)
        }),
{
    let undo = service_undo(s, step);
    match step {
        ServiceStep::DropNetwork | ServiceStep::DropClient | ServiceStep::Monitor => {},
        ServiceStep::PrepareNetwork => {
            assert(undo[0] == ServiceUndo::FailLease || undo[1] == ServiceUndo::FailLease);
            assert(undo[0] == ServiceUndo::DestroyNetwork || undo[1]
                == ServiceUndo::DestroyNetwork);
        },
        ServiceStep::ReopenTaps => {
            assert(undo[0] == ServiceUndo::FailLease);
        },
        ServiceStep::Restore => {
            assert(undo[0] == ServiceUndo::ClearTemplate);
            assert(undo.last() == ServiceUndo::FailLease);
            if s.way is WarmFork || (s.way is Continuation && s.caller_netns) {
                assert(undo[1] == ServiceUndo::DestroyNetwork);
            }
        },
        ServiceStep::AddToCgroup | ServiceStep::Dump => {
            lemma_comes_before(undo, 0, 1);
            lemma_comes_before(undo, 1, undo.len() - 1);
            lemma_comes_before(undo, 1, 2);
        },
    }
}

/// Whatever step fails after a network was built for a warm fork, or for a
/// continuation whose guest was not restored yet, the network is destroyed. Taps
/// that were taken up are left alone.
pub proof fn lemma_failed_service_restore_and_network(s: ServiceSituation, i: int)
    requires
        0 <= i < service_plan(s).len(),
        may_fail(service_plan(s)[i]),
    ensures
        s.way is WarmFork ==> service_undo(s, service_plan(s)[i]).contains(
            ServiceUndo::DestroyNetwork,
        ),
        network_step(s) == Some(ServiceStep::PrepareNetwork) && (service_plan(s)[i] is Restore
            || service_plan(s)[i] is PrepareNetwork) ==> service_undo(
            s,
            service_plan(s)[i],
        ).contains(ServiceUndo::DestroyNetwork),
        network_step(s) == Some(ServiceStep::ReopenTaps) && !s.caller_netns ==> !service_undo(
            s,
            service_plan(s)[i],
        ).contains(ServiceUndo::DestroyNetwork),
{
    let plan = service_plan(s);
    let lead = service_lead(s);
    let undo = service_undo(s, plan[i]);
    assert(plan[i] == if i < lead.len() {
        lead[i]
    } else {
        service_tail(s)[i - lead.len()]
    });
    if s.way is WarmFork {
        assert(!(plan[i] is ReopenTaps));
        assert(undo[0] == ServiceUndo::DestroyNetwork || undo[1] == ServiceUndo::DestroyNetwork
            || undo[2] == ServiceUndo::DestroyNetwork);
    } else if s.way is Continuation && s.caller_netns && (plan[i] is Restore
        || plan[i] is PrepareNetwork) {
        assert(undo[0] == ServiceUndo::DestroyNetwork || undo[1] == ServiceUndo::DestroyNetwork);
    }
}

} // verus!
