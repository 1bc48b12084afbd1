//! Restoring a sandbox from a snapshot.

use crate::cloud_hypervisor::snapshot::SnapshotPathOverrides;
use crate::order::{comes_before, lemma_comes_before};
use crate::sandbox::config::{MemoryRestoreMode, TemplateLeaseMode};
use crate::sandbox::lifecycle::Rollback;
use crate::sandbox::refs::release_of;
use crate::sandbox::state::{same_but_storages, same_but_template, KuasarSandbox};
use crate::storage::{image_path, storage_image, Storage};
use crate::template::{DiskImageEntry, SnapshotType};
use crate::text::{
    concat, concat3, lemma_split_at_separator, lemma_unsplit, opt_text, pieces, split_on, texts,
};
use crate::vm::WarmForkParams;
use vstd::prelude::*;

verus! {

/// What is restored.
pub struct SnapshotRestoreParams {
    pub snapshot_dir: String,
    pub template_id: Option<String>,
    pub snapshot_type: SnapshotType,
    pub id_generator: u32,
    pub disk_images: Vec<DiskImageEntry>,
    pub storages: Vec<Storage>,
    pub orphan_container_ids: Vec<String>,
    pub lease_mode: TemplateLeaseMode,
    pub reflink_supported: bool,
    /// Where the vsock device of the guest was when the snapshot was taken.
    pub original_task_vsock: String,
    /// The tasks of a warm fork.
    pub warm_fork_params: Option<WarmForkParams>,
}

/// What the hypervisor restores from.
pub struct RestoreSource {
    pub snapshot_dir: String,
    pub work_dir: String,
    pub overrides: SnapshotPathOverrides,
    pub snapshot_type: SnapshotType,
    pub disk_images: Vec<DiskImageEntry>,
    pub storages: Vec<Storage>,
    pub orphan_container_ids: Vec<String>,
    pub memory_restore_mode: MemoryRestoreMode,
    pub reflink_supported: bool,
    pub lease_mode: TemplateLeaseMode,
    pub warm_fork_params: Option<WarmForkParams>,
}

/// The last component of a path.
pub open spec fn file_name(path: Seq<char>) -> Seq<char> {
    pieces(path, '/').last()
}

/// The last component of a path is what stands behind its last slash.
pub proof fn lemma_file_name(dir: Seq<char>, name: Seq<char>)
    requires
        !name.contains('/'),
    ensures
        file_name(dir + "/"@ + name) == name,
        file_name(name) == name,
{
    reveal_strlit("/");
    assert("/"@ =~= seq!['/']);
    lemma_unsplit(name, '/');
    lemma_split_at_separator(dir, name, '/');
}

impl SnapshotPathOverrides {
    /// The paths of a sandbox in place of those of its snapshot: the socket keeps
    /// its name and moves into the directory of the sandbox.
    pub fn from_original(base_dir: &str, original_task_vsock: &str, id: &str) -> (r: Self)
        ensures
            r.task_vsock@ == base_dir@ + "/"@ + file_name(original_task_vsock@),
            r.console_path@ == "/tmp/"@ + id@ + "-task.log"@,
    {
        let parts = split_on(original_task_vsock, '/');
        let n: usize = parts.len();
        assert(texts(parts@)[n - 1] == parts@[n - 1]@);
        SnapshotPathOverrides {
            task_vsock: concat3(base_dir, "/", parts[n - 1].as_str()),
            console_path: concat3("/tmp/", id, "-task.log"),
        }
    }
}

/// What a sandbox that is being restored keeps of the snapshot.
pub open spec fn keeps_params(s: KuasarSandbox, p: SnapshotRestoreParams, mode: MemoryRestoreMode) -> bool {
    &&& opt_text(s.template_id) == opt_text(p.template_id)
    &&& s.template_snapshot_type == Some(p.snapshot_type)
    &&& s.lease_mode == Some(p.lease_mode)
    &&& s.reflink_supported == Some(p.reflink_supported)
    &&& s.memory_restore_mode == Some(mode)
}

/// A sandbox that is restored from a template gives back, when it is deleted, what its
/// restore takes: a reference for a guest that reads its memory from the files, or that
/// shares a warm fork, and else the files that it used up.
pub proof fn lemma_restored_sandbox_gives_back(
    s: KuasarSandbox,
    p: SnapshotRestoreParams,
    mode: MemoryRestoreMode,
)
    requires
        keeps_params(s, p, mode),
    ensures
        opt_text(s.template_id) == opt_text(p.template_id),
        ({
            let r = release_of(s, true, true);
            &&& p.template_id is None ==> r is Nothing
            &&& p.template_id is Some ==> {
                &&& p.snapshot_type is Environment ==> (r is Deref <==> !(mode is Copy)) && (r
                    is Nothing <==> mode is Copy)
                &&& p.snapshot_type is WarmFork ==> (r is Deref <==> p.lease_mode is Shared) && (r
                    is CleanupConsumed <==> p.lease_mode is Exclusive)
                &&& p.snapshot_type is Continuation ==> r is DeleteContinuation
            }
        }),
        s.reflink_supported == Some(p.reflink_supported),
{
}

impl KuasarSandbox {
    /// Begins to restore this sandbox: it keeps what it is restored from, and the
    /// source is what the hypervisor restores from.
    pub fn begin_restore(&mut self, params: SnapshotRestoreParams, mode: MemoryRestoreMode) -> (r:
        RestoreSource)
        ensures
            keeps_params(*final(self), params, mode),
            same_but_template(*final(self), *old(self)),
            r.snapshot_dir == params.snapshot_dir,
            r.work_dir@ == old(self).base_dir@ + "/restore"@,
            r.overrides.task_vsock@ == old(self).base_dir@ + "/"@ + file_name(
                params.original_task_vsock@,
            ),
            r.overrides.console_path@ == "/tmp/"@ + old(self).id@ + "-task.log"@,
            r.snapshot_type == params.snapshot_type,
            r.disk_images == params.disk_images,
            r.storages == params.storages,
            r.orphan_container_ids == params.orphan_container_ids,
            r.memory_restore_mode == mode,
            r.reflink_supported == params.reflink_supported,
            r.lease_mode == params.lease_mode,
            r.warm_fork_params == params.warm_fork_params,
    {
        self.template_id = match &params.template_id {
            Some(id) => Some(id.clone()),
            None => None,
        };
        self.template_snapshot_type = Some(params.snapshot_type);
        self.lease_mode = Some(params.lease_mode);
        self.reflink_supported = Some(params.reflink_supported);
        self.memory_restore_mode = Some(mode);
        let overrides = SnapshotPathOverrides::from_original(
            self.base_dir.as_str(),
            params.original_task_vsock.as_str(),
            self.id.as_str(),
        );
        RestoreSource {
            snapshot_dir: params.snapshot_dir,
            work_dir: concat(self.base_dir.as_str(), "/restore"),
            overrides,
            snapshot_type: params.snapshot_type,
            disk_images: params.disk_images,
            storages: params.storages,
            orphan_container_ids: params.orphan_container_ids,
            memory_restore_mode: mode,
            reflink_supported: params.reflink_supported,
            lease_mode: params.lease_mode,
            warm_fork_params: params.warm_fork_params,
        }
    }

    /// Gives out ids behind those of the snapshot: its devices are in the guest.
    pub fn continue_ids(&mut self, id_generator: u32)
        ensures
            *final(self) == (KuasarSandbox { id_generator, ..*old(self) }),
    {
        self.id_generator = id_generator;
    }
}

// ── Storages of a snapshot ──────────────────────────────────────────────────

/// A storage of a snapshot in a sandbox: the image that was made for it has moved
/// into the directory of the sandbox.
pub open spec fn remapped(before: Storage, after: Storage, base_dir: Seq<char>) -> bool {
    &&& after.host_source == before.host_source
    &&& after.mount_type == before.mount_type
    &&& after.id == before.id
    &&& after.device_id == before.device_id
    &&& after.ref_container == before.ref_container
    &&& after.need_guest_handle == before.need_guest_handle
    &&& after.source == before.source
    &&& after.driver == before.driver
    &&& after.driver_options == before.driver_options
    &&& after.fstype == before.fstype
    &&& after.options == before.options
    &&& after.mount_point == before.mount_point
    &&& after.owned_by_runtime == before.owned_by_runtime
    &&& after.lower_dirs == before.lower_dirs
    &&& if before.owned_by_runtime && before.device_id is Some {
        after.cleanup_path matches Some(p) && p@ == image_path(base_dir, before.id@)
    } else {
        after.cleanup_path == before.cleanup_path
    }
}

/// A storage that moved into a sandbox is the same one for the guest: only the image that
/// was made for it, and no other, is now in the directory of the sandbox.
pub proof fn lemma_moved_storage_is_the_same(
    before: Storage,
    after: Storage,
    base_dir: Seq<char>,
)
    requires
        remapped(before, after, base_dir),
    ensures
        after.id == before.id && after.device_id == before.device_id,
        after.source == before.source && after.mount_point == before.mount_point,
        after.fstype == before.fstype && after.options == before.options,
        after.driver == before.driver && after.ref_container == before.ref_container,
        after.host_source == before.host_source && after.lower_dirs == before.lower_dirs,
        after.owned_by_runtime == before.owned_by_runtime,
        before.owned_by_runtime && before.device_id is Some ==> (after.cleanup_path matches Some(p)
            && p@ == base_dir + "/"@ + before.id@ + ".img"@),
        !before.owned_by_runtime || before.device_id is None ==> after.cleanup_path
            == before.cleanup_path,
{
}

/// The storages of a snapshot in a sandbox: the images that were made for them
/// have moved into the directory of the sandbox.
pub fn remap_restored_storage_artifacts(storages: Vec<Storage>, base_dir: &str) -> (r: Vec<Storage>)
    ensures
        r@.len() == storages@.len(),
        forall|i: int|
            0 <= i < r@.len() ==> remapped(storages@[i], #[trigger] r@[i], base_dir@),
{
    let ghost all = storages@;
    let mut out: Vec<Storage> = Vec::new();
    for s in it: storages
        invariant
            it.seq() == all,
            out@.len() == it.index(),
            forall|i: int|
                0 <= i < out@.len() ==> remapped(all[i], #[trigger] out@[i], base_dir@),
    {
        let ghost k = it.index() as int;
        assert(s == all[k]);
        let mut t = s;
        if t.owned_by_runtime && t.device_id.is_some() {
            t.cleanup_path = Some(storage_image(base_dir, t.id.as_str()));
        }
        out.push(t);
    }
    out
}

impl KuasarSandbox {
    /// Takes over the storages and the running containers of a snapshot.
    pub fn adopt(&mut self, storages: Vec<Storage>, orphan_container_ids: Vec<String>)
        ensures
            final(self).storages@.len() == storages@.len(),
            forall|i: int|
                0 <= i < storages@.len() ==> remapped(
                    storages@[i],
                    #[trigger] final(self).storages@[i],
                    old(self).base_dir@,
                ),
            final(self).orphan_container_ids == orphan_container_ids,
            same_but_storages(
                (KuasarSandbox {
                    orphan_container_ids: old(self).orphan_container_ids,
                    ..*final(self)
                }),
                *old(self),
            ),
            final(self).id_generator == old(self).id_generator,
    {
        let moved = remap_restored_storage_artifacts(storages, self.base_dir.as_str());
        self.storages = moved;
        self.orphan_container_ids = orphan_container_ids;
    }
}

// ── The order of a restore ──────────────────────────────────────────────────

/// A step of restoring a sandbox.
#[derive(Clone, Copy, Debug, PartialEq, Eq, Structural)]
pub enum FlowStep {
    PreStart,
    PrepareNetwork,
    /// Restore the guest.
    Restore,
    /// Watch for the end of the guest. This cannot fail.
    Monitor,
    AddToCgroup,
    PostStart,
    Dump,
}

/// The steps of restoring a sandbox, in order. A workload that is continued keeps
/// the network that it has.
pub open spec fn flow_plan(has_netns: bool, t: SnapshotType) -> Seq<FlowStep> {
    seq![FlowStep::PreStart] + (if has_netns && !(t is Continuation) {
        seq![FlowStep::PrepareNetwork]
    } else {
        Seq::empty()
    }) + seq![
        FlowStep::Restore,
        FlowStep::Monitor,
        FlowStep::AddToCgroup,
        FlowStep::PostStart,
        FlowStep::Dump,
    ]
}

/// The steps of restoring a sandbox, in order. The first that fails ends it.
pub fn flow_steps(has_netns: bool, t: SnapshotType) -> (r: Vec<FlowStep>)
    ensures
        r@ == flow_plan(has_netns, t),
{
    let mut steps: Vec<FlowStep> = Vec::new();
    steps.push(FlowStep::PreStart);
    if has_netns && !matches!(t, SnapshotType::Continuation) {
        steps.push(FlowStep::PrepareNetwork);
    }
    steps.push(FlowStep::Restore);
    steps.push(FlowStep::Monitor);
    steps.push(FlowStep::AddToCgroup);
    steps.push(FlowStep::PostStart);
    steps.push(FlowStep::Dump);
    assert(steps@ =~= flow_plan(has_netns, t));
    steps
}

/// Whether the restored guest runs when a step begins.
pub open spec fn restored_at(step: FlowStep) -> bool {
    step is Monitor || step is AddToCgroup || step is PostStart || step is Dump
}

/// What is undone where a step of a restore fails. From the restore on the
/// sandbox forgets the template, and gives back what keeps the template's files;
/// a guest that runs is stopped.
pub open spec fn flow_undo(step: FlowStep, pinned: bool) -> Rollback {
    Rollback {
        unpin: restored_at(step) && pinned,
        clear_template: step is Restore || restored_at(step),
        stop: restored_at(step),
        destroy_network: !(step is PreStart),
    }
}

/// What is undone where a step of a restore fails.
pub fn flow_rollback(step: FlowStep, pinned: bool) -> (r: Rollback)
    ensures
        r == flow_undo(step, pinned),
{
    let runs: bool = matches!(
        step,
        FlowStep::Monitor | FlowStep::AddToCgroup | FlowStep::PostStart | FlowStep::Dump
    );
    Rollback {
        unpin: runs && pinned,
        clear_template: runs || matches!(step, FlowStep::Restore),
        stop: runs,
        destroy_network: !matches!(step, FlowStep::PreStart),
    }
}

/// A sandbox is restored in order: what comes before a start is done, a network is prepared
/// for one that has a namespace and is no continuation, the guest is restored, and then it
/// is watched, put into its control groups, what comes after a start is done, and it is
/// kept in its file.
pub proof fn lemma_sandbox_is_restored_in_order(has_netns: bool, t: SnapshotType)
    ensures
        ({
            let plan = flow_plan(has_netns, t);
            &&& plan.no_duplicates()
            &&& comes_before(plan, FlowStep::PreStart, FlowStep::Restore)
            &&& comes_before(plan, FlowStep::Restore, FlowStep::Monitor)
            &&& comes_before(plan, FlowStep::Monitor, FlowStep::AddToCgroup)
            &&& comes_before(plan, FlowStep::AddToCgroup, FlowStep::PostStart)
            &&& comes_before(plan, FlowStep::PostStart, FlowStep::Dump)
            &&& has_netns && !(t is Continuation) ==> comes_before(
                plan,
                FlowStep::PreStart,
                FlowStep::PrepareNetwork,
            )
            &&& has_netns && !(t is Continuation) ==> comes_before(
                plan,
                FlowStep::PrepareNetwork,
                FlowStep::Restore,
            )
            &&& plan.contains(FlowStep::PrepareNetwork) <==> has_netns && !(t is Continuation)
        }),
{
    let plan = flow_plan(has_netns, t);
    if has_netns && !(t is Continuation) {
        assert(plan =~= seq![
            FlowStep::PreStart,
            FlowStep::PrepareNetwork,
            FlowStep::Restore,
            FlowStep::Monitor,
            FlowStep::AddToCgroup,
            FlowStep::PostStart,
            FlowStep::Dump,
        ]);
        lemma_comes_before(plan, 0, 2);
        lemma_comes_before(plan, 2, 3);
        lemma_comes_before(plan, 3, 4);
        lemma_comes_before(plan, 4, 5);
        lemma_comes_before(plan, 5, 6);
        lemma_comes_before(plan, 0, 1);
        lemma_comes_before(plan, 1, 2);
        assert(plan[1] == FlowStep::PrepareNetwork);
    } else {
        assert(plan =~= seq![
            FlowStep::PreStart,
            FlowStep::Restore,
            FlowStep::Monitor,
            FlowStep::AddToCgroup,
            FlowStep::PostStart,
            FlowStep::Dump,
        ]);
        lemma_comes_before(plan, 0, 1);
        lemma_comes_before(plan, 1, 2);
        lemma_comes_before(plan, 2, 3);
        lemma_comes_before(plan, 3, 4);
        lemma_comes_before(plan, 4, 5);
    }
}

/// Where a restore fails, the network that was prepared is destroyed, the template
/// is forgotten, and a guest that was restored is stopped.
pub proof fn lemma_failed_restore_leaves_nothing(
    has_netns: bool,
    t: SnapshotType,
    i: int,
    k: int,
    pinned: bool,
)
    requires
        0 <= k < i < flow_plan(has_netns, t).len(),
    ensures
        ({
            let plan = flow_plan(has_netns, t);
            let undo = flow_undo(plan[i], pinned);
            &&& plan[k] is PrepareNetwork || plan[i] is PrepareNetwork ==> undo.destroy_network
            &&& plan[k] is Restore ==> undo.stop && undo.clear_template && undo.unpin == pinned
            &&& plan[i] is Restore ==> undo.clear_template && !undo.stop && !undo.unpin
            &&& undo.stop ==> exists|j: int| 0 <= j < i && (#[trigger] plan[j]) is Restore
            &&& undo.clear_template && !(plan[i] is Restore) ==> exists|j: int|
                0 <= j < i && (#[trigger] plan[j]) is Restore
            &&& undo.unpin ==> pinned
            &&& flow_undo(plan[0], pinned) == (Rollback {
                unpin: false,
                clear_template: false,
                stop: false,
                destroy_network: false,
            })
        }),
{
    let plan = flow_plan(has_netns, t);
    if has_netns && !(t is Continuation) {
        assert(plan[2] is Restore);
    } else {
        assert(plan[1] is Restore);
    }
}

/// A workload that is continued gets no new network.
pub proof fn lemma_continuation_keeps_its_network(has_netns: bool, i: int)
    requires
        0 <= i < flow_plan(has_netns, SnapshotType::Continuation).len(),
    ensures
        !(flow_plan(has_netns, SnapshotType::Continuation)[i] is PrepareNetwork),
{
}

// ── The order within the guest ──────────────────────────────────────────────

/// A step of bringing a restored guest to life.
#[derive(Clone, Copy, Debug, PartialEq, Eq, Structural)]
pub enum RestorePhase {
    /// Have the hypervisor load the snapshot.
    RestoreVm,
    /// Connect to the agent.
    InitClient,
    /// Plug in the network devices.
    HotplugNetwork,
    /// Take over the storages and containers of the snapshot. This cannot fail.
    AdoptStorages,
    /// Tell the guest its own name and network.
    RefreshIdentity,
    /// Give the guest fresh randomness. The restore goes on where this fails.
    ReseedEntropy,
    /// Hand the workload its task.
    InjectTask,
    /// The network follows the workload from outside. This cannot fail.
    TransferNetworkIdentity,
    /// Set the clock of the guest. This cannot fail.
    SyncClock,
    /// Push the files of the sandbox into the guest.
    PushSandboxFiles,
    /// Configure the guest.
    SetupSandbox,
    /// The sandbox runs. This cannot fail.
    Commit,
}

/// The steps of bringing a restored guest to life.
pub open spec fn phases(t: SnapshotType, on_blocks: bool) -> Seq<RestorePhase> {
    seq![RestorePhase::RestoreVm, RestorePhase::InitClient] + (match t {
        SnapshotType::WarmFork => seq![
            RestorePhase::HotplugNetwork,
            RestorePhase::AdoptStorages,
            RestorePhase::RefreshIdentity,
            RestorePhase::ReseedEntropy,
            RestorePhase::InjectTask,
        ],
        SnapshotType::Continuation => seq![
            RestorePhase::AdoptStorages,
            RestorePhase::TransferNetworkIdentity,
            RestorePhase::SyncClock,
        ],
        SnapshotType::Environment => seq![RestorePhase::HotplugNetwork] + (if on_blocks {
            seq![RestorePhase::PushSandboxFiles]
        } else {
            Seq::empty()
        }) + seq![RestorePhase::SetupSandbox, RestorePhase::ReseedEntropy],
    }) + seq![RestorePhase::Commit]
}

/// The steps of bringing a restored guest to life. The first that fails ends it.
pub fn restore_phases(t: SnapshotType, on_blocks: bool) -> (r: Vec<RestorePhase>)
    ensures
        r@ == phases(t, on_blocks),
{
    let mut v: Vec<RestorePhase> = Vec::new();
    v.push(RestorePhase::RestoreVm);
    v.push(RestorePhase::InitClient);
    match t {
        SnapshotType::WarmFork => {
            v.push(RestorePhase::HotplugNetwork);
            v.push(RestorePhase::AdoptStorages);
            v.push(RestorePhase::RefreshIdentity);
            v.push(RestorePhase::ReseedEntropy);
            v.push(RestorePhase::InjectTask);
        },
        SnapshotType::Continuation => {
            v.push(RestorePhase::AdoptStorages);
            v.push(RestorePhase::TransferNetworkIdentity);
            v.push(RestorePhase::SyncClock);
        },
        SnapshotType::Environment => {
            v.push(RestorePhase::HotplugNetwork);
            if on_blocks {
                v.push(RestorePhase::PushSandboxFiles);
            }
            v.push(RestorePhase::SetupSandbox);
            v.push(RestorePhase::ReseedEntropy);
        },
    }
    v.push(RestorePhase::Commit);
    assert(v@ =~= phases(t, on_blocks));
    v
}

/// Whether the guest is killed where a step fails.
pub open spec fn phase_kills(phase: RestorePhase) -> bool {
    !(phase is RestoreVm)
}

/// Whatever is restored: where a step fails the guest is killed exactly where the
/// hypervisor has loaded the snapshot before.
pub proof fn lemma_failed_phase_leaves_no_guest(t: SnapshotType, on_blocks: bool, i: int)
    requires
        0 <= i < phases(t, on_blocks).len(),
    ensures
        phase_kills(phases(t, on_blocks)[i]) <==> exists|k: int|
            0 <= k < i && (#[trigger] phases(t, on_blocks)[k]) is RestoreVm,
{
    let plan = phases(t, on_blocks);
    assert(plan[0] is RestoreVm);
    assert(forall|k: int| 0 < k < plan.len() ==> !((#[trigger] plan[k]) is RestoreVm));
}

/// Whether the guest is killed where a step fails: once the hypervisor has loaded
/// the snapshot. Before that there is none, or the hypervisor has killed it.
pub fn phase_kills_vm(phase: RestorePhase) -> (r: bool)
    ensures
        r == phase_kills(phase),
{
    !matches!(phase, RestorePhase::RestoreVm)
}

/// Whether the working directory is removed in the end.
pub open spec fn work_dir_goes(succeeded: bool, mode: MemoryRestoreMode) -> bool {
    !succeeded || mode is Copy
}

/// The working directory stays exactly while a restored guest reads its memory from it.
pub proof fn lemma_work_dir_stays_while_it_is_read(mode: MemoryRestoreMode)
    ensures
        work_dir_goes(false, mode),
        work_dir_goes(true, MemoryRestoreMode::Copy),
        !work_dir_goes(true, MemoryRestoreMode::OnDemand),
        !work_dir_goes(true, MemoryRestoreMode::FileBackend),
        !work_dir_goes(true, MemoryRestoreMode::ExternalUffd),
{
}

/// Whether the working directory is removed in the end: always where the restore
/// failed, and otherwise where the memory was copied. In the other modes the guest
/// still reads from it.
pub fn removes_work_dir(succeeded: bool, mode: MemoryRestoreMode) -> (r: bool)
    ensures
        r == work_dir_goes(succeeded, mode),
{
    !succeeded || matches!(mode, MemoryRestoreMode::Copy)
}

/// A booted guest is restored in order: its agent is connected to, then the network devices,
/// which its snapshot has lost, are plugged in, and only then the guest is configured and
/// given fresh randomness. The files of the sandbox are pushed before it is configured,
/// exactly where it shares no directory. Nothing else is done.
pub proof fn lemma_booted_guest_is_connected_then_configured(on_blocks: bool)
    ensures
        ({
            let plan = phases(SnapshotType::Environment, on_blocks);
            &&& plan.no_duplicates()
            &&& comes_before(plan, RestorePhase::RestoreVm, RestorePhase::InitClient)
            &&& comes_before(plan, RestorePhase::InitClient, RestorePhase::HotplugNetwork)
            &&& comes_before(plan, RestorePhase::HotplugNetwork, RestorePhase::SetupSandbox)
            &&& comes_before(plan, RestorePhase::SetupSandbox, RestorePhase::ReseedEntropy)
            &&& comes_before(plan, RestorePhase::ReseedEntropy, RestorePhase::Commit)
            &&& on_blocks ==> comes_before(
                plan,
                RestorePhase::InitClient,
                RestorePhase::PushSandboxFiles,
            )
            &&& on_blocks ==> comes_before(
                plan,
                RestorePhase::PushSandboxFiles,
                RestorePhase::SetupSandbox,
            )
            &&& plan.contains(RestorePhase::PushSandboxFiles) <==> on_blocks
            &&& plan.len() == (if on_blocks {
                7int
            } else {
                6
            })
        }),
{
    let plan = phases(SnapshotType::Environment, on_blocks);
    if on_blocks {
        assert(plan =~= seq![
            RestorePhase::RestoreVm,
            RestorePhase::InitClient,
            RestorePhase::HotplugNetwork,
            RestorePhase::PushSandboxFiles,
            RestorePhase::SetupSandbox,
            RestorePhase::ReseedEntropy,
            RestorePhase::Commit,
        ]);
        lemma_comes_before(plan, 0, 1);
        lemma_comes_before(plan, 1, 2);
        lemma_comes_before(plan, 2, 4);
        lemma_comes_before(plan, 4, 5);
        lemma_comes_before(plan, 5, 6);
        lemma_comes_before(plan, 1, 3);
        lemma_comes_before(plan, 3, 4);
        assert(plan[3] == RestorePhase::PushSandboxFiles);
    } else {
        assert(plan =~= seq![
            RestorePhase::RestoreVm,
            RestorePhase::InitClient,
            RestorePhase::HotplugNetwork,
            RestorePhase::SetupSandbox,
            RestorePhase::ReseedEntropy,
            RestorePhase::Commit,
        ]);
        lemma_comes_before(plan, 0, 1);
        lemma_comes_before(plan, 1, 2);
        lemma_comes_before(plan, 2, 3);
        lemma_comes_before(plan, 3, 4);
        lemma_comes_before(plan, 4, 5);
    }
}

/// A warm fork is restored in order: its agent is connected to, its network is plugged in,
/// the storages of the snapshot are taken over, the guest is told who it is and given fresh
/// randomness, and only then its workload gets the task. Nothing else is done.
pub proof fn lemma_warm_fork_is_restored_in_order(on_blocks: bool)
    ensures
        ({
            let plan = phases(SnapshotType::WarmFork, on_blocks);
            &&& plan.no_duplicates()
            &&& comes_before(plan, RestorePhase::RestoreVm, RestorePhase::InitClient)
            &&& comes_before(plan, RestorePhase::InitClient, RestorePhase::HotplugNetwork)
            &&& comes_before(plan, RestorePhase::HotplugNetwork, RestorePhase::AdoptStorages)
            &&& comes_before(plan, RestorePhase::AdoptStorages, RestorePhase::RefreshIdentity)
            &&& comes_before(plan, RestorePhase::RefreshIdentity, RestorePhase::ReseedEntropy)
            &&& comes_before(plan, RestorePhase::ReseedEntropy, RestorePhase::InjectTask)
            &&& comes_before(plan, RestorePhase::InjectTask, RestorePhase::Commit)
            &&& plan.len() == 8
        }),
{
    let plan = phases(SnapshotType::WarmFork, on_blocks);
    assert(plan =~= seq![
        RestorePhase::RestoreVm,
        RestorePhase::InitClient,
        RestorePhase::HotplugNetwork,
        RestorePhase::AdoptStorages,
        RestorePhase::RefreshIdentity,
        RestorePhase::ReseedEntropy,
        RestorePhase::InjectTask,
        RestorePhase::Commit,
    ]);
    lemma_comes_before(plan, 0, 1);
    lemma_comes_before(plan, 1, 2);
    lemma_comes_before(plan, 2, 3);
    lemma_comes_before(plan, 3, 4);
    lemma_comes_before(plan, 4, 5);
    lemma_comes_before(plan, 5, 6);
    lemma_comes_before(plan, 6, 7);
}

/// A workload that is continued is restored in order: its agent is connected to, its
/// storages are taken over, its network follows, and its clock is set. Nothing else is
/// done.
pub proof fn lemma_continuation_is_restored_in_order(on_blocks: bool)
    ensures
        ({
            let plan = phases(SnapshotType::Continuation, on_blocks);
            &&& plan.no_duplicates()
            &&& comes_before(plan, RestorePhase::RestoreVm, RestorePhase::InitClient)
            &&& comes_before(plan, RestorePhase::InitClient, RestorePhase::AdoptStorages)
            &&& comes_before(
                plan,
                RestorePhase::AdoptStorages,
                RestorePhase::TransferNetworkIdentity,
            )
            &&& comes_before(plan, RestorePhase::TransferNetworkIdentity, RestorePhase::SyncClock)
            &&& comes_before(plan, RestorePhase::SyncClock, RestorePhase::Commit)
            &&& plan.len() == 6
        }),
{
    let plan = phases(SnapshotType::Continuation, on_blocks);
    assert(plan =~= seq![
        RestorePhase::RestoreVm,
        RestorePhase::InitClient,
        RestorePhase::AdoptStorages,
        RestorePhase::TransferNetworkIdentity,
        RestorePhase::SyncClock,
        RestorePhase::Commit,
    ]);
    lemma_comes_before(plan, 0, 1);
    lemma_comes_before(plan, 1, 2);
    lemma_comes_before(plan, 2, 3);
    lemma_comes_before(plan, 3, 4);
    lemma_comes_before(plan, 4, 5);
}

/// A workload that waits for its task has fresh randomness, its own network and
/// its own storages before it gets the task.
pub proof fn lemma_task_comes_last(on_blocks: bool, i: int)
    requires
        0 <= i < phases(SnapshotType::WarmFork, on_blocks).len(),
        phases(SnapshotType::WarmFork, on_blocks)[i] is InjectTask,
    ensures
        exists|k: int|
            0 <= k < i && (#[trigger] phases(SnapshotType::WarmFork, on_blocks)[k])
                is ReseedEntropy,
        exists|k: int|
            0 <= k < i && (#[trigger] phases(SnapshotType::WarmFork, on_blocks)[k])
                is HotplugNetwork,
        exists|k: int|
            0 <= k < i && (#[trigger] phases(SnapshotType::WarmFork, on_blocks)[k])
                is RefreshIdentity,
{
    let v = phases(SnapshotType::WarmFork, on_blocks);
    assert(v[2] is HotplugNetwork && v[4] is RefreshIdentity && v[5] is ReseedEntropy);
    assert(v[6] is InjectTask);
}

/// A workload that is continued keeps its network, its configuration and its
/// randomness: nothing is plugged in, configured or reseeded, and no task is given.
pub proof fn lemma_continuation_is_undisturbed(on_blocks: bool, i: int)
    requires
        0 <= i < phases(SnapshotType::Continuation, on_blocks).len(),
    ensures
        ({
            let phase = phases(SnapshotType::Continuation, on_blocks)[i];
            !(phase is HotplugNetwork) && !(phase is SetupSandbox) && !(phase is ReseedEntropy)
                && !(phase is InjectTask) && !(phase is RefreshIdentity)
        }),
{
}

/// Whatever is restored, it begins with the hypervisor and ends with the sandbox
/// running.
pub proof fn lemma_restore_begins_and_ends(t: SnapshotType, on_blocks: bool)
    ensures
        phases(t, on_blocks).len() >= 5,
        phases(t, on_blocks)[0] is RestoreVm,
        phases(t, on_blocks).last() is Commit,
{
}

// ── Randomness ──────────────────────────────────────────────────────────────

/// `rand::random`, which draws from the generator of the thread. Nothing holds of
/// every outcome but that there are so many bytes.
#[verifier::external_body]
fn random_seed() -> [u8; 32] {
    rand::random()
}

/// The randomness that a restored guest is given where `seed` was drawn for it: all of
/// the seed, where there is a connection to its agent.
pub fn entropy_for(connected: bool, seed: [u8; 32]) -> (r: Option<[u8; 32]>)
    ensures
        r == (if connected {
            Some(seed)
        } else {
            None
        }),
{
    if connected {
        Some(seed)
    } else {
        None
    }
}

/// The randomness that a restored guest is given, freshly drawn for it: guests of one
/// snapshot would else draw the same numbers. Which bytes come out is left to chance.
pub fn reseed_guest_entropy(connected: bool) -> (r: Option<[u8; 32]>)
    ensures
        r is Some <==> connected,
{
    entropy_for(connected, random_seed())
}

} // verus!
