//! Taking snapshots of applications and restoring guests from them.

use crate::cloud_hypervisor::factory::SandboxOption;
use crate::order::{comes_before, lemma_comes_before};
use crate::sandbox::data::{annotations_of, lookup};
use crate::snapshot::error::{error_text, SnapshotError, SnapshotErrorView};
use crate::snapshot::metrics::{
    elapsed, observed, one_more, record_restore, record_snapshot_created, record_store_sizes,
    RestoreTimer, SnapshotMetrics,
};
use crate::snapshot::store::{SnapshotKey, SnapshotMetadata, SnapshotStore, DEFAULT_SNAPSHOT_ROOT};
use crate::text::{concat, concat3, join_path, path_join};
use vstd::prelude::*;

verus! {

/// The annotation by which a pod asks to be started from a snapshot.
pub const SNAPSHOT_KEY_ANNOTATION: &'static str = "snapshotter.kuasar.io/snapshot-key";

/// The annotation that names the hypervisor of a snapshot.
pub const HYPERVISOR_TYPE_ANNOTATION: &'static str = "snapshotter.kuasar.io/hypervisor";

/// Takes snapshots of the guests that a factory makes, and restores them.
pub struct SnapshotManager<F> {
    pub factory: F,
    pub store: SnapshotStore,
}

/// A step of taking a snapshot.
#[derive(Clone, Copy, Debug, PartialEq, Eq, Structural)]
pub enum CreateStep {
    /// Make the directories of the store.
    InitStore,
    /// Make the directory that the hypervisor writes to.
    MakeStaging,
    CreateVm,
    StartVm,
    TakeSnapshot,
    /// Stop the guest. That this fails changes nothing.
    StopVm,
    /// Take the files up into the store.
    Import,
}

/// The steps of taking a snapshot, in order.
pub open spec fn create_plan() -> Seq<CreateStep> {
    seq![
        CreateStep::InitStore,
        CreateStep::MakeStaging,
        CreateStep::CreateVm,
        CreateStep::StartVm,
        CreateStep::TakeSnapshot,
        CreateStep::StopVm,
        CreateStep::Import,
    ]
}

impl<F> SnapshotManager<F> {
    /// A manager of the guests of a factory.
    pub fn new(factory: F, store: SnapshotStore) -> (r: Self)
        ensures
            r.factory == factory,
            r.store == store,
    {
        SnapshotManager { factory, store }
    }

    /// A manager that keeps its snapshots in the usual directory.
    pub fn with_default_store(factory: F) -> (r: Self)
        ensures
            r.factory == factory,
            r.store.root_text() == DEFAULT_SNAPSHOT_ROOT@,
    {
        Self::new(factory, SnapshotStore::default_store())
    }

    /// The directory that a new snapshot is written to, and its address.
    pub fn staging(&self, sandbox_id: &str) -> (r: (String, String))
        ensures
            r.0@ == path_join(self.store.root_text(), "staging-"@ + sandbox_id@),
            r.1@ == "file://"@ + r.0@,
    {
        let name = concat("staging-", sandbox_id);
        let dir = join_path(self.store.root(), name.as_str());
        let url = concat("file://", dir.as_str());
        (dir, url)
    }

    /// The steps of taking a snapshot, in order. The first that fails ends it, but
    /// for stopping the guest. A hypervisor that cannot take snapshots is refused.
    pub fn create_snapshot(&self, supported: bool) -> (r: Result<Vec<CreateStep>, SnapshotError>)
        ensures
            match r {
                Ok(steps) => supported && steps@ == create_plan(),
                Err(e) => !supported && e@ == SnapshotErrorView::Unsupported,
            },
    {
        if !supported {
            return Err(SnapshotError::Unsupported);
        }
        let mut steps: Vec<CreateStep> = Vec::new();
        steps.push(CreateStep::InitStore);
        steps.push(CreateStep::MakeStaging);
        steps.push(CreateStep::CreateVm);
        steps.push(CreateStep::StartVm);
        steps.push(CreateStep::TakeSnapshot);
        steps.push(CreateStep::StopVm);
        steps.push(CreateStep::Import);
        assert(steps@ =~= create_plan());
        Ok(steps)
    }

    /// Counts a snapshot that was taken.
    pub fn snapshot_created(&self, meta: &SnapshotMetadata, metrics: &mut SnapshotMetrics)
        ensures
            *final(metrics) == (SnapshotMetrics {
                created: one_more(old(metrics).created),
                store_memory_bytes: meta.memory_size_bytes,
                store_state_bytes: meta.state_size_bytes,
                ..*old(metrics)
            }),
    {
        record_snapshot_created(metrics);
        record_store_sizes(metrics, meta.memory_size_bytes, meta.state_size_bytes);
    }

    /// The address that a guest is restored from, given what the store has for the
    /// key, or what is said where there is none. A hypervisor that cannot is refused.
    pub fn restore_vm_from_key(
        &self,
        supported: bool,
        key: &SnapshotKey,
        found: Result<SnapshotMetadata, SnapshotError>,
    ) -> (r: Result<String, String>)
        ensures
            match (r, found) {
                (Ok(url), Ok(meta)) => supported && url@ == "file://"@ + self.store.dir_of(
                    meta.id.0@,
                ),
                (Ok(_), Err(_)) => false,
                (Err(message), Ok(_)) => !supported && message@ == error_text(
                    SnapshotErrorView::Unsupported,
                ),
                (Err(message), Err(e)) => message@ == (if supported {
                    "get snapshot by key '"@ + key.0@ + "': "@ + error_text(e@)
                } else {
                    error_text(SnapshotErrorView::Unsupported)
                }),
            },
    {
        if !supported {
            return Err(SnapshotError::Unsupported.to_string());
        }
        match found {
            Ok(meta) => Ok(self.store.source_url(&meta.id)),
            Err(e) => {
                let said = e.to_string();
                let head = concat3("get snapshot by key '", key.as_str(), "': ");
                Err(concat(head.as_str(), said.as_str()))
            },
        }
    }

    /// Counts an attempt to restore, and how long it took.
    pub fn restore_ended(
        &self,
        timer: RestoreTimer,
        now_ns: u64,
        success: bool,
        metrics: &mut SnapshotMetrics,
    )
        ensures
            observed(*final(metrics), *old(metrics), elapsed(timer.0, now_ns)),
            *final(metrics) == (SnapshotMetrics {
                restored_ok: if success {
                    one_more(old(metrics).restored_ok)
                } else {
                    old(metrics).restored_ok
                },
                restored_err: if success {
                    old(metrics).restored_err
                } else {
                    one_more(old(metrics).restored_err)
                },
                restore_buckets: final(metrics).restore_buckets,
                restore_count: final(metrics).restore_count,
                restore_sum_ns: final(metrics).restore_sum_ns,
                ..*old(metrics)
            }),
    {
        timer.observe(metrics, now_ns);
        record_restore(metrics, success);
    }
}

/// A snapshot is taken in order: the store and the directory are made before the guest, the
/// guest is captured while it runs, and its files are taken up last.
pub proof fn lemma_snapshot_of_a_new_guest_in_order()
    ensures
        ({
            let plan = create_plan();
            &&& plan.no_duplicates()
            &&& comes_before(plan, CreateStep::InitStore, CreateStep::MakeStaging)
            &&& comes_before(plan, CreateStep::MakeStaging, CreateStep::CreateVm)
            &&& comes_before(plan, CreateStep::CreateVm, CreateStep::StartVm)
            &&& comes_before(plan, CreateStep::StartVm, CreateStep::TakeSnapshot)
            &&& comes_before(plan, CreateStep::TakeSnapshot, CreateStep::StopVm)
            &&& comes_before(plan, CreateStep::StopVm, CreateStep::Import)
        }),
{
    let plan = create_plan();
    assert(plan =~= seq![
        CreateStep::InitStore,
        CreateStep::MakeStaging,
        CreateStep::CreateVm,
        CreateStep::StartVm,
        CreateStep::TakeSnapshot,
        CreateStep::StopVm,
        CreateStep::Import,
    ]);
    lemma_comes_before(plan, 0, 1);
    lemma_comes_before(plan, 1, 2);
    lemma_comes_before(plan, 2, 3);
    lemma_comes_before(plan, 3, 4);
    lemma_comes_before(plan, 4, 5);
    lemma_comes_before(plan, 5, 6);
}

/// The guest that a snapshot was taken of is stopped before its files are taken up.
pub proof fn lemma_guest_is_stopped_before_import(i: int)
    requires
        0 <= i < create_plan().len(),
        create_plan()[i] is Import,
    ensures
        create_plan()[i - 1] is StopVm,
        create_plan()[i - 2] is TakeSnapshot,
{
}

/// The snapshot that a pod asks to be started from.
pub fn get_snapshot_key(s: &SandboxOption) -> (r: Option<SnapshotKey>)
    ensures
        match r {
            Some(key) => lookup(annotations_of(s.sandbox), SNAPSHOT_KEY_ANNOTATION@) == Some(
                key.0@,
            ),
            None => lookup(annotations_of(s.sandbox), SNAPSHOT_KEY_ANNOTATION@) is None,
        },
{
    match s.sandbox.annotation(SNAPSHOT_KEY_ANNOTATION) {
        Some(v) => Some(SnapshotKey(v.clone())),
        None => None,
    }
}

} // verus!
