//! Starting a sandbox from a template: whether the template that was found may be
//! used, and what is restored from it.

use crate::sandbox::config::{SnapshotConfig, TemplateLeaseMode};
use crate::sandbox::restore::SnapshotRestoreParams;
use crate::sandbox::state::KuasarSandbox;
use crate::sandbox::template_pool::{
    check_pooled, check_requested, failure_settlement, fork_failure, fork_usable, forked,
    prepare_warm_fork, Lookup, TemplateFailure,
};
use crate::string_map::StringMap;
use crate::template::{PooledTemplate, SnapshotType};
use crate::vm::WarmForkParams;
use vstd::prelude::*;

verus! {

/// Whether `p` restores a template, as a snapshot of the given type.
pub open spec fn restores(
    p: SnapshotRestoreParams,
    tmpl: PooledTemplate,
    snapshot_type: SnapshotType,
    lease_mode: TemplateLeaseMode,
    reflink_supported: bool,
) -> bool {
    &&& p.snapshot_dir == tmpl.snapshot_dir
    &&& p.template_id == Some(tmpl.id)
    &&& p.snapshot_type == snapshot_type
    &&& p.id_generator == tmpl.id_generator
    &&& p.disk_images == tmpl.disk_images
    &&& p.storages == tmpl.storages
    &&& p.orphan_container_ids == tmpl.orphan_container_ids
    &&& p.lease_mode == lease_mode
    &&& p.reflink_supported == reflink_supported
    &&& p.original_task_vsock == tmpl.original_task_vsock
}

fn restore_params(
    tmpl: PooledTemplate,
    snapshot_type: SnapshotType,
    lease_mode: TemplateLeaseMode,
    reflink_supported: bool,
    warm_fork_params: Option<WarmForkParams>,
) -> (r: SnapshotRestoreParams)
    ensures
        restores(r, tmpl, snapshot_type, lease_mode, reflink_supported),
        r.warm_fork_params == warm_fork_params,
{
    SnapshotRestoreParams {
        snapshot_dir: tmpl.snapshot_dir,
        template_id: Some(tmpl.id),
        snapshot_type,
        id_generator: tmpl.id_generator,
        disk_images: tmpl.disk_images,
        storages: tmpl.storages,
        orphan_container_ids: tmpl.orphan_container_ids,
        lease_mode,
        reflink_supported,
        original_task_vsock: tmpl.original_task_vsock,
        warm_fork_params,
    }
}

/// How the pool lends a template that was found.
pub struct PoolTerms {
    pub lease_mode: TemplateLeaseMode,
    pub reflink_supported: bool,
    /// Whether the files of the template are there.
    pub files_present: bool,
}

/// Whether `r` is what is restored from a warm fork, or why it is not used.
pub open spec fn fork_attempt(
    r: Result<SnapshotRestoreParams, TemplateFailure>,
    tmpl: PooledTemplate,
    terms: PoolTerms,
    notes: Map<Seq<char>, Seq<char>>,
) -> bool {
    match r {
        Ok(p) => {
            &&& fork_usable(tmpl, terms.files_present, notes)
            &&& restores(
                p,
                tmpl,
                SnapshotType::WarmFork,
                terms.lease_mode,
                terms.reflink_supported,
            )
            &&& p.warm_fork_params matches Some(params) && forked(params, tmpl, notes)
        },
        Err(f) => fork_failure(f, tmpl, terms.files_present, notes),
    }
}

/// What is restored from a warm fork that was leased, or why it is not used.
pub fn restore_from_warm_fork_template(
    tmpl: PooledTemplate,
    terms: &PoolTerms,
    annotations: &StringMap,
) -> (r: Result<SnapshotRestoreParams, TemplateFailure>)
    ensures
        fork_attempt(r, tmpl, *terms, annotations@),
{
    match prepare_warm_fork(&tmpl, terms.files_present, annotations) {
        Ok(params) => Ok(
            restore_params(
                tmpl,
                SnapshotType::WarmFork,
                terms.lease_mode,
                terms.reflink_supported,
                Some(params),
            ),
        ),
        Err(f) => Err(f),
    }
}

/// Whether `r` is what is restored from the template that the pool had for a key, or
/// why nothing is. A booted guest is shared whatever the pool says.
pub open spec fn key_attempt(
    r: Result<SnapshotRestoreParams, TemplateFailure>,
    has_pool: bool,
    found: Option<PooledTemplate>,
    terms: PoolTerms,
    config: SnapshotConfig,
    notes: Map<Seq<char>, Seq<char>>,
) -> bool {
    if !has_pool {
        r matches Err(TemplateFailure::NoPool)
    } else {
        match found {
            None => r matches Err(TemplateFailure::PoolMiss),
            Some(tmpl) => if tmpl.snapshot_type is WarmFork {
                if config.enable_warmfork_restore {
                    fork_attempt(r, tmpl, terms, notes)
                } else {
                    r matches Err(TemplateFailure::TypeDisabled)
                }
            } else {
                match r {
                    Ok(p) => {
                        &&& terms.files_present
                        &&& restores(
                            p,
                            tmpl,
                            SnapshotType::Environment,
                            TemplateLeaseMode::Shared,
                            terms.reflink_supported,
                        )
                        &&& p.warm_fork_params is None
                    },
                    Err(f) => f is FilesMissing && !terms.files_present,
                }
            },
        }
    }
}

/// What is restored from the template that the pool had for a key, or why nothing
/// is. The pool holds no continuations.
pub fn start_with_template_key(
    has_pool: bool,
    found: Option<PooledTemplate>,
    terms: &PoolTerms,
    config: &SnapshotConfig,
    annotations: &StringMap,
) -> (r: Result<SnapshotRestoreParams, TemplateFailure>)
    requires
        found matches Some(tmpl) ==> !(tmpl.snapshot_type is Continuation),
    ensures
        key_attempt(r, has_pool, found, *terms, *config, annotations@),
{
    if !has_pool {
        return Err(TemplateFailure::NoPool);
    }
    let tmpl = match found {
        Some(tmpl) => tmpl,
        None => {
            return Err(TemplateFailure::PoolMiss);
        },
    };
    let lease_mode = match check_pooled(&tmpl, terms.lease_mode, config) {
        Ok(mode) => mode,
        Err(f) => {
            return Err(f);
        },
    };
    if matches!(tmpl.snapshot_type, SnapshotType::WarmFork) {
        return restore_from_warm_fork_template(tmpl, terms, annotations);
    }
    if !terms.files_present {
        return Err(TemplateFailure::FilesMissing);
    }
    Ok(
        restore_params(
            tmpl,
            SnapshotType::Environment,
            lease_mode,
            terms.reflink_supported,
            None,
        ),
    )
}

/// Whether `r` is what is restored from the template that the pool had under an id,
/// or why nothing is: it must be a warm fork, with the key that is asked for too.
pub open spec fn id_attempt(
    r: Result<SnapshotRestoreParams, TemplateFailure>,
    has_pool: bool,
    found: Option<PooledTemplate>,
    key: Option<Seq<char>>,
    terms: PoolTerms,
    config: SnapshotConfig,
    notes: Map<Seq<char>, Seq<char>>,
) -> bool {
    if !has_pool {
        r matches Err(TemplateFailure::NoPool)
    } else {
        match found {
            None => r matches Err(TemplateFailure::NotAvailable),
            Some(tmpl) => if !(tmpl.snapshot_type is WarmFork) {
                r matches Err(TemplateFailure::WrongType)
            } else if key matches Some(k) && tmpl.key.key@ != k {
                r matches Err(TemplateFailure::KeyMismatch)
            } else if !config.enable_warmfork_restore {
                r matches Err(TemplateFailure::TypeDisabled)
            } else {
                fork_attempt(r, tmpl, terms, notes)
            },
        }
    }
}

/// What is restored from the template that the pool had under an id, or why nothing
/// is.
pub fn start_with_template_id(
    has_pool: bool,
    found: Option<PooledTemplate>,
    key: Option<&str>,
    terms: &PoolTerms,
    config: &SnapshotConfig,
    annotations: &StringMap,
) -> (r: Result<SnapshotRestoreParams, TemplateFailure>)
    ensures
        id_attempt(
            r,
            has_pool,
            found,
            match key {
                Some(k) => Some(k@),
                None => None,
            },
            *terms,
            *config,
            annotations@,
        ),
{
    if !has_pool {
        return Err(TemplateFailure::NoPool);
    }
    let tmpl = match found {
        Some(tmpl) => tmpl,
        None => {
            return Err(TemplateFailure::NotAvailable);
        },
    };
    match check_requested(&tmpl, key, config) {
        Ok(()) => restore_from_warm_fork_template(tmpl, terms, annotations),
        Err(f) => Err(f),
    }
}

/// Whether `r` is what is restored from the continuation of a workload, or why
/// nothing is. A continuation is used up. Without a pool nothing is known of the
/// filesystem, so files are copied in full.
pub open spec fn workload_attempt(
    r: Result<SnapshotRestoreParams, TemplateFailure>,
    has_store: bool,
    found: Option<PooledTemplate>,
    files_present: bool,
    pool_reflink: Option<bool>,
) -> bool {
    if !has_store {
        r matches Err(TemplateFailure::NoStore)
    } else {
        match found {
            None => r matches Err(TemplateFailure::StoreMiss),
            Some(tmpl) => match r {
                Ok(p) => {
                    &&& files_present
                    &&& restores(
                        p,
                        tmpl,
                        SnapshotType::Continuation,
                        TemplateLeaseMode::Exclusive,
                        pool_reflink == Some(true),
                    )
                    &&& p.warm_fork_params is None
                },
                Err(f) => f is FilesMissing && !files_present,
            },
        }
    }
}

/// What is restored from the continuation of a workload, or why nothing is.
pub fn start_with_continuation_snapshot(
    has_store: bool,
    found: Option<PooledTemplate>,
    files_present: bool,
    pool_reflink: Option<bool>,
) -> (r: Result<SnapshotRestoreParams, TemplateFailure>)
    ensures
        workload_attempt(r, has_store, found, files_present, pool_reflink),
{
    if !has_store {
        return Err(TemplateFailure::NoStore);
    }
    let tmpl = match found {
        Some(tmpl) => tmpl,
        None => {
            return Err(TemplateFailure::StoreMiss);
        },
    };
    if !files_present {
        return Err(TemplateFailure::FilesMissing);
    }
    Ok(
        restore_params(
            tmpl,
            SnapshotType::Continuation,
            TemplateLeaseMode::Exclusive,
            matches!(pool_reflink, Some(true)),
            None,
        ),
    )
}

impl KuasarSandbox {
    /// Lets this sandbox be seen to live on a continuation as soon as it was leased,
    /// so that the continuation is not collected meanwhile.
    pub fn publish_template(&mut self, template_id: &str)
        ensures
            final(self).template_id matches Some(id) && id@ == template_id@,
            *final(self) == (KuasarSandbox { template_id: final(self).template_id, ..*old(self) }),
    {
        self.template_id = Some(template_id.to_owned());
    }
}

/// What is restored is the template that was found, with its own snapshot, disks, storages
/// and containers, as the type that it is; only where its files are there, and a warm fork
/// only where those are enabled, with a task for its workload. A booted guest is always
/// shared, and used wherever its files are there.
pub proof fn lemma_found_template_is_restored(
    r: Result<SnapshotRestoreParams, TemplateFailure>,
    has_pool: bool,
    found: Option<PooledTemplate>,
    terms: PoolTerms,
    config: SnapshotConfig,
    notes: Map<Seq<char>, Seq<char>>,
)
    requires
        found matches Some(tmpl) ==> !(tmpl.snapshot_type is Continuation),
        key_attempt(r, has_pool, found, terms, config, notes),
    ensures
        r matches Ok(p) ==> {
            let tmpl = found->0;
            &&& has_pool && found is Some && terms.files_present
            &&& p.snapshot_dir == tmpl.snapshot_dir && p.template_id == Some(tmpl.id)
            &&& p.snapshot_type == tmpl.snapshot_type
            &&& p.disk_images == tmpl.disk_images && p.storages == tmpl.storages
            &&& p.orphan_container_ids == tmpl.orphan_container_ids
            &&& p.id_generator == tmpl.id_generator
            &&& p.original_task_vsock == tmpl.original_task_vsock
            &&& p.reflink_supported == terms.reflink_supported
            &&& tmpl.snapshot_type is Environment ==> p.lease_mode is Shared
            &&& tmpl.snapshot_type is WarmFork ==> p.lease_mode == terms.lease_mode
                && config.enable_warmfork_restore
            &&& p.warm_fork_params is Some <==> tmpl.snapshot_type is WarmFork
        },
        has_pool && found is Some && found->0.snapshot_type is Environment ==> (r is Ok
            <==> terms.files_present),
{
}

/// A template that is asked for by its id is restored only where it is a warm fork with the
/// key that is asked for too.
pub proof fn lemma_requested_template_is_restored(
    r: Result<SnapshotRestoreParams, TemplateFailure>,
    has_pool: bool,
    found: Option<PooledTemplate>,
    key: Option<Seq<char>>,
    terms: PoolTerms,
    config: SnapshotConfig,
    notes: Map<Seq<char>, Seq<char>>,
)
    requires
        id_attempt(r, has_pool, found, key, terms, config, notes),
    ensures
        r matches Ok(p) ==> {
            let tmpl = found->0;
            &&& has_pool && found is Some && terms.files_present
            &&& tmpl.snapshot_type is WarmFork && p.snapshot_type is WarmFork
            &&& key is None || key->0 == tmpl.key.key@
            &&& config.enable_warmfork_restore
            &&& p.snapshot_dir == tmpl.snapshot_dir && p.template_id == Some(tmpl.id)
            &&& p.lease_mode == terms.lease_mode && p.warm_fork_params is Some
        },
        has_pool && found is Some && found->0.snapshot_type is WarmFork && key is Some && key->0
            != found->0.key.key@ ==> r is Err && r->Err_0 is KeyMismatch,
{
}

/// A continuation is restored exactly where it was found and its files are there; it is
/// used up, and its files are copied in full unless the pool is known to do better.
pub proof fn lemma_continuation_is_used_up(
    r: Result<SnapshotRestoreParams, TemplateFailure>,
    has_store: bool,
    found: Option<PooledTemplate>,
    files_present: bool,
    pool_reflink: Option<bool>,
)
    requires
        workload_attempt(r, has_store, found, files_present, pool_reflink),
    ensures
        r is Ok <==> has_store && found is Some && files_present,
        r matches Ok(p) ==> {
            &&& p.lease_mode is Exclusive && p.snapshot_type is Continuation
            &&& p.snapshot_dir == found->0.snapshot_dir && p.template_id == Some(found->0.id)
            &&& p.storages == found->0.storages && p.disk_images == found->0.disk_images
            &&& p.warm_fork_params is None
            &&& p.reflink_supported <==> pool_reflink == Some(true)
        },
{
}

/// An attempt at the template for a key that fails gives back what was leased, and
/// nothing where nothing was; it counts as a miss unless there is no pool.
pub proof fn lemma_failed_key_attempt_gives_back(
    r: Result<SnapshotRestoreParams, TemplateFailure>,
    has_pool: bool,
    found: Option<PooledTemplate>,
    terms: PoolTerms,
    config: SnapshotConfig,
    notes: Map<Seq<char>, Seq<char>>,
)
    requires
        key_attempt(r, has_pool, found, terms, config, notes),
        r is Err,
    ensures
        failure_settlement(Lookup::ByKey, r->Err_0).lease is Fail <==> has_pool && found is Some,
        failure_settlement(Lookup::ByKey, r->Err_0).tally is Miss <==> has_pool,
{
}

/// An attempt at the template with an id that fails gives back what was leased. A
/// template of another type was not leased.
pub proof fn lemma_failed_id_attempt_gives_back(
    r: Result<SnapshotRestoreParams, TemplateFailure>,
    has_pool: bool,
    found: Option<PooledTemplate>,
    key: Option<Seq<char>>,
    terms: PoolTerms,
    config: SnapshotConfig,
    notes: Map<Seq<char>, Seq<char>>,
)
    requires
        id_attempt(r, has_pool, found, key, terms, config, notes),
        r is Err,
    ensures
        failure_settlement(Lookup::ById, r->Err_0).lease is Fail <==> has_pool && (
        found matches Some(tmpl) && tmpl.snapshot_type is WarmFork),
{
}

/// An attempt at a continuation that fails gives back what was leased, and the sandbox
/// forgets what it was seen to live on. Nothing is counted.
pub proof fn lemma_failed_workload_attempt_gives_back(
    r: Result<SnapshotRestoreParams, TemplateFailure>,
    has_store: bool,
    found: Option<PooledTemplate>,
    files_present: bool,
    pool_reflink: Option<bool>,
)
    requires
        workload_attempt(r, has_store, found, files_present, pool_reflink),
        r is Err,
    ensures
        ({
            let s = failure_settlement(Lookup::Workload, r->Err_0);
            &&& s.lease is Fail <==> has_store && found is Some
            &&& s.clear_restore_state <==> has_store && found is Some
            &&& s.tally is Nothing
        }),
{
}

} // verus!
