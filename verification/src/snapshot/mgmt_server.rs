//! Taking a snapshot of a running sandbox on request.

use crate::order::{comes_before, lemma_comes_before};
use crate::snapshot::store::SnapshotMetadata;
use crate::text::concat3;
use vstd::prelude::*;

verus! {

/// Where requests come in unless something else is said.
pub const DEFAULT_SNAPSHOT_MGMT_SOCK: &'static str = "/run/kuasar-vmm/snapshot-mgmt.sock";

/// The environment variable that says where requests come in.
pub const MGMT_SOCK_ENV: &'static str = "KUASAR_SNAPSHOT_MGMT_SOCK";

/// The hypervisor of the snapshots that are taken on request.
pub const MGMT_HYPERVISOR: &'static str = "cloud-hypervisor";

/// How long the guest gets to notice that its connection was closed, in
/// milliseconds.
pub const CLIENT_TEARDOWN_MS: u64 = 150;

/// A setting with a default; where it is set to nothing the service is off.
pub fn setting(value: Option<&str>, default: &str) -> (r: Option<String>)
    ensures
        match value {
            Some(v) => match r {
                Some(s) => v@.len() > 0 && s@ == v@,
                None => v@.len() == 0,
            },
            None => match r {
                Some(s) => default@.len() > 0 && s@ == default@,
                None => default@.len() == 0,
            },
        },
{
    let chosen = match value {
        Some(v) => v,
        None => default,
    };
    if chosen.is_empty() {
        None
    } else {
        Some(chosen.to_owned())
    }
}

/// Where requests come in, from the environment variable.
pub fn sock_path(env: Option<&str>) -> (r: Option<String>)
    ensures
        match r {
            Some(path) => path@ == (match env {
                Some(v) => v@,
                None => DEFAULT_SNAPSHOT_MGMT_SOCK@,
            }) && path@.len() > 0,
            None => env matches Some(v) && v@.len() == 0,
        },
{
    proof {
        reveal_strlit("/run/kuasar-vmm/snapshot-mgmt.sock");
    }
    setting(env, DEFAULT_SNAPSHOT_MGMT_SOCK)
}

/// A step of taking a snapshot of a running sandbox.
#[derive(Clone, Copy, Debug, PartialEq, Eq, Structural)]
pub enum LiveStep {
    InitStore,
    MakeStaging,
    /// Close the connection to the guest. This cannot fail.
    DropClient,
    /// Let the guest notice. This cannot fail.
    WaitForTeardown,
    TakeSnapshot,
    Import,
}

/// The steps of taking a snapshot of a running sandbox, in order.
pub open spec fn live_plan() -> Seq<LiveStep> {
    seq![
        LiveStep::InitStore,
        LiveStep::MakeStaging,
        LiveStep::DropClient,
        LiveStep::WaitForTeardown,
        LiveStep::TakeSnapshot,
        LiveStep::Import,
    ]
}

/// The steps of taking a snapshot of a running sandbox, in order; the first that
/// fails ends it. Without the sandbox there is only something to say.
pub fn live_steps(sandbox_id: &str, found: bool) -> (r: Result<Vec<LiveStep>, String>)
    ensures
        match r {
            Ok(steps) => found && steps@ == live_plan(),
            Err(message) => !found && message@ == "sandbox '"@ + sandbox_id@ + "' not found"@,
        },
{
    if !found {
        return Err(concat3("sandbox '", sandbox_id, "' not found"));
    }
    let mut steps: Vec<LiveStep> = Vec::new();
    steps.push(LiveStep::InitStore);
    steps.push(LiveStep::MakeStaging);
    steps.push(LiveStep::DropClient);
    steps.push(LiveStep::WaitForTeardown);
    steps.push(LiveStep::TakeSnapshot);
    steps.push(LiveStep::Import);
    assert(steps@ =~= live_plan());
    Ok(steps)
}

/// A snapshot of a running sandbox is taken in order: the store and the directory are made
/// before the connection to the guest is closed, and its files are taken up last.
pub proof fn lemma_live_snapshot_in_order()
    ensures
        ({
            let plan = live_plan();
            &&& plan.no_duplicates()
            &&& comes_before(plan, LiveStep::InitStore, LiveStep::MakeStaging)
            &&& comes_before(plan, LiveStep::MakeStaging, LiveStep::DropClient)
            &&& comes_before(plan, LiveStep::DropClient, LiveStep::WaitForTeardown)
            &&& comes_before(plan, LiveStep::WaitForTeardown, LiveStep::TakeSnapshot)
            &&& comes_before(plan, LiveStep::TakeSnapshot, LiveStep::Import)
        }),
{
    let plan = live_plan();
    assert(plan =~= seq![
        LiveStep::InitStore,
        LiveStep::MakeStaging,
        LiveStep::DropClient,
        LiveStep::WaitForTeardown,
        LiveStep::TakeSnapshot,
        LiveStep::Import,
    ]);
    lemma_comes_before(plan, 0, 1);
    lemma_comes_before(plan, 1, 2);
    lemma_comes_before(plan, 2, 3);
    lemma_comes_before(plan, 3, 4);
    lemma_comes_before(plan, 4, 5);
}

/// The guest is not captured while it may be writing to the host: the connection is
/// closed before, and the guest has time to notice.
pub proof fn lemma_no_write_is_captured(i: int)
    requires
        0 <= i < live_plan().len(),
        live_plan()[i] is TakeSnapshot,
    ensures
        live_plan()[i - 1] is WaitForTeardown,
        live_plan()[i - 2] is DropClient,
{
}

/// What is answered to a request for a snapshot.
pub struct CreateSnapshotResponse {
    pub snapshot_id: String,
    pub key: String,
    pub memory_size_bytes: u64,
    pub state_size_bytes: u64,
}

/// What is answered to a request for a snapshot.
pub fn create_response(meta: &SnapshotMetadata) -> (r: CreateSnapshotResponse)
    ensures
        r.snapshot_id@ == meta.id.0@,
        r.key@ == meta.key.0@,
        r.memory_size_bytes == meta.memory_size_bytes,
        r.state_size_bytes == meta.state_size_bytes,
{
    CreateSnapshotResponse {
        snapshot_id: meta.id.to_string(),
        key: meta.key.to_string(),
        memory_size_bytes: meta.memory_size_bytes,
        state_size_bytes: meta.state_size_bytes,
    }
}

} // verus!
