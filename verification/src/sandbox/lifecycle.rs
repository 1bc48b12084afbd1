//! Starting, stopping and taking up sandboxes, and what is undone where a step
//! fails.

use crate::order::{comes_before, lemma_comes_before};
use crate::sandbox::state::{KuasarSandbox, SandboxStatus};
use crate::vm::Pids;
use vstd::prelude::*;

verus! {

// ── What is undone ──────────────────────────────────────────────────────────

/// What is undone where a step fails, in this order.
#[derive(Clone, Copy, Debug, PartialEq, Eq, Structural)]
pub struct Rollback {
    /// Give back the reference that keeps the files of the template.
    pub unpin: bool,
    /// Forget the template.
    pub clear_template: bool,
    /// Stop the sandbox by force. Where that fails nothing more is undone.
    pub stop: bool,
    /// Destroy the network of the sandbox, where it has one.
    pub destroy_network: bool,
}

/// A step of undoing.
#[derive(Clone, Copy, Debug, PartialEq, Eq, Structural)]
pub enum UndoStep {
    Unpin,
    ClearTemplate,
    Stop,
    DestroyNetwork,
}

/// The steps of undoing, in order.
pub open spec fn undo_plan(r: Rollback) -> Seq<UndoStep> {
    (if r.unpin {
        seq![UndoStep::Unpin]
    } else {
        Seq::empty()
    }) + (if r.clear_template {
        seq![UndoStep::ClearTemplate]
    } else {
        Seq::empty()
    }) + (if r.stop {
        seq![UndoStep::Stop]
    } else {
        Seq::empty()
    }) + (if r.destroy_network {
        seq![UndoStep::DestroyNetwork]
    } else {
        Seq::empty()
    })
}

/// What is undone next, where `done` steps of undoing were made and the last of them
/// failed or not. Where the sandbox could not be stopped nothing more is undone: its
/// network may still be in use. `None` where undoing is over.
pub open spec fn undo_after(r: Rollback, done: nat, failed: bool) -> Option<UndoStep> {
    if done >= undo_plan(r).len() {
        None
    } else if failed && done > 0 && undo_plan(r)[done - 1] is Stop {
        None
    } else {
        Some(undo_plan(r)[done as int])
    }
}

impl Rollback {
    /// The steps of undoing, in order.
    pub fn steps(&self) -> (r: Vec<UndoStep>)
        ensures
            r@ == undo_plan(*self),
    {
        let mut steps: Vec<UndoStep> = Vec::new();
        if self.unpin {
            steps.push(UndoStep::Unpin);
        }
        if self.clear_template {
            steps.push(UndoStep::ClearTemplate);
        }
        if self.stop {
            steps.push(UndoStep::Stop);
        }
        if self.destroy_network {
            steps.push(UndoStep::DestroyNetwork);
        }
        assert(steps@ =~= undo_plan(*self));
        steps
    }

    /// What is undone next, where `done` steps of undoing were made and the last of
    /// them failed or not.
    pub fn next_undo(&self, done: usize, failed: bool) -> (r: Option<UndoStep>)
        ensures
            r == undo_after(*self, done as nat, failed),
    {
        let steps = self.steps();
        if done >= steps.len() {
            None
        } else if failed && done > 0 && matches!(steps[done - 1], UndoStep::Stop) {
            None
        } else {
            Some(steps[done])
        }
    }
}

/// What is undone is what the rollback says, each once and in order: the reference first,
/// then the template is forgotten, then the sandbox stopped, then the network destroyed.
pub proof fn lemma_all_is_undone_in_order(r: Rollback)
    ensures
        ({
            let plan = undo_plan(r);
            &&& plan.no_duplicates()
            &&& plan.contains(UndoStep::Unpin) <==> r.unpin
            &&& plan.contains(UndoStep::ClearTemplate) <==> r.clear_template
            &&& plan.contains(UndoStep::Stop) <==> r.stop
            &&& plan.contains(UndoStep::DestroyNetwork) <==> r.destroy_network
            &&& r.unpin && r.clear_template ==> comes_before(
                plan,
                UndoStep::Unpin,
                UndoStep::ClearTemplate,
            )
            &&& r.clear_template && r.stop ==> comes_before(
                plan,
                UndoStep::ClearTemplate,
                UndoStep::Stop,
            )
            &&& r.unpin && r.stop ==> comes_before(plan, UndoStep::Unpin, UndoStep::Stop)
            &&& r.stop && r.destroy_network ==> comes_before(
                plan,
                UndoStep::Stop,
                UndoStep::DestroyNetwork,
            )
        }),
{
    let plan = undo_plan(r);
    let a: int = if r.unpin {
        1
    } else {
        0
    };
    let b: int = a + if r.clear_template {
        1int
    } else {
        0
    };
    let c: int = b + if r.stop {
        1int
    } else {
        0
    };
    if r.unpin {
        assert(plan[0] == UndoStep::Unpin);
    }
    if r.clear_template {
        assert(plan[a] == UndoStep::ClearTemplate);
    }
    if r.stop {
        assert(plan[b] == UndoStep::Stop);
    }
    if r.destroy_network {
        assert(plan[c] == UndoStep::DestroyNetwork);
    }
    assert(plan.no_duplicates());
    if r.unpin && r.clear_template {
        lemma_comes_before(plan, 0, a);
    }
    if r.clear_template && r.stop {
        lemma_comes_before(plan, a, b);
    }
    if r.unpin && r.stop {
        lemma_comes_before(plan, 0, b);
    }
    if r.stop && r.destroy_network {
        lemma_comes_before(plan, b, c);
    }
}

/// Where a sandbox that is to be stopped cannot be, its network is not destroyed; where
/// it is stopped, the network is destroyed right after, if it is to be.
pub proof fn lemma_network_outlives_a_sandbox_that_runs(r: Rollback, i: int)
    requires
        0 <= i < undo_plan(r).len(),
        undo_plan(r)[i] is Stop,
    ensures
        undo_after(r, (i + 1) as nat, true) is None,
        r.destroy_network ==> undo_after(r, (i + 1) as nat, false) == Some(
            UndoStep::DestroyNetwork,
        ),
        forall|k: int| 0 <= k <= i ==> !((#[trigger] undo_plan(r)[k]) is DestroyNetwork),
{
}

// ── Fresh boot ──────────────────────────────────────────────────────────────

/// A step of booting a sandbox afresh.
#[derive(Clone, Copy, Debug, PartialEq, Eq, Structural)]
pub enum ColdStep {
    PreStart,
    PrepareNetwork,
    /// Start the guest and connect to its agent.
    Start,
    /// Watch for the end of the guest. This cannot fail.
    Monitor,
    AddToCgroup,
    PostStart,
    Dump,
}

/// The steps of booting a sandbox afresh, in order. One without a network
/// namespace gets no network.
pub open spec fn cold_plan(has_netns: bool) -> Seq<ColdStep> {
    seq![ColdStep::PreStart] + (if has_netns {
        seq![ColdStep::PrepareNetwork]
    } else {
        Seq::empty()
    }) + seq![
        ColdStep::Start,
        ColdStep::Monitor,
        ColdStep::AddToCgroup,
        ColdStep::PostStart,
        ColdStep::Dump,
    ]
}

/// The steps of booting a sandbox afresh, in order. The first that fails ends it.
pub fn cold_steps(has_netns: bool) -> (r: Vec<ColdStep>)
    ensures
        r@ == cold_plan(has_netns),
{
    let mut steps: Vec<ColdStep> = Vec::new();
    steps.push(ColdStep::PreStart);
    if has_netns {
        steps.push(ColdStep::PrepareNetwork);
    }
    steps.push(ColdStep::Start);
    steps.push(ColdStep::Monitor);
    steps.push(ColdStep::AddToCgroup);
    steps.push(ColdStep::PostStart);
    steps.push(ColdStep::Dump);
    assert(steps@ =~= cold_plan(has_netns));
    steps
}

/// Whether the guest runs when a step of a fresh boot begins.
pub open spec fn runs_at(step: ColdStep) -> bool {
    step is Monitor || step is AddToCgroup || step is PostStart || step is Dump
}

/// What is undone where a step of a fresh boot fails: a guest that runs is
/// stopped, and from the start on the network is destroyed.
pub open spec fn cold_undo(step: ColdStep) -> Rollback {
    Rollback {
        unpin: false,
        clear_template: false,
        stop: runs_at(step),
        destroy_network: step is Start || runs_at(step),
    }
}

/// What is undone where a step of a fresh boot fails.
pub fn cold_rollback(step: ColdStep) -> (r: Rollback)
    ensures
        r == cold_undo(step),
{
    let runs: bool = matches!(
        step,
        ColdStep::Monitor | ColdStep::AddToCgroup | ColdStep::PostStart | ColdStep::Dump
    );
    Rollback {
        unpin: false,
        clear_template: false,
        stop: runs,
        destroy_network: runs || matches!(step, ColdStep::Start),
    }
}

/// A sandbox is booted in order: what comes before a start is done, a network is prepared
/// exactly where it has a namespace, the guest is started, and then it is watched, put into
/// its control groups, what comes after a start is done, and it is kept in its file.
pub proof fn lemma_sandbox_is_booted_in_order(has_netns: bool)
    ensures
        ({
            let plan = cold_plan(has_netns);
            &&& plan.no_duplicates()
            &&& comes_before(plan, ColdStep::PreStart, ColdStep::Start)
            &&& comes_before(plan, ColdStep::Start, ColdStep::Monitor)
            &&& comes_before(plan, ColdStep::Monitor, ColdStep::AddToCgroup)
            &&& comes_before(plan, ColdStep::AddToCgroup, ColdStep::PostStart)
            &&& comes_before(plan, ColdStep::PostStart, ColdStep::Dump)
            &&& has_netns ==> comes_before(plan, ColdStep::PreStart, ColdStep::PrepareNetwork)
            &&& has_netns ==> comes_before(plan, ColdStep::PrepareNetwork, ColdStep::Start)
            &&& plan.contains(ColdStep::PrepareNetwork) <==> has_netns
        }),
{
    let plan = cold_plan(has_netns);
    if has_netns {
        assert(plan =~= seq![
            ColdStep::PreStart,
            ColdStep::PrepareNetwork,
            ColdStep::Start,
            ColdStep::Monitor,
            ColdStep::AddToCgroup,
            ColdStep::PostStart,
            ColdStep::Dump,
        ]);
        lemma_comes_before(plan, 0, 2);
        lemma_comes_before(plan, 2, 3);
        lemma_comes_before(plan, 3, 4);
        lemma_comes_before(plan, 4, 5);
        lemma_comes_before(plan, 5, 6);
        lemma_comes_before(plan, 0, 1);
        lemma_comes_before(plan, 1, 2);
        assert(plan[1] == ColdStep::PrepareNetwork);
    } else {
        assert(plan =~= seq![
            ColdStep::PreStart,
            ColdStep::Start,
            ColdStep::Monitor,
            ColdStep::AddToCgroup,
            ColdStep::PostStart,
            ColdStep::Dump,
        ]);
        lemma_comes_before(plan, 0, 1);
        lemma_comes_before(plan, 1, 2);
        lemma_comes_before(plan, 2, 3);
        lemma_comes_before(plan, 3, 4);
        lemma_comes_before(plan, 4, 5);
    }
}

/// Where a step of a fresh boot fails after the network was prepared, the network
/// is destroyed; and where it fails after the guest was started, the guest is
/// stopped.
pub proof fn lemma_cold_boot_leaves_nothing(has_netns: bool, i: int, k: int)
    requires
        0 <= k < i < cold_plan(has_netns).len(),
    ensures
        cold_plan(has_netns)[k] is PrepareNetwork ==> cold_undo(
            cold_plan(has_netns)[i],
        ).destroy_network,
        cold_plan(has_netns)[k] is Start ==> cold_undo(cold_plan(has_netns)[i]).stop && cold_undo(
            cold_plan(has_netns)[i],
        ).destroy_network,
        cold_undo(cold_plan(has_netns)[i]).stop ==> exists|j: int|
            0 <= j < i && (#[trigger] cold_plan(has_netns)[j]) is Start,
        cold_plan(has_netns)[i] is Start ==> cold_undo(cold_plan(has_netns)[i]).destroy_network,
        !cold_undo(cold_plan(has_netns)[0]).destroy_network,
        !cold_undo(cold_plan(has_netns)[i]).unpin,
        !cold_undo(cold_plan(has_netns)[i]).clear_template,
{
    let plan = cold_plan(has_netns);
    if has_netns {
        assert(plan[1] is PrepareNetwork && plan[2] is Start);
    } else {
        assert(plan[1] is Start);
    }
}

/// A step of starting the guest of a sandbox.
#[derive(Clone, Copy, Debug, PartialEq, Eq, Structural)]
pub enum BootStep {
    StartVm,
    InitClient,
    /// Push the files of the sandbox into the guest, where it shares no directory.
    PushFiles,
    SetupSandbox,
    /// Hand the events of the guest on. This cannot fail.
    ForwardEvents,
}

/// The steps of starting the guest of a sandbox.
pub open spec fn boot_plan(on_blocks: bool) -> Seq<BootStep> {
    seq![BootStep::StartVm, BootStep::InitClient] + (if on_blocks {
        seq![BootStep::PushFiles]
    } else {
        Seq::empty()
    }) + seq![BootStep::SetupSandbox, BootStep::ForwardEvents]
}

/// The steps of starting the guest of a sandbox. The first that fails ends it.
pub fn boot_steps(on_blocks: bool) -> (r: Vec<BootStep>)
    ensures
        r@ == boot_plan(on_blocks),
{
    let mut steps: Vec<BootStep> = Vec::new();
    steps.push(BootStep::StartVm);
    steps.push(BootStep::InitClient);
    if on_blocks {
        steps.push(BootStep::PushFiles);
    }
    steps.push(BootStep::SetupSandbox);
    steps.push(BootStep::ForwardEvents);
    assert(steps@ =~= boot_plan(on_blocks));
    steps
}

/// The guest of a sandbox is set up in order: it is started, its agent connected to, the
/// guest configured, and its events handed on. The files of the sandbox are pushed before it
/// is configured, exactly where it shares no directory.
pub proof fn lemma_guest_is_set_up_in_order(on_blocks: bool)
    ensures
        ({
            let plan = boot_plan(on_blocks);
            &&& plan.no_duplicates()
            &&& comes_before(plan, BootStep::StartVm, BootStep::InitClient)
            &&& comes_before(plan, BootStep::InitClient, BootStep::SetupSandbox)
            &&& comes_before(plan, BootStep::SetupSandbox, BootStep::ForwardEvents)
            &&& on_blocks ==> comes_before(plan, BootStep::InitClient, BootStep::PushFiles)
            &&& on_blocks ==> comes_before(plan, BootStep::PushFiles, BootStep::SetupSandbox)
            &&& plan.contains(BootStep::PushFiles) <==> on_blocks
        }),
{
    let plan = boot_plan(on_blocks);
    if on_blocks {
        assert(plan =~= seq![
            BootStep::StartVm,
            BootStep::InitClient,
            BootStep::PushFiles,
            BootStep::SetupSandbox,
            BootStep::ForwardEvents,
        ]);
        lemma_comes_before(plan, 0, 1);
        lemma_comes_before(plan, 1, 3);
        lemma_comes_before(plan, 3, 4);
        lemma_comes_before(plan, 1, 2);
        lemma_comes_before(plan, 2, 3);
        assert(plan[2] == BootStep::PushFiles);
    } else {
        assert(plan =~= seq![
            BootStep::StartVm,
            BootStep::InitClient,
            BootStep::SetupSandbox,
            BootStep::ForwardEvents,
        ]);
        lemma_comes_before(plan, 0, 1);
        lemma_comes_before(plan, 1, 2);
        lemma_comes_before(plan, 2, 3);
    }
}

/// Whether the guest is stopped by force where a step of setting it up fails.
pub open spec fn boot_stops(step: BootStep) -> bool {
    !(step is StartVm)
}

/// Where a step of setting a guest up fails, the guest is stopped exactly where it was
/// started before.
pub proof fn lemma_failed_setup_leaves_no_guest(on_blocks: bool, i: int)
    requires
        0 <= i < boot_plan(on_blocks).len(),
    ensures
        boot_stops(boot_plan(on_blocks)[i]) <==> exists|k: int|
            0 <= k < i && (#[trigger] boot_plan(on_blocks)[k]) is StartVm,
{
    let plan = boot_plan(on_blocks);
    assert(plan[0] is StartVm);
    assert(forall|k: int| 0 < k < plan.len() ==> !((#[trigger] plan[k]) is StartVm));
}

/// Whether the guest is stopped by force where a step fails: from the moment that
/// it runs.
pub fn boot_stops_vm(step: BootStep) -> (r: bool)
    ensures
        r == boot_stops(step),
{
    !matches!(step, BootStep::StartVm)
}

/// The state of a sandbox whose guest ended.
pub open spec fn after_end(status: SandboxStatus, code: u32, at: i128) -> SandboxStatus {
    if status is Paused {
        status
    } else {
        SandboxStatus::Stopped(code, at)
    }
}

/// A sandbox whose guest ended is stopped with its exit code and the time, whatever it was;
/// but one that was put aside stays so.
pub proof fn lemma_ended_sandbox_is_stopped(status: SandboxStatus, code: u32, at: i128)
    ensures
        status is Paused ==> after_end(status, code, at) is Paused,
        !(status is Paused) ==> after_end(status, code, at) == SandboxStatus::Stopped(code, at),
        after_end(after_end(status, code, at), code, at) == after_end(status, code, at),
{
}

impl KuasarSandbox {
    /// The guest runs.
    pub fn started(&mut self, pid: u32)
        ensures
            final(self).status == SandboxStatus::Running(pid),
            *final(self) == (KuasarSandbox { status: SandboxStatus::Running(pid), ..*old(self) }),
    {
        self.status = SandboxStatus::Running(pid);
    }

    /// The guest ended. A sandbox that was put aside stays so: its guest was
    /// stopped on purpose.
    pub fn terminated(&mut self, code: u32, at: i128)
        ensures
            *final(self) == (KuasarSandbox {
                status: after_end(old(self).status, code, at),
                ..*old(self)
            }),
    {
        if !matches!(self.status, SandboxStatus::Paused) {
            self.status = SandboxStatus::Stopped(code, at);
        }
    }

    /// Whether the end of the guest is to be watched for: only while it runs.
    pub fn to_be_monitored(&self) -> (r: bool)
        ensures
            r == (self.status is Running),
    {
        matches!(self.status, SandboxStatus::Running(_))
    }

    /// The processes that belong to the sandbox: the hypervisor and those beside
    /// it. A sandbox that does not run has none.
    pub fn cgroup_processes(&self, pids: &Pids) -> (r: Option<Vec<u32>>)
        ensures
            match r {
                Some(v) => self.status matches SandboxStatus::Running(pid) && v@ == seq![pid]
                    + pids.affiliated_pids@,
                None => !(self.status is Running),
            },
    {
        match self.status {
            SandboxStatus::Running(pid) => {
                let mut v: Vec<u32> = Vec::new();
                v.push(pid);
                let mut i: usize = 0;
                assert(v@ =~= seq![pid] + pids.affiliated_pids@.take(0));
                while i < pids.affiliated_pids.len()
                    invariant
                        i <= pids.affiliated_pids@.len(),
                        v@ == seq![pid] + pids.affiliated_pids@.take(i as int),
                    decreases pids.affiliated_pids.len() - i,
                {
                    v.push(pids.affiliated_pids[i]);
                    assert(v@ =~= seq![pid] + pids.affiliated_pids@.take(i + 1));
                    i = i + 1;
                }
                assert(pids.affiliated_pids@.take(i as int) =~= pids.affiliated_pids@);
                Some(v)
            },
            _ => None,
        }
    }
}

/// Why the host cannot connect to an agent.
#[derive(Clone, Copy, Debug, PartialEq, Eq, Structural)]
pub enum ClientStep {
    /// There is a connection already.
    Keep,
    /// Connect to the address.
    Connect,
    /// The guest has no address.
    NoAddress,
}

/// What is needed for a connection to the agent.
pub open spec fn client_step(connected: bool, address: Seq<char>) -> ClientStep {
    if connected {
        ClientStep::Keep
    } else if address.len() == 0 {
        ClientStep::NoAddress
    } else {
        ClientStep::Connect
    }
}

/// A connection that is there is kept, and one is made exactly where there is none and the
/// guest has an address.
pub proof fn lemma_connected_once(connected: bool, address: Seq<char>)
    ensures
        client_step(connected, address) is Keep <==> connected,
        client_step(connected, address) is Connect <==> !connected && address.len() > 0,
        client_step(connected, address) is NoAddress <==> !connected && address.len() == 0,
{
}

/// What is needed for a connection to the agent.
pub fn init_client(connected: bool, address: &str) -> (r: ClientStep)
    ensures
        r == client_step(connected, address@),
{
    if connected {
        ClientStep::Keep
    } else if address.is_empty() {
        ClientStep::NoAddress
    } else {
        ClientStep::Connect
    }
}

// ── Stopping ────────────────────────────────────────────────────────────────

/// What stopping a sandbox takes.
#[derive(Clone, Copy, Debug, PartialEq, Eq, Structural)]
pub enum StopPlan {
    /// Remove its containers, stop the guest and destroy the network. By force,
    /// a container that cannot be removed does not hold it up.
    Stop { force: bool },
    /// It has ended: only the network may be left.
    DestroyNetwork,
    /// It cannot be stopped in its state.
    Refuse,
}

/// What stopping a sandbox takes. One that was never started is always stopped by
/// force: whatever runs is left over from a start that failed.
pub open spec fn stop_plan(status: SandboxStatus, force: bool) -> StopPlan {
    match status {
        SandboxStatus::Created => StopPlan::Stop { force: true },
        SandboxStatus::Running(_) => StopPlan::Stop { force },
        SandboxStatus::Stopped(_, _) => StopPlan::DestroyNetwork,
        SandboxStatus::Paused => StopPlan::Refuse,
    }
}

/// What can run is stopped, by force where force is asked for and where the sandbox was
/// never started; of one that has ended only the network is destroyed; and one that was
/// put aside is left alone.
pub proof fn lemma_whatever_runs_is_stopped(status: SandboxStatus, force: bool)
    ensures
        status is Running ==> stop_plan(status, force) == (StopPlan::Stop { force }),
        status is Created ==> stop_plan(status, force) == (StopPlan::Stop { force: true }),
        status is Stopped ==> stop_plan(status, force) is DestroyNetwork,
        status is Paused ==> stop_plan(status, force) is Refuse,
        goes_on_with(stop_plan(status, true)) <==> status is Running || status is Created,
        status is Running ==> !goes_on_with(stop_plan(status, false)),
{
}

/// Whether stopping goes on where a container cannot be removed.
pub open spec fn goes_on_with(plan: StopPlan) -> bool {
    plan == (StopPlan::Stop { force: true })
}

impl KuasarSandbox {
    /// What stopping this sandbox takes.
    pub fn plan_stop(&self, force: bool) -> (r: StopPlan)
        ensures
            r == stop_plan(self.status, force),
    {
        match self.status {
            SandboxStatus::Created => StopPlan::Stop { force: true },
            SandboxStatus::Running(_) => StopPlan::Stop { force },
            SandboxStatus::Stopped(_, _) => StopPlan::DestroyNetwork,
            SandboxStatus::Paused => StopPlan::Refuse,
        }
    }
}

/// Whether stopping goes on where a container cannot be removed.
pub fn goes_on_without_container(plan: StopPlan) -> (r: bool)
    ensures
        r == goes_on_with(plan),
{
    matches!(plan, StopPlan::Stop { force: true })
}

/// A request to stop a sandbox that is not there is done already.
#[derive(Clone, Copy, Debug, PartialEq, Eq, Structural)]
pub enum StopRequestStep {
    PreStop,
    Stop,
    PostStop,
    Dump,
}

/// The steps of a request to stop a sandbox.
pub open spec fn stop_request_plan(found: bool) -> Seq<StopRequestStep> {
    if found {
        seq![
            StopRequestStep::PreStop,
            StopRequestStep::Stop,
            StopRequestStep::PostStop,
            StopRequestStep::Dump,
        ]
    } else {
        Seq::empty()
    }
}

/// A sandbox that is there is stopped between what comes before a stop and what comes after
/// it, and then kept in its file; of one that is not there nothing is done.
pub proof fn lemma_stop_request_in_order(found: bool)
    ensures
        ({
            let plan = stop_request_plan(found);
            &&& plan.no_duplicates()
            &&& found ==> comes_before(plan, StopRequestStep::PreStop, StopRequestStep::Stop)
            &&& found ==> comes_before(plan, StopRequestStep::Stop, StopRequestStep::PostStop)
            &&& found ==> comes_before(plan, StopRequestStep::PostStop, StopRequestStep::Dump)
            &&& plan.contains(StopRequestStep::Stop) <==> found
            &&& !found ==> plan.len() == 0
        }),
{
    let plan = stop_request_plan(found);
    if found {
        assert(plan =~= seq![
            StopRequestStep::PreStop,
            StopRequestStep::Stop,
            StopRequestStep::PostStop,
            StopRequestStep::Dump,
        ]);
        lemma_comes_before(plan, 0, 1);
        lemma_comes_before(plan, 1, 2);
        lemma_comes_before(plan, 2, 3);
        assert(plan[1] == StopRequestStep::Stop);
    } else {
        assert(plan =~= Seq::<StopRequestStep>::empty());
    }
}

/// The steps of a request to stop a sandbox. The first that fails ends it.
pub fn stop_request_steps(found: bool) -> (r: Vec<StopRequestStep>)
    ensures
        r@ == stop_request_plan(found),
{
    let mut steps: Vec<StopRequestStep> = Vec::new();
    if found {
        steps.push(StopRequestStep::PreStop);
        steps.push(StopRequestStep::Stop);
        steps.push(StopRequestStep::PostStop);
        steps.push(StopRequestStep::Dump);
    }
    assert(steps@ =~= stop_request_plan(found));
    steps
}

// ── Creating ────────────────────────────────────────────────────────────────

/// A step of creating a sandbox.
#[derive(Clone, Copy, Debug, PartialEq, Eq, Structural)]
pub enum CreateStep {
    /// Make the control groups and set their limits.
    CreateCgroups,
    CreateVm,
    SetupFiles,
    PostCreate,
    Dump,
    /// Enter the sandbox into the list. This cannot fail.
    Insert,
}

/// The steps of creating a sandbox; control groups of the second version are not
/// used.
pub open spec fn create_plan(exists: bool, cgroup_v2: bool) -> Option<Seq<CreateStep>> {
    if exists {
        None
    } else {
        Some(
            (if cgroup_v2 {
                Seq::empty()
            } else {
                seq![CreateStep::CreateCgroups]
            }) + seq![
                CreateStep::CreateVm,
                CreateStep::SetupFiles,
                CreateStep::PostCreate,
                CreateStep::Dump,
                CreateStep::Insert,
            ],
        )
    }
}

/// A sandbox is created in order: its control groups first, where they are used, then its
/// guest, its files, what comes after, and its own file; it is entered into the list last.
/// One that is there already is not created again.
pub proof fn lemma_sandbox_is_created_in_order(cgroup_v2: bool)
    ensures
        ({
            let plan = create_plan(false, cgroup_v2)->0;
            &&& plan.no_duplicates()
            &&& comes_before(plan, CreateStep::CreateVm, CreateStep::SetupFiles)
            &&& comes_before(plan, CreateStep::SetupFiles, CreateStep::PostCreate)
            &&& comes_before(plan, CreateStep::PostCreate, CreateStep::Dump)
            &&& comes_before(plan, CreateStep::Dump, CreateStep::Insert)
            &&& !cgroup_v2 ==> comes_before(plan, CreateStep::CreateCgroups, CreateStep::CreateVm)
            &&& plan.contains(CreateStep::CreateCgroups) <==> !cgroup_v2
            &&& create_plan(false, cgroup_v2) is Some
            &&& create_plan(true, cgroup_v2) is None
        }),
{
    let plan = create_plan(false, cgroup_v2)->0;
    if cgroup_v2 {
        assert(plan =~= seq![
            CreateStep::CreateVm,
            CreateStep::SetupFiles,
            CreateStep::PostCreate,
            CreateStep::Dump,
            CreateStep::Insert,
        ]);
        lemma_comes_before(plan, 0, 1);
        lemma_comes_before(plan, 1, 2);
        lemma_comes_before(plan, 2, 3);
        lemma_comes_before(plan, 3, 4);
    } else {
        assert(plan =~= seq![
            CreateStep::CreateCgroups,
            CreateStep::CreateVm,
            CreateStep::SetupFiles,
            CreateStep::PostCreate,
            CreateStep::Dump,
            CreateStep::Insert,
        ]);
        lemma_comes_before(plan, 1, 2);
        lemma_comes_before(plan, 2, 3);
        lemma_comes_before(plan, 3, 4);
        lemma_comes_before(plan, 4, 5);
        lemma_comes_before(plan, 0, 1);
        assert(plan[0] == CreateStep::CreateCgroups);
    }
}

/// The steps of creating a sandbox, or `None` where it is there already. The first
/// that fails ends it.
pub fn create_steps(exists: bool, cgroup_v2: bool) -> (r: Option<Vec<CreateStep>>)
    ensures
        match r {
            Some(v) => create_plan(exists, cgroup_v2) == Some(v@),
            None => create_plan(exists, cgroup_v2) is None,
        },
{
    if exists {
        return None;
    }
    let mut steps: Vec<CreateStep> = Vec::new();
    if !cgroup_v2 {
        steps.push(CreateStep::CreateCgroups);
    }
    steps.push(CreateStep::CreateVm);
    steps.push(CreateStep::SetupFiles);
    steps.push(CreateStep::PostCreate);
    steps.push(CreateStep::Dump);
    steps.push(CreateStep::Insert);
    assert(steps@ =~= create_plan(exists, cgroup_v2)->0);
    Some(steps)
}

/// Whether the control groups are removed where a step fails.
pub fn create_removes_cgroups(step: CreateStep) -> (r: bool)
    ensures
        r == (step is CreateCgroups),
{
    matches!(step, CreateStep::CreateCgroups)
}

// ── Deleting ────────────────────────────────────────────────────────────────

/// A step of deleting a sandbox.
#[derive(Clone, Copy, Debug, PartialEq, Eq, Structural)]
pub enum DeleteStep {
    /// Stop it by force.
    Stop,
    RemoveCgroups,
    CleanupMounts,
    RemoveDir,
    /// Let go of the template. This cannot fail.
    ReleaseTemplate,
    /// Strike it from the list. This cannot fail.
    Forget,
}

/// The steps of deleting a sandbox, in order. Of one that is not there nothing is
/// left to do but to strike it from the list.
pub open spec fn delete_plan(found: bool, removes_cgroups: bool) -> Seq<DeleteStep> {
    if !found {
        seq![DeleteStep::Forget]
    } else {
        seq![DeleteStep::Stop] + (if removes_cgroups {
            seq![DeleteStep::RemoveCgroups]
        } else {
            Seq::empty()
        }) + seq![
            DeleteStep::CleanupMounts,
            DeleteStep::RemoveDir,
            DeleteStep::ReleaseTemplate,
            DeleteStep::Forget,
        ]
    }
}

/// The steps of deleting a sandbox, in order.
pub fn delete_steps(found: bool, removes_cgroups: bool) -> (r: Vec<DeleteStep>)
    ensures
        r@ == delete_plan(found, removes_cgroups),
{
    let mut steps: Vec<DeleteStep> = Vec::new();
    if found {
        steps.push(DeleteStep::Stop);
        if removes_cgroups {
            steps.push(DeleteStep::RemoveCgroups);
        }
        steps.push(DeleteStep::CleanupMounts);
        steps.push(DeleteStep::RemoveDir);
        steps.push(DeleteStep::ReleaseTemplate);
    }
    steps.push(DeleteStep::Forget);
    assert(steps@ =~= delete_plan(found, removes_cgroups));
    steps
}

/// A sandbox that is there is deleted in order: it is stopped before its control groups and
/// mounts are touched, its directory is removed only once nothing is mounted below it, its
/// template is let go of after that, and it is struck from the list last. Its control groups
/// are removed exactly where that is asked. Of one that is not there only the list is
/// touched.
pub proof fn lemma_sandbox_is_deleted_in_order(removes_cgroups: bool)
    ensures
        ({
            let plan = delete_plan(true, removes_cgroups);
            &&& plan.no_duplicates()
            &&& comes_before(plan, DeleteStep::Stop, DeleteStep::CleanupMounts)
            &&& comes_before(plan, DeleteStep::CleanupMounts, DeleteStep::RemoveDir)
            &&& comes_before(plan, DeleteStep::RemoveDir, DeleteStep::ReleaseTemplate)
            &&& comes_before(plan, DeleteStep::ReleaseTemplate, DeleteStep::Forget)
            &&& removes_cgroups ==> comes_before(plan, DeleteStep::Stop, DeleteStep::RemoveCgroups)
            &&& removes_cgroups ==> comes_before(
                plan,
                DeleteStep::RemoveCgroups,
                DeleteStep::CleanupMounts,
            )
            &&& plan.contains(DeleteStep::RemoveCgroups) <==> removes_cgroups
            &&& delete_plan(false, removes_cgroups) == seq![DeleteStep::Forget]
        }),
{
    let plan = delete_plan(true, removes_cgroups);
    if removes_cgroups {
        assert(plan =~= seq![
            DeleteStep::Stop,
            DeleteStep::RemoveCgroups,
            DeleteStep::CleanupMounts,
            DeleteStep::RemoveDir,
            DeleteStep::ReleaseTemplate,
            DeleteStep::Forget,
        ]);
        lemma_comes_before(plan, 0, 2);
        lemma_comes_before(plan, 2, 3);
        lemma_comes_before(plan, 3, 4);
        lemma_comes_before(plan, 4, 5);
        lemma_comes_before(plan, 0, 1);
        lemma_comes_before(plan, 1, 2);
        assert(plan[1] == DeleteStep::RemoveCgroups);
    } else {
        assert(plan =~= seq![
            DeleteStep::Stop,
            DeleteStep::CleanupMounts,
            DeleteStep::RemoveDir,
            DeleteStep::ReleaseTemplate,
            DeleteStep::Forget,
        ]);
        lemma_comes_before(plan, 0, 1);
        lemma_comes_before(plan, 1, 2);
        lemma_comes_before(plan, 2, 3);
        lemma_comes_before(plan, 3, 4);
    }
}

/// Whether deleting ends where a step fails.
pub open spec fn deletion_ends(step: DeleteStep, not_found: bool, of_service: bool) -> bool {
    match step {
        DeleteStep::Stop | DeleteStep::CleanupMounts => true,
        DeleteStep::RemoveCgroups => !of_service,
        DeleteStep::RemoveDir => !not_found,
        DeleteStep::ReleaseTemplate | DeleteStep::Forget => false,
    }
}

/// The directory of a sandbox is not removed where it could not be stopped or its mounts
/// could not be undone; a directory that is gone already holds nothing up; and once it is
/// gone, the sandbox is struck from the list whatever comes.
pub proof fn lemma_failed_deletion_keeps_the_directory(
    removes_cgroups: bool,
    not_found: bool,
    of_service: bool,
    i: int,
    k: int,
)
    requires
        0 <= i < delete_plan(true, removes_cgroups).len(),
        0 <= k < delete_plan(true, removes_cgroups).len(),
        delete_plan(true, removes_cgroups)[k] is RemoveDir,
    ensures
        ({
            let plan = delete_plan(true, removes_cgroups);
            &&& i < k && !(plan[i] is RemoveCgroups) ==> deletion_ends(
                plan[i],
                not_found,
                of_service,
            )
            &&& plan[i] is RemoveCgroups ==> (deletion_ends(plan[i], not_found, of_service)
                <==> !of_service)
            &&& deletion_ends(plan[k], not_found, of_service) <==> !not_found
            &&& i > k ==> !deletion_ends(plan[i], not_found, of_service)
        }),
{
    let plan = delete_plan(true, removes_cgroups);
    if removes_cgroups {
        assert(plan =~= seq![
            DeleteStep::Stop,
            DeleteStep::RemoveCgroups,
            DeleteStep::CleanupMounts,
            DeleteStep::RemoveDir,
            DeleteStep::ReleaseTemplate,
            DeleteStep::Forget,
        ]);
    } else {
        assert(plan =~= seq![
            DeleteStep::Stop,
            DeleteStep::CleanupMounts,
            DeleteStep::RemoveDir,
            DeleteStep::ReleaseTemplate,
            DeleteStep::Forget,
        ]);
    }
}

/// Whether deleting ends where a step fails. A directory that is gone already does
/// not matter, and for a sandbox of the service neither do its cgroups.
pub fn ends_deletion(step: DeleteStep, not_found: bool, of_service: bool) -> (r: bool)
    ensures
        r == deletion_ends(step, not_found, of_service),
{
    match step {
        DeleteStep::Stop | DeleteStep::CleanupMounts => true,
        DeleteStep::RemoveCgroups => !of_service,
        DeleteStep::RemoveDir => !not_found,
        DeleteStep::ReleaseTemplate | DeleteStep::Forget => false,
    }
}

/// The template of a sandbox is let go of only after its guest was stopped, and
/// the sandbox is struck from the list last.
pub proof fn lemma_template_outlives_guest(found: bool, removes_cgroups: bool, i: int)
    requires
        0 <= i < delete_plan(found, removes_cgroups).len(),
        delete_plan(found, removes_cgroups)[i] is ReleaseTemplate,
    ensures
        delete_plan(found, removes_cgroups)[0] is Stop,
        0 < i,
        delete_plan(found, removes_cgroups).last() is Forget,
{
}

// ── Continuations that were used up ─────────────────────────────────────────

/// Whether continuations that were used up are collected from time to time: where
/// an interval is set and there is a store.
pub fn collects_continuations(interval_secs: u64, has_store: bool) -> (r: bool)
    ensures
        r == (interval_secs > 0 && has_store),
{
    interval_secs > 0 && has_store
}

} // verus!
