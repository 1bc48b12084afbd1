//! Taking up the sandboxes of a host process that was restarted.

use crate::order::{comes_before, lemma_comes_before};
use crate::sandbox::refs::{rebuild_active_refs, refs_of, ActiveRefs};
use crate::sandbox::state::{KuasarSandbox, SandboxStatus};
use crate::text::texts;
use vstd::prelude::*;

verus! {

/// A step of taking a sandbox up after a restart of the host process.
#[derive(Clone, Copy, Debug, PartialEq, Eq, Structural)]
pub enum RecoverStep {
    RecoverVm,
    /// Connect to the agent, and give up at once where that fails.
    InitClient,
    SyncClock,
    ForwardEvents,
    CreateCgroups,
}

/// The steps of taking a sandbox up: only one that ran has a guest to take up.
pub open spec fn recover_plan(status: SandboxStatus) -> Seq<RecoverStep> {
    (if status is Running {
        seq![
            RecoverStep::RecoverVm,
            RecoverStep::InitClient,
            RecoverStep::SyncClock,
            RecoverStep::ForwardEvents,
        ]
    } else {
        Seq::empty()
    }) + seq![RecoverStep::CreateCgroups]
}

impl KuasarSandbox {
    /// The steps of taking this sandbox up. The first that fails ends it.
    pub fn recover_steps(&self) -> (r: Vec<RecoverStep>)
        ensures
            r@ == recover_plan(self.status),
    {
        let mut steps: Vec<RecoverStep> = Vec::new();
        if matches!(self.status, SandboxStatus::Running(_)) {
            steps.push(RecoverStep::RecoverVm);
            steps.push(RecoverStep::InitClient);
            steps.push(RecoverStep::SyncClock);
            steps.push(RecoverStep::ForwardEvents);
        }
        steps.push(RecoverStep::CreateCgroups);
        assert(steps@ =~= recover_plan(self.status));
        steps
    }
}

/// A sandbox that ran is taken up in order: its guest, then its agent, then its clock is set
/// and its events are handed on. Of one that did not run only the control groups are made,
/// which are made for every one.
pub proof fn lemma_sandbox_is_taken_up_in_order(status: SandboxStatus)
    ensures
        ({
            let plan = recover_plan(status);
            &&& plan.no_duplicates()
            &&& status is Running ==> comes_before(
                plan,
                RecoverStep::RecoverVm,
                RecoverStep::InitClient,
            )
            &&& status is Running ==> comes_before(
                plan,
                RecoverStep::InitClient,
                RecoverStep::SyncClock,
            )
            &&& status is Running ==> comes_before(
                plan,
                RecoverStep::SyncClock,
                RecoverStep::ForwardEvents,
            )
            &&& status is Running ==> comes_before(
                plan,
                RecoverStep::ForwardEvents,
                RecoverStep::CreateCgroups,
            )
            &&& plan.contains(RecoverStep::CreateCgroups) <==> true
            &&& plan.contains(RecoverStep::RecoverVm) <==> status is Running
            &&& !(status is Running) ==> plan.len() == 1
        }),
{
    let plan = recover_plan(status);
    if status is Running {
        assert(plan =~= seq![
            RecoverStep::RecoverVm,
            RecoverStep::InitClient,
            RecoverStep::SyncClock,
            RecoverStep::ForwardEvents,
            RecoverStep::CreateCgroups,
        ]);
        lemma_comes_before(plan, 0, 1);
        lemma_comes_before(plan, 1, 2);
        lemma_comes_before(plan, 2, 3);
        lemma_comes_before(plan, 3, 4);
        assert(plan[4] == RecoverStep::CreateCgroups);
        assert(plan[0] == RecoverStep::RecoverVm);
    } else {
        assert(plan =~= seq![RecoverStep::CreateCgroups]);
        assert(plan[0] == RecoverStep::CreateCgroups);
    }
}

/// Whether the sandbox is stopped by force where a step of taking it up fails.
pub open spec fn recovery_stops(step: RecoverStep) -> bool {
    step is RecoverVm || step is InitClient
}

/// A guest that is not there, or whose agent does not answer, is stopped; one that was
/// connected to is not.
pub proof fn lemma_silent_guest_is_stopped(status: SandboxStatus, i: int)
    requires
        0 <= i < recover_plan(status).len(),
    ensures
        recovery_stops(recover_plan(status)[i]) <==> status is Running && forall|k: int|
            0 <= k < i ==> !((#[trigger] recover_plan(status)[k]) is InitClient),
{
    let plan = recover_plan(status);
    if status is Running {
        assert(plan[1] is InitClient);
        assert(plan[0] is RecoverVm);
    }
}

/// Whether the sandbox is stopped by force where a step of taking it up fails: a
/// guest that does not answer must not be left running.
pub fn recover_stops_sandbox(step: RecoverStep) -> (r: bool)
    ensures
        r == recovery_stops(step),
{
    matches!(step, RecoverStep::RecoverVm | RecoverStep::InitClient)
}

/// How many sandboxes are taken up at once.
pub const RECOVERY_CONCURRENCY: usize = 32;

/// An entry of the working directory.
pub struct Entry {
    pub name: String,
    /// Whether it is a directory; `None` where that cannot be told.
    pub is_dir: Option<bool>,
}

/// The names of the directories among the entries: each is that of a sandbox.
pub open spec fn sandbox_names(entries: Seq<Entry>) -> Seq<Seq<char>>
    decreases entries.len(),
{
    if entries.len() == 0 {
        Seq::empty()
    } else {
        let before = sandbox_names(entries.drop_last());
        if entries.last().is_dir == Some(true) {
            before.push(entries.last().name@)
        } else {
            before
        }
    }
}

/// Every directory is taken up as a sandbox under its name, in its place among the others,
/// and nothing else is.
pub proof fn lemma_every_directory_is_taken_up(entries: Seq<Entry>, i: int)
    requires
        0 <= i < entries.len(),
    ensures
        sandbox_names(entries) == sandbox_names(entries.take(i)) + (if entries[i].is_dir == Some(
            true,
        ) {
            seq![entries[i].name@]
        } else {
            Seq::empty()
        }) + sandbox_names(entries.skip(i + 1)),
        sandbox_names(Seq::empty()) == Seq::<Seq<char>>::empty(),
    decreases entries.len(),
{
    let init = entries.drop_last();
    let own = if entries[i].is_dir == Some(true) {
        seq![entries[i].name@]
    } else {
        Seq::empty()
    };
    if i == entries.len() - 1 {
        assert(entries.take(i) =~= init);
        assert(entries.skip(i + 1) =~= Seq::<Entry>::empty());
    } else {
        lemma_every_directory_is_taken_up(init, i);
        assert(init.take(i) =~= entries.take(i));
        assert(entries.skip(i + 1).drop_last() =~= init.skip(i + 1));
        assert(entries.skip(i + 1).last() == entries.last());
    }
    assert(sandbox_names(entries) =~= sandbox_names(entries.take(i)) + own + sandbox_names(
        entries.skip(i + 1),
    ));
}

/// The names of the sandboxes that are to be taken up.
pub fn to_recover(entries: &Vec<Entry>) -> (r: Vec<String>)
    ensures
        texts(r@) == sandbox_names(entries@),
{
    let mut names: Vec<String> = Vec::new();
    let ghost all = entries@;
    let mut i: usize = 0;
    proof {
        assert(all.take(0) =~= Seq::<Entry>::empty());
        assert(texts(names@) =~= sandbox_names(all.take(0)));
    }
    while i < entries.len()
        invariant
            i <= entries@.len(),
            all == entries@,
            texts(names@) == sandbox_names(all.take(i as int)),
        decreases entries.len() - i,
    {
        proof {
            assert(all.take(i + 1).drop_last() =~= all.take(i as int));
            assert(all.take(i + 1).last() == all[i as int]);
        }
        if let Some(true) = entries[i].is_dir {
            let ghost before = names@;
            names.push(entries[i].name.clone());
            assert(texts(names@) =~= texts(before).push(all[i as int].name@));
        }
        i = i + 1;
    }
    assert(all.take(i as int) =~= all);
    names
}

/// What came of taking one sandbox up.
pub enum Recovered {
    Yes(KuasarSandbox),
    No,
    /// The task that did it broke down.
    Lost,
}

/// An attempt at taking up the sandbox with a name.
pub struct RecoverAttempt {
    pub name: String,
    pub outcome: Recovered,
}

/// The sandboxes that were taken up.
pub open spec fn taken_up(attempts: Seq<RecoverAttempt>) -> Seq<KuasarSandbox>
    decreases attempts.len(),
{
    if attempts.len() == 0 {
        Seq::empty()
    } else {
        let before = taken_up(attempts.drop_last());
        match attempts.last().outcome {
            Recovered::Yes(sandbox) => before.push(sandbox),
            _ => before,
        }
    }
}

/// The names of the attempts that `chosen` singles out.
pub open spec fn names_of(
    attempts: Seq<RecoverAttempt>,
    chosen: spec_fn(RecoverAttempt) -> bool,
) -> Seq<Seq<char>>
    decreases attempts.len(),
{
    if attempts.len() == 0 {
        Seq::empty()
    } else {
        let before = names_of(attempts.drop_last(), chosen);
        if chosen(attempts.last()) {
            before.push(attempts.last().name@)
        } else {
            before
        }
    }
}

/// The names of the sandboxes that were taken up.
pub open spec fn taken_names(attempts: Seq<RecoverAttempt>) -> Seq<Seq<char>> {
    names_of(attempts, |a: RecoverAttempt| a.outcome is Yes)
}

/// The names of those that run.
pub open spec fn running_names(attempts: Seq<RecoverAttempt>) -> Seq<Seq<char>> {
    names_of(
        attempts,
        |a: RecoverAttempt|
            a.outcome matches Recovered::Yes(sandbox) && sandbox.status is Running,
    )
}

/// The names of the sandboxes that could not be taken up.
pub open spec fn refused_names(attempts: Seq<RecoverAttempt>) -> Seq<Seq<char>> {
    names_of(attempts, |a: RecoverAttempt| a.outcome is No)
}

/// The names of the sandboxes whose task broke down.
pub open spec fn lost_names(attempts: Seq<RecoverAttempt>) -> Seq<Seq<char>> {
    names_of(attempts, |a: RecoverAttempt| a.outcome is Lost)
}

proof fn lemma_names_of_split(
    attempts: Seq<RecoverAttempt>,
    chosen: spec_fn(RecoverAttempt) -> bool,
    i: int,
)
    requires
        0 <= i < attempts.len(),
    ensures
        names_of(attempts, chosen) == names_of(attempts.take(i), chosen) + (if chosen(
            attempts[i],
        ) {
            seq![attempts[i].name@]
        } else {
            Seq::empty()
        }) + names_of(attempts.skip(i + 1), chosen),
    decreases attempts.len(),
{
    let init = attempts.drop_last();
    let own = if chosen(attempts[i]) {
        seq![attempts[i].name@]
    } else {
        Seq::empty()
    };
    if i == attempts.len() - 1 {
        assert(attempts.take(i) =~= init);
        assert(attempts.skip(i + 1) =~= Seq::<RecoverAttempt>::empty());
    } else {
        lemma_names_of_split(init, chosen, i);
        assert(init.take(i) =~= attempts.take(i));
        assert(attempts.skip(i + 1).drop_last() =~= init.skip(i + 1));
        assert(attempts.skip(i + 1).last() == attempts.last());
    }
    assert(names_of(attempts, chosen) =~= names_of(attempts.take(i), chosen) + own + names_of(
        attempts.skip(i + 1),
        chosen,
    ));
}

/// What becomes of each sandbox depends on its own attempt only: one that was taken up is
/// listed under its name and in its place, and watched exactly where it runs; one that
/// could not be taken up is removed, and nothing else is.
pub proof fn lemma_each_sandbox_has_its_own_fate(attempts: Seq<RecoverAttempt>, i: int)
    requires
        0 <= i < attempts.len(),
    ensures
        ({
            let before = attempts.take(i);
            let after = attempts.skip(i + 1);
            let name = attempts[i].name@;
            match attempts[i].outcome {
                Recovered::Yes(sandbox) => {
                    &&& taken_names(attempts) == taken_names(before) + seq![name] + taken_names(
                        after,
                    )
                    &&& taken_up(attempts) == taken_up(before) + seq![sandbox] + taken_up(after)
                    &&& sandbox.status is Running ==> running_names(attempts) == running_names(
                        before,
                    ) + seq![name] + running_names(after)
                    &&& !(sandbox.status is Running) ==> running_names(attempts) == running_names(
                        before,
                    ) + running_names(after)
                    &&& refused_names(attempts) == refused_names(before) + refused_names(after)
                },
                Recovered::No => {
                    &&& taken_names(attempts) == taken_names(before) + taken_names(after)
                    &&& taken_up(attempts) == taken_up(before) + taken_up(after)
                    &&& running_names(attempts) == running_names(before) + running_names(after)
                    &&& refused_names(attempts) == refused_names(before) + seq![name]
                        + refused_names(after)
                },
                Recovered::Lost => {
                    &&& taken_names(attempts) == taken_names(before) + taken_names(after)
                    &&& taken_up(attempts) == taken_up(before) + taken_up(after)
                    &&& running_names(attempts) == running_names(before) + running_names(after)
                    &&& refused_names(attempts) == refused_names(before) + refused_names(after)
                },
            }
        }),
{
    let before = attempts.take(i);
    let after = attempts.skip(i + 1);
    lemma_names_of_split(attempts, |a: RecoverAttempt| a.outcome is Yes, i);
    lemma_names_of_split(
        attempts,
        |a: RecoverAttempt|
            a.outcome matches Recovered::Yes(sandbox) && sandbox.status is Running,
        i,
    );
    lemma_names_of_split(attempts, |a: RecoverAttempt| a.outcome is No, i);
    lemma_taken_up_split(attempts, i);
    assert(taken_names(before) + Seq::<Seq<char>>::empty() =~= taken_names(before));
    assert(running_names(before) + Seq::<Seq<char>>::empty() =~= running_names(before));
    assert(refused_names(before) + Seq::<Seq<char>>::empty() =~= refused_names(before));
    assert(taken_up(before) + Seq::<KuasarSandbox>::empty() =~= taken_up(before));
}

proof fn lemma_taken_up_split(attempts: Seq<RecoverAttempt>, i: int)
    requires
        0 <= i < attempts.len(),
    ensures
        taken_up(attempts) == taken_up(attempts.take(i)) + (match attempts[i].outcome {
            Recovered::Yes(sandbox) => seq![sandbox],
            _ => Seq::empty(),
        }) + taken_up(attempts.skip(i + 1)),
    decreases attempts.len(),
{
    let init = attempts.drop_last();
    let own = match attempts[i].outcome {
        Recovered::Yes(sandbox) => seq![sandbox],
        _ => Seq::empty(),
    };
    if i == attempts.len() - 1 {
        assert(attempts.take(i) =~= init);
        assert(attempts.skip(i + 1) =~= Seq::<RecoverAttempt>::empty());
    } else {
        lemma_taken_up_split(init, i);
        assert(init.take(i) =~= attempts.take(i));
        assert(attempts.skip(i + 1).drop_last() =~= init.skip(i + 1));
        assert(attempts.skip(i + 1).last() == attempts.last());
    }
    assert(taken_up(attempts) =~= taken_up(attempts.take(i)) + own + taken_up(
        attempts.skip(i + 1),
    ));
}

/// What the host process begins with.
pub struct Recovery {
    /// The names of the sandboxes, in the order of `sandboxes`.
    pub names: Vec<String>,
    pub sandboxes: Vec<KuasarSandbox>,
    /// The sandboxes whose end is watched for.
    pub monitored: Vec<String>,
    /// The sandboxes whose mounts are undone and whose directories are removed.
    pub removed: Vec<String>,
    /// How many could not be taken up.
    pub fail: usize,
    /// What the sandboxes hold of the pool, where there is one.
    pub refs: Option<ActiveRefs>,
}

/// What the host process begins with after the attempts at taking sandboxes up. Only
/// those that run are watched, and what could not be taken up is removed.
pub fn recover(attempts: Vec<RecoverAttempt>, has_pool: bool) -> (r: Recovery)
    ensures
        r.sandboxes@ == taken_up(attempts@),
        texts(r.names@) == taken_names(attempts@),
        texts(r.monitored@) == running_names(attempts@),
        texts(r.removed@) == refused_names(attempts@),
        r.sandboxes@.len() + r.fail == attempts@.len(),
        match r.refs {
            Some(refs) => has_pool && refs_of(refs, taken_up(attempts@)),
            None => !has_pool,
        },
{
    let ghost all = attempts@;
    let mut names: Vec<String> = Vec::new();
    let mut sandboxes: Vec<KuasarSandbox> = Vec::new();
    let mut monitored: Vec<String> = Vec::new();
    let mut removed: Vec<String> = Vec::new();
    let mut fail: usize = 0;
    proof {
        assert(all.take(0) =~= Seq::<RecoverAttempt>::empty());
        assert(sandboxes@ =~= taken_up(all.take(0)));
        assert(texts(names@) =~= taken_names(all.take(0)));
        assert(texts(monitored@) =~= running_names(all.take(0)));
        assert(texts(removed@) =~= refused_names(all.take(0)));
    }
    let total: usize = attempts.len();
    for attempt in it: attempts
        invariant
            it.seq() == all,
            total == all.len(),
            sandboxes@ == taken_up(all.take(it.index() as int)),
            texts(names@) == taken_names(all.take(it.index() as int)),
            texts(monitored@) == running_names(all.take(it.index() as int)),
            texts(removed@) == refused_names(all.take(it.index() as int)),
            sandboxes@.len() + fail == it.index(),
    {
        let ghost k = it.index() as int;
        let ghost watched = monitored@;
        proof {
            assert(attempt == all[k]);
            assert(all.take(k + 1).drop_last() =~= all.take(k));
            assert(all.take(k + 1).last() == attempt);
        }
        match attempt.outcome {
            Recovered::Yes(sandbox) => {
                let ghost before = names@;
                if sandbox.to_be_monitored() {
                    monitored.push(attempt.name.clone());
                    assert(texts(monitored@) =~= texts(watched).push(attempt.name@));
                }
                sandboxes.push(sandbox);
                names.push(attempt.name);
                assert(texts(names@) =~= texts(before).push(attempt.name@));
            },
            Recovered::No => {
                let ghost before = removed@;
                removed.push(attempt.name);
                fail = fail + 1;
                assert(texts(removed@) =~= texts(before).push(attempt.name@));
            },
            Recovered::Lost => {
                fail = fail + 1;
            },
        }
    }
    assert(all.take(all.len() as int) =~= all);
    let refs = if has_pool {
        Some(rebuild_active_refs(&sandboxes))
    } else {
        None
    };
    Recovery { names, sandboxes, monitored, removed, fail, refs }
}

/// Every attempt is accounted for: a sandbox is taken up, or its directory is
/// removed, or its task broke down; and a name that is watched is one that was taken
/// up.
pub proof fn lemma_recovery_is_complete(attempts: Seq<RecoverAttempt>)
    ensures
        taken_up(attempts).len() == taken_names(attempts).len(),
        taken_names(attempts).len() + refused_names(attempts).len() + lost_names(attempts).len()
            == attempts.len(),
        forall|name: Seq<char>| #[trigger]
            running_names(attempts).contains(name) ==> taken_names(attempts).contains(name),
    decreases attempts.len(),
{
    if attempts.len() > 0 {
        let rest = attempts.drop_last();
        lemma_recovery_is_complete(rest);
        let before = taken_names(rest);
        assert forall|name: Seq<char>| #[trigger]
            running_names(attempts).contains(name) implies taken_names(attempts).contains(name) by {
            let all = running_names(attempts);
            let i = choose|i: int| 0 <= i < all.len() && all[i] == name;
            if i < running_names(rest).len() {
                assert(running_names(rest)[i] == name);
                assert(running_names(rest).contains(name));
                let j = choose|j: int| 0 <= j < before.len() && before[j] == name;
                assert(taken_names(attempts)[j] == name);
            } else {
                assert(taken_names(attempts)[before.len() as int] == name);
            }
        }
    }
}

} // verus!
