//! The containers of a sandbox, and what a restored guest is told about itself.

use crate::cloud_hypervisor::vm::SHARED_DIR_SUFFIX;
use crate::order::{comes_before, lemma_comes_before};
use crate::sandbox::config::TemplateLeaseMode;
use crate::sandbox::state::{KuasarContainer, KuasarSandbox};
use crate::text::{concat, contains, occurs_in};
use vstd::prelude::*;

verus! {

impl KuasarSandbox {
    /// A container of this sandbox.
    pub fn container(&self, id: &str) -> (r: Option<&KuasarContainer>)
        ensures
            match r {
                Some(c) => self.containers@.contains_key(id@) && *c == self.containers@[id@],
                None => !self.containers@.contains_key(id@),
            },
    {
        self.containers.get(id)
    }

    /// Enters a container into the list, in place of one with the same id.
    pub fn put_container(&mut self, container: KuasarContainer)
        ensures
            final(self).containers@ == old(self).containers@.insert(container.id@, container),
            *final(self) == (KuasarSandbox {
                containers: final(self).containers,
                ..*old(self)
            }),
    {
        let id = container.id.clone();
        self.containers.insert(id, container);
    }

    /// Strikes a container from the list. Its devices must then be unplugged.
    pub fn take_container(&mut self, id: &str) -> (r: Option<KuasarContainer>)
        ensures
            final(self).containers@ == old(self).containers@.remove(id@),
            match r {
                Some(c) => old(self).containers@.contains_key(id@) && c
                    == old(self).containers@[id@],
                None => !old(self).containers@.contains_key(id@),
            },
            *final(self) == (KuasarSandbox {
                containers: final(self).containers,
                ..*old(self)
            }),
    {
        self.containers.remove(id)
    }

    /// The directory of a container that the guest sees.
    pub fn bundle_path(&self, id: &str) -> (r: String)
        ensures
            r@ == self.base_dir@ + "/"@ + SHARED_DIR_SUFFIX@ + "/"@ + id@,
    {
        let shared = self.get_sandbox_shared_path();
        let mut r = concat(shared.as_str(), "/");
        r.append(id);
        r
    }

    /// Takes over how the templates of the pool are used, where there is a pool.
    pub fn apply_pool_settings(&mut self, pool: Option<(TemplateLeaseMode, bool)>)
        ensures
            *final(self) == (match pool {
                Some((lease_mode, reflink)) => KuasarSandbox {
                    lease_mode: Some(lease_mode),
                    reflink_supported: Some(reflink),
                    ..*old(self)
                },
                None => *old(self),
            }),
    {
        if let Some((lease_mode, reflink)) = pool {
            self.lease_mode = Some(lease_mode);
            self.reflink_supported = Some(reflink);
        }
    }
}

/// A container that was entered is found under its id and gone once it was struck
/// from the list; all others stay as they were.
pub proof fn lemma_taken_container_is_gone(
    containers: Map<Seq<char>, KuasarContainer>,
    container: KuasarContainer,
    other: Seq<char>,
)
    requires
        other != container.id@,
    ensures
        ({
            let entered = containers.insert(container.id@, container);
            let struck = entered.remove(container.id@);
            &&& entered.contains_key(container.id@) && entered[container.id@] == container
            &&& !struck.contains_key(container.id@)
            &&& struck.contains_key(other) <==> containers.contains_key(other)
            &&& containers.contains_key(other) ==> entered[other] == containers[other]
                && struck[other] == containers[other]
        }),
{
}

/// A step of removing a container.
#[derive(Clone, Copy, Debug, PartialEq, Eq, Structural)]
pub enum RemoveStep {
    /// Give up the storages that it uses.
    DropStorages,
    /// Remove its directory.
    RemoveBundle,
    /// Strike it from the list.
    Forget,
    /// Unplug its devices, where it was in the list.
    DetachDevices,
    Dump,
}

/// The steps of removing a container, in order.
pub open spec fn remove_plan() -> Seq<RemoveStep> {
    seq![
        RemoveStep::DropStorages,
        RemoveStep::RemoveBundle,
        RemoveStep::Forget,
        RemoveStep::DetachDevices,
        RemoveStep::Dump,
    ]
}

/// A container is removed in order: its storages are given up and its directory removed, it
/// is struck from the list, and then its devices are unplugged and the sandbox is kept in
/// its file.
pub proof fn lemma_container_is_removed_in_order()
    ensures
        ({
            let plan = remove_plan();
            &&& plan.no_duplicates()
            &&& comes_before(plan, RemoveStep::DropStorages, RemoveStep::RemoveBundle)
            &&& comes_before(plan, RemoveStep::RemoveBundle, RemoveStep::Forget)
            &&& comes_before(plan, RemoveStep::Forget, RemoveStep::DetachDevices)
            &&& comes_before(plan, RemoveStep::DetachDevices, RemoveStep::Dump)
        }),
{
    let plan = remove_plan();
    assert(plan =~= seq![
        RemoveStep::DropStorages,
        RemoveStep::RemoveBundle,
        RemoveStep::Forget,
        RemoveStep::DetachDevices,
        RemoveStep::Dump,
    ]);
    lemma_comes_before(plan, 0, 1);
    lemma_comes_before(plan, 1, 2);
    lemma_comes_before(plan, 2, 3);
    lemma_comes_before(plan, 3, 4);
}

/// The steps of removing a container, in order. The first that fails ends it; that
/// the directory is gone already is no failure.
pub fn remove_steps() -> (r: Vec<RemoveStep>)
    ensures
        r@ == remove_plan(),
{
    let mut steps: Vec<RemoveStep> = Vec::new();
    steps.push(RemoveStep::DropStorages);
    steps.push(RemoveStep::RemoveBundle);
    steps.push(RemoveStep::Forget);
    steps.push(RemoveStep::DetachDevices);
    steps.push(RemoveStep::Dump);
    assert(steps@ =~= remove_plan());
    steps
}

// ── What a restored guest is told ───────────────────────────────────────────

/// A step of telling a restored guest who it is.
#[derive(Clone, Copy, Debug, PartialEq, Eq, Structural)]
pub enum IdentityStep {
    PushSandboxFiles,
    UpdateInterfaces,
    UpdateRoutes,
    /// Set the clock of the guest. This cannot fail.
    SyncClock,
}

/// What is known of the network of a restored guest.
#[derive(Clone, Copy, Debug, PartialEq, Eq, Structural)]
pub struct NetworkNews {
    /// Whether there is a network, and a connection to tell of it.
    pub reachable: bool,
    pub has_interfaces: bool,
    pub has_routes: bool,
}

/// The steps of telling a restored guest who it is, in order. Where the guest sees
/// a directory of the host, the files need not be pushed.
pub open spec fn identity_plan(on_blocks: bool, news: NetworkNews) -> Seq<IdentityStep> {
    (if on_blocks {
        seq![IdentityStep::PushSandboxFiles]
    } else {
        Seq::empty()
    }) + (if news.reachable && news.has_interfaces {
        seq![IdentityStep::UpdateInterfaces]
    } else {
        Seq::empty()
    }) + (if news.reachable && news.has_routes {
        seq![IdentityStep::UpdateRoutes]
    } else {
        Seq::empty()
    }) + seq![IdentityStep::SyncClock]
}

/// A restored guest is told its interfaces and routes exactly where there are such and
/// they can be told, the interfaces first; its files are pushed before, exactly where it
/// shares no directory; and its clock is set at last, whatever else there is.
pub proof fn lemma_guest_is_told_who_it_is(on_blocks: bool, news: NetworkNews)
    ensures
        ({
            let plan = identity_plan(on_blocks, news);
            let interfaces = news.reachable && news.has_interfaces;
            let routes = news.reachable && news.has_routes;
            &&& plan.no_duplicates()
            &&& plan.last() == IdentityStep::SyncClock
            &&& plan.contains(IdentityStep::PushSandboxFiles) <==> on_blocks
            &&& on_blocks ==> plan[0] == IdentityStep::PushSandboxFiles
            &&& plan.contains(IdentityStep::UpdateInterfaces) <==> interfaces
            &&& plan.contains(IdentityStep::UpdateRoutes) <==> routes
            &&& interfaces && routes ==> comes_before(
                plan,
                IdentityStep::UpdateInterfaces,
                IdentityStep::UpdateRoutes,
            )
        }),
{
    let plan = identity_plan(on_blocks, news);
    let interfaces = news.reachable && news.has_interfaces;
    let routes = news.reachable && news.has_routes;
    let a: int = if on_blocks {
        1
    } else {
        0
    };
    let b: int = a + if interfaces {
        1int
    } else {
        0
    };
    if on_blocks {
        assert(plan[0] == IdentityStep::PushSandboxFiles);
    }
    if interfaces {
        assert(plan[a] == IdentityStep::UpdateInterfaces);
    }
    if routes {
        assert(plan[b] == IdentityStep::UpdateRoutes);
    }
    assert(plan.no_duplicates());
    if interfaces && routes {
        lemma_comes_before(plan, a, b);
    }
}

/// The steps of telling a restored guest who it is, in order. The first that fails
/// ends it.
pub fn identity_steps(on_blocks: bool, news: NetworkNews) -> (r: Vec<IdentityStep>)
    ensures
        r@ == identity_plan(on_blocks, news),
{
    let mut steps: Vec<IdentityStep> = Vec::new();
    if on_blocks {
        steps.push(IdentityStep::PushSandboxFiles);
    }
    if news.reachable && news.has_interfaces {
        steps.push(IdentityStep::UpdateInterfaces);
    }
    if news.reachable && news.has_routes {
        steps.push(IdentityStep::UpdateRoutes);
    }
    steps.push(IdentityStep::SyncClock);
    assert(steps@ =~= identity_plan(on_blocks, news));
    steps
}

/// Whether the end of the event stream of a guest is worth a message. A stream that
/// just ends belongs to a guest that was closed.
pub fn reports_event_error(message: &str) -> (r: bool)
    ensures
        r == !occurs_in("early eof"@, message@),
{
    !contains(message, "early eof")
}

} // verus!
