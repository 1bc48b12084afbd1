//! The sandboxes of a host process.

use crate::sandbox::config::SandboxConfig;
use crate::sandbox::data::{annotations_of, SandboxData};
use crate::sandbox::intent::{
    plan_start, plan_unknown, start_plan, unknown_plan, StartError, StartPlan,
};
use crate::sandbox::lifecycle::{
    after_end, create_plan, create_steps, delete_plan, delete_steps, stop_request_plan,
    stop_request_steps, CreateStep, DeleteStep, StopRequestStep,
};
use crate::sandbox::refs::{release_of, Release};
use crate::sandbox::state::{forgot_template, KuasarContainer, KuasarSandbox};
use crate::text::texts;
use crate::text_map::TextMap;
use vstd::prelude::*;

verus! {

/// Why a request for a sandbox is refused.
#[derive(Debug)]
pub enum SandboxerError {
    /// There is a sandbox with the id.
    AlreadyExist,
    /// There is no sandbox with the id.
    NotFound(String),
    /// The pod asks for something that cannot be.
    Start(StartError),
}

/// The sandboxes of a host process, by their ids.
pub struct KuasarSandboxer {
    pub config: SandboxConfig,
    /// Whether there is a pool of templates.
    pub has_pool: bool,
    /// Whether there is a store of continuations.
    pub has_store: bool,
    pub sandboxes: TextMap<KuasarSandbox>,
}

/// Whether two states of a host process differ at most in their sandboxes.
pub open spec fn same_but_sandboxes(a: KuasarSandboxer, b: KuasarSandboxer) -> bool {
    a.config == b.config && a.has_pool == b.has_pool && a.has_store == b.has_store
}

/// Whether `s` is a sandbox that was just made.
pub open spec fn is_fresh(
    s: KuasarSandbox,
    id: Seq<char>,
    base_dir: Seq<char>,
    data: SandboxData,
) -> bool {
    &&& s.id@ == id
    &&& s.status is Created
    &&& s.base_dir@ == base_dir
    &&& s.data == data
    &&& s.containers@ == Map::<Seq<char>, KuasarContainer>::empty()
    &&& s.storages@.len() == 0
    &&& s.id_generator == 0
    &&& forgot_template(s)
}

/// Nothing but the list of sandboxes ever changes.
pub proof fn lemma_only_the_list_changes(a: KuasarSandboxer, b: KuasarSandboxer)
    ensures
        same_but_sandboxes(a, b) <==> a == (KuasarSandboxer { sandboxes: a.sandboxes, ..b }),
{
}

/// What the list holds once sandboxes were entered into it one after the other.
pub open spec fn entered(
    sandboxes: Map<Seq<char>, KuasarSandbox>,
    names: Seq<Seq<char>>,
    taken: Seq<KuasarSandbox>,
) -> Map<Seq<char>, KuasarSandbox>
    decreases taken.len(),
{
    if taken.len() == 0 || names.len() != taken.len() {
        sandboxes
    } else {
        entered(sandboxes, names.drop_last(), taken.drop_last()).insert(names.last(), taken.last())
    }
}

/// The steps of deleting a sandbox, and what becomes of its template.
pub struct Deletion {
    pub steps: Vec<DeleteStep>,
    pub release: Release,
}

impl KuasarSandboxer {
    /// A host process without sandboxes.
    pub fn new(config: SandboxConfig, has_pool: bool, has_store: bool) -> (r: Self)
        ensures
            r.config == config,
            r.has_pool == has_pool,
            r.has_store == has_store,
            r.sandboxes@ == Map::<Seq<char>, KuasarSandbox>::empty(),
    {
        KuasarSandboxer { config, has_pool, has_store, sandboxes: TextMap::new() }
    }

    /// The sandbox with an id.
    pub fn sandbox(&self, id: &str) -> (r: Result<&KuasarSandbox, SandboxerError>)
        ensures
            match r {
                Ok(s) => self.sandboxes@.contains_key(id@) && self.sandboxes@[id@] == *s,
                Err(SandboxerError::NotFound(name)) => !self.sandboxes@.contains_key(id@) && name@
                    == id@,
                Err(_) => false,
            },
    {
        match self.sandboxes.get(id) {
            Some(s) => Ok(s),
            None => Err(SandboxerError::NotFound(id.to_owned())),
        }
    }

    /// The steps of creating a sandbox. An id is used once.
    pub fn create(&self, id: &str, cgroup_v2: bool) -> (r: Result<Vec<CreateStep>, SandboxerError>)
        ensures
            match r {
                Ok(steps) => !self.sandboxes@.contains_key(id@) && create_plan(false, cgroup_v2)
                    == Some(steps@),
                Err(e) => self.sandboxes@.contains_key(id@) && e is AlreadyExist,
            },
    {
        let exists: bool = self.sandboxes.get(id).is_some();
        match create_steps(exists, cgroup_v2) {
            Some(steps) => Ok(steps),
            None => Err(SandboxerError::AlreadyExist),
        }
    }

    /// Enters a sandbox into the list, once all else of creating it is done.
    pub fn created(&mut self, id: &str, base_dir: &str, data: SandboxData)
        ensures
            final(self).sandboxes@.dom() == old(self).sandboxes@.dom().insert(id@),
            is_fresh(final(self).sandboxes@[id@], id@, base_dir@, data),
            final(self).sandboxes@.remove(id@) == old(self).sandboxes@.remove(id@),
            same_but_sandboxes(*final(self), *old(self)),
    {
        let sandbox = KuasarSandbox::new(id, base_dir, data);
        self.sandboxes.insert(id.to_owned(), sandbox);
        assert(self.sandboxes@.remove(id@) =~= old(self).sandboxes@.remove(id@));
        assert(self.sandboxes@.dom() =~= old(self).sandboxes@.dom().insert(id@));
    }

    /// How a sandbox is started, from what its pod asks for. That there is none may
    /// come out only after a booted guest was tried.
    pub fn start(&self, id: &str) -> (r: Result<StartPlan, SandboxerError>)
        ensures
            if !self.sandboxes@.contains_key(id@) {
                match unknown_plan(self.config.snapshot, self.has_pool, self.has_store) {
                    Some(view) => r matches Ok(plan) && plan@ == view,
                    None => r matches Err(SandboxerError::NotFound(name)) && name@ == id@,
                }
            } else {
                match start_plan(
                    self.config.snapshot,
                    self.has_pool,
                    self.has_store,
                    annotations_of(self.sandboxes@[id@].data),
                ) {
                    Ok(view) => r matches Ok(plan) && plan@ == view,
                    Err(f) => r matches Err(SandboxerError::Start(e)) && e == f,
                }
            },
    {
        let sandbox = match self.sandbox(id) {
            Ok(s) => s,
            Err(e) => {
                return match plan_unknown(&self.config.snapshot, self.has_pool, self.has_store) {
                    Some(plan) => Ok(plan),
                    None => Err(e),
                };
            },
        };
        match plan_start(&self.config.snapshot, self.has_pool, self.has_store, &sandbox.data) {
            Ok(plan) => Ok(plan),
            Err(e) => Err(SandboxerError::Start(e)),
        }
    }

    /// Changes what is known of the pod of a sandbox.
    pub fn update(&mut self, id: &str, data: SandboxData) -> (r: Result<(), SandboxerError>)
        ensures
            match r {
                Ok(()) => old(self).sandboxes@.contains_key(id@) && final(self).sandboxes@
                    == old(self).sandboxes@.insert(
                    id@,
                    KuasarSandbox { data, ..old(self).sandboxes@[id@] },
                ),
                Err(e) => !old(self).sandboxes@.contains_key(id@) && (
                e matches SandboxerError::NotFound(name) && name@ == id@)
                    && final(self).sandboxes@ == old(self).sandboxes@,
            },
            same_but_sandboxes(*final(self), *old(self)),
    {
        match self.sandboxes.remove(id) {
            Some(s) => {
                let mut sandbox = s;
                sandbox.data = data;
                self.sandboxes.insert(id.to_owned(), sandbox);
                assert(self.sandboxes@ =~= old(self).sandboxes@.insert(
                    id@,
                    KuasarSandbox { data, ..old(self).sandboxes@[id@] },
                ));
                Ok(())
            },
            None => {
                assert(self.sandboxes@ =~= old(self).sandboxes@);
                Err(SandboxerError::NotFound(id.to_owned()))
            },
        }
    }

    /// The guest of a sandbox ended; of one that is gone nothing is kept.
    pub fn ended(&mut self, id: &str, code: u32, at: i128)
        ensures
            final(self).sandboxes@ == (if old(self).sandboxes@.contains_key(id@) {
                old(self).sandboxes@.insert(
                    id@,
                    KuasarSandbox {
                        status: after_end(old(self).sandboxes@[id@].status, code, at),
                        ..old(self).sandboxes@[id@]
                    },
                )
            } else {
                old(self).sandboxes@
            }),
            same_but_sandboxes(*final(self), *old(self)),
    {
        match self.sandboxes.remove(id) {
            Some(s) => {
                let mut sandbox = s;
                sandbox.terminated(code, at);
                let ghost changed = sandbox;
                self.sandboxes.insert(id.to_owned(), sandbox);
                assert(self.sandboxes@ =~= old(self).sandboxes@.insert(id@, changed));
            },
            None => {
                assert(self.sandboxes@ =~= old(self).sandboxes@);
            },
        }
    }

    /// The steps of stopping a sandbox. Of one that is not there nothing is to be
    /// stopped.
    pub fn stop(&self, id: &str) -> (r: Vec<StopRequestStep>)
        ensures
            r@ == stop_request_plan(self.sandboxes@.contains_key(id@)),
    {
        let found: bool = self.sandboxes.get(id).is_some();
        stop_request_steps(found)
    }

    /// What deleting a sandbox takes, and what becomes of its template.
    pub fn delete(&self, id: &str, removes_cgroups: bool) -> (r: Deletion)
        ensures
            r.steps@ == delete_plan(self.sandboxes@.contains_key(id@), removes_cgroups),
            r.release == (if self.sandboxes@.contains_key(id@) {
                release_of(self.sandboxes@[id@], self.has_pool, self.has_store)
            } else {
                Release::Nothing
            }),
    {
        match self.sandboxes.get(id) {
            Some(s) => Deletion {
                steps: delete_steps(true, removes_cgroups),
                release: s.release_on_delete(self.has_pool, self.has_store),
            },
            None => Deletion {
                steps: delete_steps(false, removes_cgroups),
                release: Release::Nothing,
            },
        }
    }

    /// Enters the sandboxes of an earlier run into the list, each under its name.
    pub fn adopt(&mut self, names: Vec<String>, sandboxes: Vec<KuasarSandbox>)
        requires
            names@.len() == sandboxes@.len(),
        ensures
            final(self).sandboxes@ == entered(
                old(self).sandboxes@,
                texts(names@),
                sandboxes@,
            ),
            same_but_sandboxes(*final(self), *old(self)),
    {
        let ghost start = self.sandboxes@;
        let ghost all = sandboxes@;
        let ghost keys = texts(names@);
        proof {
            assert(all.take(0) =~= Seq::<KuasarSandbox>::empty());
            assert(keys.take(0) =~= Seq::<Seq<char>>::empty());
        }
        let count: usize = names.len();
        let mut i: usize = 0;
        for sandbox in it: sandboxes
            invariant
                it.seq() == all,
                count == names@.len(),
                i == it.index(),
                all.len() == names@.len(),
                keys == texts(names@),
                self.sandboxes@ == entered(start, keys.take(i as int), all.take(i as int)),
                same_but_sandboxes(*self, *old(self)),
        {
            proof {
                assert(sandbox == all[i as int]);
                assert(all.take(i + 1).drop_last() =~= all.take(i as int));
                assert(keys.take(i + 1).drop_last() =~= keys.take(i as int));
                assert(all.take(i + 1).last() == sandbox);
                assert(keys.take(i + 1).last() == names@[i as int]@);
            }
            self.sandboxes.insert(names[i].clone(), sandbox);
            i = i + 1;
        }
        assert(all.take(i as int) =~= all);
        assert(keys.take(i as int) =~= keys);
    }

    /// Strikes a sandbox from the list, once all else of deleting it is done.
    pub fn deleted(&mut self, id: &str)
        ensures
            final(self).sandboxes@ == old(self).sandboxes@.remove(id@),
            same_but_sandboxes(*final(self), *old(self)),
    {
        let _ = self.sandboxes.remove(id);
    }
}

/// Each sandbox of an earlier run is found under its name, unless a later one has the same;
/// what has another name stays as it was.
pub proof fn lemma_every_sandbox_is_entered(
    sandboxes: Map<Seq<char>, KuasarSandbox>,
    names: Seq<Seq<char>>,
    taken: Seq<KuasarSandbox>,
    i: int,
    other: Seq<char>,
)
    requires
        names.len() == taken.len(),
        0 <= i < names.len(),
        forall|k: int| i < k < names.len() ==> #[trigger] names[k] != names[i],
        !names.contains(other),
    ensures
        ({
            let all = entered(sandboxes, names, taken);
            &&& all.contains_key(names[i]) && all[names[i]] == taken[i]
            &&& all.contains_key(other) <==> sandboxes.contains_key(other)
            &&& sandboxes.contains_key(other) ==> all[other] == sandboxes[other]
        }),
    decreases names.len(),
{
    lemma_others_are_kept(sandboxes, names, taken, other);
    let end: int = names.len() - 1;
    if i < end {
        let init = names.drop_last();
        assert(names[end] != names[i]);
        assert forall|k: int| i < k < init.len() implies #[trigger] init[k] != init[i] by {
            assert(names[k] != names[i]);
        }
        assert forall|x: Seq<char>| init.contains(x) implies names.contains(x) by {
            let k = choose|k: int| 0 <= k < init.len() && init[k] == x;
            assert(names[k] == x);
        }
        lemma_every_sandbox_is_entered(sandboxes, init, taken.drop_last(), i, other);
    }
}

proof fn lemma_others_are_kept(
    sandboxes: Map<Seq<char>, KuasarSandbox>,
    names: Seq<Seq<char>>,
    taken: Seq<KuasarSandbox>,
    other: Seq<char>,
)
    requires
        names.len() == taken.len(),
        !names.contains(other),
    ensures
        ({
            let all = entered(sandboxes, names, taken);
            &&& all.contains_key(other) <==> sandboxes.contains_key(other)
            &&& sandboxes.contains_key(other) ==> all[other] == sandboxes[other]
        }),
    decreases names.len(),
{
    if names.len() > 0 {
        let init = names.drop_last();
        assert(names[names.len() - 1] == names.last());
        assert forall|x: Seq<char>| init.contains(x) implies names.contains(x) by {
            let k = choose|k: int| 0 <= k < init.len() && init[k] == x;
            assert(names[k] == x);
        }
        lemma_others_are_kept(sandboxes, init, taken.drop_last(), other);
    }
}

/// A sandbox that was just made was never started, holds nothing and lives on no template.
pub proof fn lemma_fresh_sandbox_holds_nothing(
    s: KuasarSandbox,
    id: Seq<char>,
    base_dir: Seq<char>,
    data: SandboxData,
    has_pool: bool,
    has_store: bool,
)
    requires
        is_fresh(s, id, base_dir, data),
    ensures
        s.id@ == id && s.base_dir@ == base_dir && s.data == data,
        s.status is Created && s.template_id is None && s.storages@.len() == 0,
        s.containers@.dom() == Set::<Seq<char>>::empty(),
        release_of(s, has_pool, has_store) is Nothing,
{
    assert(s.containers@.dom() =~= Set::<Seq<char>>::empty());
}

/// A sandbox that was created is found under its id, and creating it again is
/// refused. One that was deleted is gone, and its id is free. Other sandboxes are not
/// touched either way.
pub proof fn lemma_ids_are_used_once(
    before: Map<Seq<char>, KuasarSandbox>,
    created: Map<Seq<char>, KuasarSandbox>,
    id: Seq<char>,
    other: Seq<char>,
)
    requires
        created.dom() == before.dom().insert(id),
        created.remove(id) == before.remove(id),
        other != id,
    ensures
        create_plan(created.contains_key(id), true) is None,
        create_plan(created.contains_key(id), false) is None,
        create_plan(created.remove(id).contains_key(id), true) is Some,
        created.contains_key(other) <==> before.contains_key(other),
        before.contains_key(other) ==> created[other] == before[other],
        created.remove(id).contains_key(other) <==> before.contains_key(other),
        before.contains_key(other) ==> created.remove(id)[other] == before[other],
{
    assert(created.dom().contains(other) == before.dom().contains(other));
    assert(created.remove(id).contains_key(other) == before.remove(id).contains_key(other));
    if before.contains_key(other) {
        assert(created.remove(id)[other] == created[other]);
        assert(before.remove(id)[other] == before[other]);
    }
}

} // verus!
