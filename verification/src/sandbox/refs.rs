//! What keeps the files of a template while sandboxes live on them.

use crate::sandbox::config::{MemoryRestoreMode, TemplateLeaseMode};
use crate::sandbox::state::{forgot_template, KuasarSandbox};
use crate::template::SnapshotType;
use crate::text::{contains_text, texts};
use crate::text_map::{lemma_entries_map, TextMap};
use vstd::prelude::*;

verus! {

/// Whether a sandbox holds a reference of its own to the files of the template:
/// one that was restored from a booted guest, and still reads its memory from
/// there. The reference of a shared warm fork is that of its lease.
pub open spec fn holds_pin(s: KuasarSandbox) -> bool {
    &&& s.template_id is Some
    &&& s.template_snapshot_type == Some(SnapshotType::Environment)
    &&& s.memory_restore_mode is Some
    &&& !(s.memory_restore_mode->0 is Copy)
}

/// Whether a sandbox holds the reference of the lease of a shared warm fork.
pub open spec fn holds_shared_lease(s: KuasarSandbox) -> bool {
    &&& s.template_id is Some
    &&& s.template_snapshot_type == Some(SnapshotType::WarmFork)
    &&& s.lease_mode == Some(TemplateLeaseMode::Shared)
}

impl KuasarSandbox {
    /// Whether this sandbox, restored just now, must take a reference to the files
    /// of the template. Without a pool there is nothing to take it from.
    pub fn needs_pin(&self, has_pool: bool) -> (r: bool)
        ensures
            r == (has_pool && holds_pin(*self)),
    {
        has_pool && self.is_pinned()
    }

    fn is_pinned(&self) -> (r: bool)
        ensures
            r == holds_pin(*self),
    {
        self.template_id.is_some() && matches!(
            self.template_snapshot_type,
            Some(SnapshotType::Environment)
        ) && match self.memory_restore_mode {
            Some(MemoryRestoreMode::Copy) => false,
            Some(_) => true,
            None => false,
        }
    }

    fn is_shared(&self) -> (r: bool)
        ensures
            r == holds_shared_lease(*self),
    {
        self.template_id.is_some() && matches!(
            self.template_snapshot_type,
            Some(SnapshotType::WarmFork)
        ) && matches!(self.lease_mode, Some(TemplateLeaseMode::Shared))
    }
}

/// What becomes of the template when a sandbox is deleted.
#[derive(Clone, Copy, Debug, PartialEq, Eq, Structural)]
pub enum Release {
    /// Nothing: no reference is held.
    Nothing,
    /// The reference is given back to the pool.
    Deref,
    /// The files of the used-up template are removed.
    CleanupConsumed,
    /// The continuation is removed from its store.
    DeleteContinuation,
}

/// What becomes of the template when a sandbox is deleted.
pub open spec fn release_of(s: KuasarSandbox, has_pool: bool, has_store: bool) -> Release {
    if s.template_id is None || !has_pool {
        Release::Nothing
    } else {
        match s.template_snapshot_type {
            Some(SnapshotType::Environment) => if holds_pin(s) {
                Release::Deref
            } else {
                Release::Nothing
            },
            Some(SnapshotType::WarmFork) => if s.lease_mode == Some(TemplateLeaseMode::Shared) {
                Release::Deref
            } else {
                Release::CleanupConsumed
            },
            Some(SnapshotType::Continuation) => if has_store {
                Release::DeleteContinuation
            } else {
                Release::Nothing
            },
            None => Release::CleanupConsumed,
        }
    }
}

/// What becomes of the template when a sandbox of the service is destroyed: only
/// references are given back.
pub open spec fn destroy_release(s: KuasarSandbox, has_pool: bool) -> Release {
    if has_pool && (holds_pin(s) || holds_shared_lease(s)) {
        Release::Deref
    } else {
        Release::Nothing
    }
}

impl KuasarSandbox {
    /// What becomes of the template when this sandbox is deleted.
    pub fn release_on_delete(&self, has_pool: bool, has_store: bool) -> (r: Release)
        ensures
            r == release_of(*self, has_pool, has_store),
    {
        if self.template_id.is_none() || !has_pool {
            return Release::Nothing;
        }
        match self.template_snapshot_type {
            Some(SnapshotType::Environment) => {
                if self.is_pinned() {
                    Release::Deref
                } else {
                    Release::Nothing
                }
            },
            Some(SnapshotType::WarmFork) => {
                if matches!(self.lease_mode, Some(TemplateLeaseMode::Shared)) {
                    Release::Deref
                } else {
                    Release::CleanupConsumed
                }
            },
            Some(SnapshotType::Continuation) => {
                if has_store {
                    Release::DeleteContinuation
                } else {
                    Release::Nothing
                }
            },
            None => Release::CleanupConsumed,
        }
    }

    /// What becomes of the template when a sandbox of the service is destroyed:
    /// only references are given back.
    pub fn release_on_destroy(&self, has_pool: bool) -> (r: Release)
        ensures
            r == destroy_release(*self, has_pool),
    {
        if has_pool && (self.is_pinned() || self.is_shared()) {
            Release::Deref
        } else {
            Release::Nothing
        }
    }
}

/// The references that the sandboxes of a restarted host process hold.
pub struct ActiveRefs {
    /// The templates that any sandbox lives on, each once.
    pub active: Vec<String>,
    /// One entry for each lease of a shared warm fork.
    pub shared: Vec<String>,
    /// One entry for each reference of its own.
    pub pinned: Vec<String>,
}

/// The templates of the sandboxes that `holds` singles out, one entry for each.
pub open spec fn templates_held(
    sandboxes: Seq<KuasarSandbox>,
    holds: spec_fn(KuasarSandbox) -> bool,
) -> Seq<Seq<char>>
    decreases sandboxes.len(),
{
    if sandboxes.len() == 0 {
        Seq::empty()
    } else {
        let before = templates_held(sandboxes.drop_last(), holds);
        let s = sandboxes.last();
        if holds(s) && s.template_id is Some {
            before.push(s.template_id->0@)
        } else {
            before
        }
    }
}

/// Whether `refs` are the references that sandboxes hold.
pub open spec fn refs_of(refs: ActiveRefs, sandboxes: Seq<KuasarSandbox>) -> bool {
    &&& texts(refs.shared@) == templates_held(sandboxes, |s: KuasarSandbox| holds_shared_lease(s))
    &&& texts(refs.pinned@) == templates_held(sandboxes, |s: KuasarSandbox| holds_pin(s))
    &&& texts(refs.active@).no_duplicates()
    &&& texts(refs.active@).to_set() == templates_held(
        sandboxes,
        |s: KuasarSandbox| true,
    ).to_set()
}

/// The references that the sandboxes of a restarted host process hold.
pub fn rebuild_active_refs(sandboxes: &Vec<KuasarSandbox>) -> (r: ActiveRefs)
    ensures
        refs_of(r, sandboxes@),
{
    let mut active: Vec<String> = Vec::new();
    let mut shared: Vec<String> = Vec::new();
    let mut pinned: Vec<String> = Vec::new();
    let ghost is_shared = |s: KuasarSandbox| holds_shared_lease(s);
    let ghost is_pinned = |s: KuasarSandbox| holds_pin(s);
    let ghost is_any = |s: KuasarSandbox| true;
    let ghost all = sandboxes@;
    let mut i: usize = 0;
    proof {
        assert(all.take(0) =~= Seq::<KuasarSandbox>::empty());
        assert(texts(shared@) =~= templates_held(all.take(0), is_shared));
        assert(texts(pinned@) =~= templates_held(all.take(0), is_pinned));
        assert(texts(active@) =~= templates_held(all.take(0), is_any));
    }
    while i < sandboxes.len()
        invariant
            i <= sandboxes@.len(),
            all == sandboxes@,
            is_shared == (|s: KuasarSandbox| holds_shared_lease(s)),
            is_pinned == (|s: KuasarSandbox| holds_pin(s)),
            is_any == (|s: KuasarSandbox| true),
            texts(shared@) == templates_held(all.take(i as int), is_shared),
            texts(pinned@) == templates_held(all.take(i as int), is_pinned),
            texts(active@).no_duplicates(),
            texts(active@).to_set() == templates_held(all.take(i as int), is_any).to_set(),
        decreases sandboxes.len() - i,
    {
        let s = &sandboxes[i];
        proof {
            assert(all.take(i + 1).drop_last() =~= all.take(i as int));
            assert(all.take(i + 1).last() == *s);
        }
        let ghost held = templates_held(all.take(i as int), is_any);
        if let Some(tid) = &s.template_id {
            let ghost before = active@;
            proof {
                lemma_push_to_set(held, tid@);
            }
            if !contains_text(&active, tid.as_str()) {
                active.push(tid.clone());
                proof {
                    assert(texts(active@) =~= texts(before).push(tid@));
                    lemma_push_to_set(texts(before), tid@);
                    lemma_push_new(texts(before), tid@);
                }
            } else {
                assert(texts(before).to_set().contains(tid@));
                assert(held.to_set().insert(tid@) =~= held.to_set());
            }
            if s.is_shared() {
                let ghost before = shared@;
                shared.push(tid.clone());
                assert(texts(shared@) =~= texts(before).push(tid@));
            } else if s.is_pinned() {
                let ghost before = pinned@;
                pinned.push(tid.clone());
                assert(texts(pinned@) =~= texts(before).push(tid@));
            }
        }
        i = i + 1;
    }
    assert(all.take(i as int) =~= all);
    ActiveRefs { active, shared, pinned }
}

proof fn lemma_push_to_set(v: Seq<Seq<char>>, x: Seq<char>)
    ensures
        v.push(x).to_set() == v.to_set().insert(x),
{
    assert(v.push(x).to_set() =~= v.to_set().insert(x)) by {
        assert forall|y: Seq<char>| v.push(x).to_set().contains(y) == v.to_set().insert(
            x,
        ).contains(y) by {
            if v.contains(y) {
                let i = choose|i: int| 0 <= i < v.len() && v[i] == y;
                assert(v.push(x)[i] == y);
            }
            assert(v.push(x)[v.len() as int] == x);
            if v.push(x).contains(y) {
                let i = choose|i: int| 0 <= i < v.push(x).len() && v.push(x)[i] == y;
                if i < v.len() {
                    assert(v[i] == y);
                }
            }
        }
    }
}

// ── Templates that are in use ───────────────────────────────────────────────

/// Whether a sandbox lives on a template.
pub open spec fn in_use(sandboxes: Map<Seq<char>, KuasarSandbox>, template_id: Seq<char>) -> bool {
    exists|k: Seq<char>| #[trigger]
        sandboxes.contains_key(k) && lives_on(sandboxes[k], template_id)
}

/// Whether a sandbox lives on a template.
pub open spec fn lives_on(s: KuasarSandbox, template_id: Seq<char>) -> bool {
    s.template_id matches Some(id) && id@ == template_id
}

/// The templates that sandboxes live on, each once. What was used up of them is not
/// collected.
pub fn templates_in_use(sandboxes: &TextMap<KuasarSandbox>) -> (r: Vec<String>)
    ensures
        texts(r@).no_duplicates(),
        forall|id: Seq<char>| #[trigger] texts(r@).contains(id) <==> in_use(sandboxes@, id),
{
    let entries = sandboxes.entries();
    let mut out: Vec<String> = Vec::new();
    let mut i: usize = 0;
    while i < entries.len()
        invariant
            i <= entries@.len(),
            texts(out@).no_duplicates(),
            forall|id: Seq<char>| #[trigger]
                texts(out@).contains(id) <==> exists|k: int|
                    0 <= k < i && lives_on((#[trigger] entries@[k]).1, id),
        decreases entries.len() - i,
    {
        let ghost before = out@;
        if let Some(tid) = &entries[i].1.template_id {
            if !contains_text(&out, tid.as_str()) {
                out.push(tid.clone());
                proof {
                    assert(texts(out@) =~= texts(before).push(tid@));
                    lemma_push_new(texts(before), tid@);
                }
            }
        }
        proof {
            assert forall|id: Seq<char>| #[trigger] texts(out@).contains(id) <==> exists|k: int|
                0 <= k < i + 1 && lives_on((#[trigger] entries@[k]).1, id) by {
                lemma_push_to_set(texts(before), id);
                if texts(before).contains(id) {
                    let k = choose|k: int|
                        0 <= k < i && lives_on((#[trigger] entries@[k]).1, id);
                    assert(0 <= k < i + 1 && lives_on(entries@[k].1, id));
                }
                if lives_on(entries@[i as int].1, id) {
                    if !texts(before).contains(id) {
                        assert(texts(out@)[before.len() as int] == id);
                    }
                }
            }
        }
        i = i + 1;
    }
    proof {
        assert forall|id: Seq<char>| #[trigger] texts(out@).contains(id) <==> in_use(
            sandboxes@,
            id,
        ) by {
            if texts(out@).contains(id) {
                let k = choose|k: int|
                    0 <= k < i && lives_on((#[trigger] entries@[k]).1, id);
                lemma_entries_map(entries@, entries@[k].0@);
                assert(sandboxes@.contains_key(entries@[k].0@));
            }
            if in_use(sandboxes@, id) {
                let key = choose|key: Seq<char>| #[trigger]
                    sandboxes@.contains_key(key) && lives_on(sandboxes@[key], id);
                lemma_entries_map(entries@, key);
                let k = choose|k: int| 0 <= k < entries@.len() && (#[trigger] entries@[k]).0@ == key;
                assert(lives_on(entries@[k].1, id));
            }
        }
    }
    out
}

proof fn lemma_push_new(v: Seq<Seq<char>>, x: Seq<char>)
    requires
        v.no_duplicates(),
        !v.contains(x),
    ensures
        v.push(x).no_duplicates(),
        forall|y: Seq<char>| #[trigger] v.push(x).contains(y) <==> v.contains(y) || y == x,
{
    let w = v.push(x);
    assert forall|a: int, b: int| 0 <= a < w.len() && 0 <= b < w.len() && a != b implies w[a]
        != w[b] by {
        if a < v.len() && b < v.len() {
            assert(v[a] != v[b]);
        } else if a < v.len() {
            assert(v.contains(v[a]));
        } else {
            assert(v.contains(v[b]));
        }
    }
    assert forall|y: Seq<char>| #[trigger] w.contains(y) <==> v.contains(y) || y == x by {
        lemma_push_to_set(v, x);
        assert(w.to_set().contains(y) == w.contains(y));
        assert(v.to_set().contains(y) == v.contains(y));
    }
}

/// Every template for which a sandbox holds a reference is in use.
pub proof fn lemma_held_templates_are_in_use(
    sandboxes: Map<Seq<char>, KuasarSandbox>,
    key: Seq<char>,
)
    requires
        sandboxes.contains_key(key),
        holds_pin(sandboxes[key]) || holds_shared_lease(sandboxes[key]),
    ensures
        in_use(sandboxes, sandboxes[key].template_id->0@),
{
    assert(lives_on(sandboxes[key], sandboxes[key].template_id->0@));
}

/// A reference that is taken when a sandbox is restored is given back when the
/// sandbox is deleted or destroyed, and counted again after a restart of the host
/// process; and none is given back that was not taken.
pub proof fn lemma_pin_is_balanced(s: KuasarSandbox, has_store: bool)
    requires
        s.template_snapshot_type == Some(SnapshotType::Environment),
    ensures
        holds_pin(s) <==> release_of(s, true, has_store) is Deref,
        holds_pin(s) <==> templates_held(seq![s], |x: KuasarSandbox| holds_pin(x)).len() == 1,
        !holds_pin(s) <==> release_of(s, true, has_store) is Nothing,
        holds_pin(s) <==> destroy_release(s, true) is Deref,
{
    let one = seq![s];
    let f = |x: KuasarSandbox| holds_pin(x);
    assert(one.drop_last() =~= Seq::<KuasarSandbox>::empty());
    assert(templates_held(one.drop_last(), f).len() == 0);
    assert(one.last() == s);
    reveal_with_fuel(templates_held, 2);
}

/// What a deleted sandbox gives back is what it came from: a guest that reads its memory
/// from the files of a booted template gives its reference back, and one that copied its
/// memory has none; a shared warm fork gives its reference back, and what was used up is
/// cleared away; a continuation is deleted from its store. Without a template, or without
/// a pool, nothing is.
pub proof fn lemma_deleted_sandbox_gives_back(s: KuasarSandbox, has_pool: bool, has_store: bool)
    ensures
        ({
            let r = release_of(s, has_pool, has_store);
            let of_pool = s.template_id is Some && has_pool;
            let t = s.template_snapshot_type;
            let mapped = s.memory_restore_mode is Some && s.memory_restore_mode
                != Some(MemoryRestoreMode::Copy);
            let shared = s.lease_mode == Some(TemplateLeaseMode::Shared);
            &&& r is Deref <==> of_pool && ((t == Some(SnapshotType::Environment) && mapped) || (t
                == Some(SnapshotType::WarmFork) && shared))
            &&& r is CleanupConsumed <==> of_pool && (t is None || (t == Some(
                SnapshotType::WarmFork,
            ) && !shared))
            &&& r is DeleteContinuation <==> of_pool && has_store && t == Some(
                SnapshotType::Continuation,
            )
            &&& destroy_release(s, has_pool) is Deref <==> r is Deref
            &&& destroy_release(s, has_pool) is Deref || destroy_release(s, has_pool) is Nothing
        }),
{
}

/// Each sandbox that holds a reference is counted once, for its own template, in its place
/// among the others; no other is counted.
pub proof fn lemma_every_reference_is_counted(
    sandboxes: Seq<KuasarSandbox>,
    holds: spec_fn(KuasarSandbox) -> bool,
    i: int,
)
    requires
        0 <= i < sandboxes.len(),
    ensures
        templates_held(sandboxes, holds) == templates_held(sandboxes.take(i), holds) + (if holds(
            sandboxes[i],
        ) && sandboxes[i].template_id is Some {
            seq![sandboxes[i].template_id->0@]
        } else {
            Seq::empty()
        }) + templates_held(sandboxes.skip(i + 1), holds),
        templates_held(Seq::empty(), holds).len() == 0,
    decreases sandboxes.len(),
{
    let init = sandboxes.drop_last();
    let own = if holds(sandboxes[i]) && sandboxes[i].template_id is Some {
        seq![sandboxes[i].template_id->0@]
    } else {
        Seq::empty()
    };
    if i == sandboxes.len() - 1 {
        assert(sandboxes.take(i) =~= init);
        assert(sandboxes.skip(i + 1) =~= Seq::<KuasarSandbox>::empty());
    } else {
        lemma_every_reference_is_counted(init, holds, i);
        assert(init.take(i) =~= sandboxes.take(i));
        assert(sandboxes.skip(i + 1).drop_last() =~= init.skip(i + 1));
        assert(sandboxes.skip(i + 1).last() == sandboxes.last());
    }
    assert(templates_held(sandboxes, holds) =~= templates_held(sandboxes.take(i), holds) + own
        + templates_held(sandboxes.skip(i + 1), holds));
}

/// After a restart the references are those that the sandboxes took: for any of them, a
/// reference of its own is counted exactly where the sandbox gives one back when it is
/// deleted and is no warm fork, and the reference of a lease exactly where it is one.
pub proof fn lemma_references_outlive_a_restart(refs: ActiveRefs, s: KuasarSandbox)
    requires
        refs_of(refs, seq![s]),
    ensures
        refs.pinned@.len() + refs.shared@.len() == (if release_of(s, true, true) is Deref {
            1int
        } else {
            0
        }),
        refs.shared@.len() == 1 <==> release_of(s, true, true) is Deref && s.template_snapshot_type
            == Some(SnapshotType::WarmFork),
        texts(refs.active@).contains(s.template_id->0@) <==> s.template_id is Some,
        refs.pinned@.len() == 1 ==> refs.pinned@[0]@ == s.template_id->0@,
        refs.shared@.len() == 1 ==> refs.shared@[0]@ == s.template_id->0@,
{
    let one = seq![s];
    let leased = |x: KuasarSandbox| holds_shared_lease(x);
    let pinned = |x: KuasarSandbox| holds_pin(x);
    let any = |x: KuasarSandbox| true;
    assert(one.take(0) =~= Seq::<KuasarSandbox>::empty());
    assert(one.skip(1) =~= Seq::<KuasarSandbox>::empty());
    lemma_every_reference_is_counted(one, leased, 0);
    lemma_every_reference_is_counted(one, pinned, 0);
    lemma_every_reference_is_counted(one, any, 0);
    let id = s.template_id->0@;
    assert(texts(refs.shared@).len() == refs.shared@.len());
    assert(texts(refs.pinned@).len() == refs.pinned@.len());
    assert(texts(refs.active@).contains(id) == templates_held(one, any).contains(id)) by {
        assert(texts(refs.active@).to_set().contains(id) == templates_held(
            one,
            any,
        ).to_set().contains(id));
    }
    if s.template_id is Some {
        assert(templates_held(one, any)[0] == id);
    }
    if refs.pinned@.len() == 1 {
        assert(texts(refs.pinned@)[0] == id);
    }
    if refs.shared@.len() == 1 {
        assert(texts(refs.shared@)[0] == id);
    }
}

/// The reference of a shared warm fork is given back when the sandbox is deleted or
/// destroyed, and counted again after a restart. The files of an exclusive one are
/// removed when the sandbox is deleted.
pub proof fn lemma_shared_lease_is_balanced(s: KuasarSandbox, has_store: bool)
    requires
        s.template_id is Some,
        s.template_snapshot_type == Some(SnapshotType::WarmFork),
    ensures
        holds_shared_lease(s) <==> release_of(s, true, has_store) is Deref,
        !holds_shared_lease(s) <==> release_of(s, true, has_store) is CleanupConsumed,
        holds_shared_lease(s) <==> destroy_release(s, true) is Deref,
        holds_shared_lease(s) <==> templates_held(
            seq![s],
            |x: KuasarSandbox| holds_shared_lease(x),
        ).len() == 1,
        !holds_pin(s),
{
    let one = seq![s];
    let f = |x: KuasarSandbox| holds_shared_lease(x);
    assert(one.drop_last() =~= Seq::<KuasarSandbox>::empty());
    assert(templates_held(one.drop_last(), f).len() == 0);
    assert(one.last() == s);
    reveal_with_fuel(templates_held, 2);
}

/// A sandbox that has forgotten its template gives nothing back.
pub proof fn lemma_forgotten_template_is_not_released(
    s: KuasarSandbox,
    has_pool: bool,
    has_store: bool,
)
    requires
        forgot_template(s),
    ensures
        release_of(s, has_pool, has_store) is Nothing,
        !holds_pin(s),
        !holds_shared_lease(s),
{
}

} // verus!
