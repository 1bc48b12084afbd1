//! Guests that were restored in advance and wait for a sandbox.
//!
//! For each key the pool keeps a number of them ready. One that is taken is
//! replaced at once, but only so many are restored at a time.

use crate::snapshot::metrics::{
    one_more, only_pool_changed, pool_counts, record_warm_pool_hit, record_warm_pool_miss,
    set_warm_pool_size, PoolCounts, SnapshotMetrics,
};
use crate::snapshot::store::{is_hex, SnapshotKey};
use crate::text::{concat, concat3};
use crate::text_map::{distinct_entries, entries_map, lemma_entries_map, TextMap};
use std::collections::VecDeque;
use vstd::prelude::*;

verus! {

/// Where the directories of waiting guests are.
pub const WARM_POOL_DEFAULT_WORK_DIR: &'static str = "/var/run/kuasar/warmpool";

/// How many guests of a key are restored at a time.
pub const MAX_CONCURRENT_RESTORES: usize = 2;

/// A guest that waits for a sandbox.
pub struct WarmSlot<V> {
    /// The id under which it was restored.
    pub temp_id: String,
    /// The directory of its sockets.
    pub base_dir: String,
    /// The guest.
    pub vm: V,
}

/// The waiting guests of a key, and how many are being restored.
pub struct KeyState<V> {
    pub slots: VecDeque<WarmSlot<V>>,
    pub in_flight: usize,
}

impl<V> KeyState<V> {
    /// No guest waits and none is being restored.
    pub fn new() -> (r: Self)
        ensures
            r.slots@.len() == 0,
            r.in_flight == 0,
    {
        KeyState { slots: VecDeque::new(), in_flight: 0 }
    }

    /// How many guests wait.
    pub fn ready_count(&self) -> (r: usize)
        ensures
            r == self.slots@.len(),
    {
        self.slots.len()
    }
}

/// How many restores are begun where `ready` guests wait and `in_flight` are being
/// restored: as many as are missing, but not more than may run at a time.
pub open spec fn restores_due(desired: nat, ready: nat, in_flight: nat) -> nat {
    let missing = if desired > ready + in_flight {
        (desired - (ready + in_flight)) as nat
    } else {
        0
    };
    let room = if MAX_CONCURRENT_RESTORES > in_flight {
        (MAX_CONCURRENT_RESTORES - in_flight) as nat
    } else {
        0
    };
    if missing <= room {
        missing
    } else {
        room
    }
}

/// How many restores are begun.
pub fn to_start(desired: usize, ready: usize, in_flight: usize) -> (r: usize)
    ensures
        r == restores_due(desired as nat, ready as nat, in_flight as nat),
        in_flight + r <= MAX_CONCURRENT_RESTORES || r == 0,
{
    let covered: usize = ready.saturating_add(in_flight);
    let missing: usize = if desired > covered {
        desired - covered
    } else {
        0
    };
    let room: usize = if MAX_CONCURRENT_RESTORES > in_flight {
        MAX_CONCURRENT_RESTORES - in_flight
    } else {
        0
    };
    if missing <= room {
        missing
    } else {
        room
    }
}

/// What a pool holds for a key: the waiting guests in the order in which they came,
/// and how many are being restored.
pub type Held<V> = (Seq<WarmSlot<V>>, nat);

/// What a pool holds for a key. Of one that never occurred it holds nothing.
pub open spec fn held<V>(state: Map<Seq<char>, KeyState<V>>, key: Seq<char>) -> Held<V> {
    if state.contains_key(key) {
        (state[key].slots@, state[key].in_flight as nat)
    } else {
        (Seq::empty(), 0)
    }
}

/// Whether a pool holds for a key what is said, and for all others what it held.
pub open spec fn only_key_changed<V>(
    after: Map<Seq<char>, KeyState<V>>,
    before: Map<Seq<char>, KeyState<V>>,
    key: Seq<char>,
    now: Held<V>,
) -> bool {
    &&& after.contains_key(key)
    &&& held(after, key) == now
    &&& after == before.insert(key, after[key])
}

/// Guests that wait for a sandbox.
pub struct WarmPool<V> {
    pub state: TextMap<KeyState<V>>,
    /// How many guests of a key should wait.
    pub desired_per_key: usize,
    /// Where the directories of waiting guests are.
    pub work_dir: String,
}

/// Whether two states of a pool are of the same pool.
pub open spec fn same_pool<V>(a: WarmPool<V>, b: WarmPool<V>) -> bool {
    &&& a.desired_per_key == b.desired_per_key
    &&& a.work_dir == b.work_dir
}

impl<V> WarmPool<V> {
    /// A pool in which no guest waits.
    pub fn new(desired_per_key: usize, work_dir: &str) -> (r: Self)
        ensures
            r.state@ == Map::<Seq<char>, KeyState<V>>::empty(),
            r.desired_per_key == desired_per_key,
            r.work_dir@ == work_dir@,
    {
        WarmPool { state: TextMap::new(), desired_per_key, work_dir: work_dir.to_owned() }
    }

    fn take_state(&mut self, key: &str) -> (r: KeyState<V>)
        ensures
            (r.slots@, r.in_flight as nat) == held(old(self).state@, key@),
            final(self).state@ == old(self).state@.remove(key@),
            same_pool(*final(self), *old(self)),
    {
        match self.state.remove(key) {
            Some(s) => s,
            None => {
                let s = KeyState::new();
                assert(s.slots@ =~= Seq::<WarmSlot<V>>::empty());
                s
            },
        }
    }

    /// Sees to it that guests of a key wait. The result is the number of restores
    /// that must be begun. Called again at once, it begins nothing more.
    pub fn prime(&mut self, key: &SnapshotKey) -> (r: usize)
        ensures
            ({
                let (slots, in_flight) = held(old(self).state@, key.0@);
                &&& r == restores_due(old(self).desired_per_key as nat, slots.len(), in_flight)
                &&& only_key_changed(
                    final(self).state@,
                    old(self).state@,
                    key.0@,
                    (slots, in_flight + r as nat),
                )
            }),
            same_pool(*final(self), *old(self)),
    {
        let mut s = self.take_state(key.as_str());
        let r: usize = to_start(self.desired_per_key, s.ready_count(), s.in_flight);
        s.in_flight = s.in_flight + r;
        self.state.insert(key.to_string(), s);
        assert(self.state@ =~= old(self).state@.insert(key.0@, s));
        r
    }

    /// Takes the guest that has waited longest. The second result is the number of
    /// restores that must be begun, whether or not there was a guest. What was
    /// counted follows.
    pub fn acquire(&mut self, key: &SnapshotKey, metrics: &mut SnapshotMetrics) -> (r: (
        Option<WarmSlot<V>>,
        usize,
    ))
        ensures
            ({
                let (slots, in_flight) = held(old(self).state@, key.0@);
                let rest = if slots.len() > 0 {
                    slots.drop_first()
                } else {
                    slots
                };
                let counts = pool_counts(*old(metrics), key.0@);
                &&& r.0 is Some <==> slots.len() > 0
                &&& r.0 matches Some(slot) ==> slot == slots[0]
                &&& r.1 == restores_due(old(self).desired_per_key as nat, rest.len(), in_flight)
                &&& only_key_changed(
                    final(self).state@,
                    old(self).state@,
                    key.0@,
                    (rest, in_flight + r.1 as nat),
                )
                &&& only_pool_changed(
                    *final(metrics),
                    *old(metrics),
                    key.0@,
                    if slots.len() > 0 {
                        PoolCounts {
                            size: rest.len() as u64,
                            hits: one_more(counts.hits),
                            misses: counts.misses,
                        }
                    } else {
                        PoolCounts { misses: one_more(counts.misses), ..counts }
                    },
                )
            }),
            same_pool(*final(self), *old(self)),
    {
        let mut s = self.take_state(key.as_str());
        let ghost slots = s.slots@;
        let slot = s.slots.pop_front();
        if slot.is_some() {
            assert(s.slots@ =~= slots.drop_first());
            record_warm_pool_hit(metrics, key.as_str());
            set_warm_pool_size(metrics, key.as_str(), s.ready_count() as u64);
            assert(metrics.pools@ =~= old(metrics).pools@.insert(
                key.0@,
                pool_counts(*metrics, key.0@),
            ));
        } else {
            assert(s.slots@ =~= slots);
            record_warm_pool_miss(metrics, key.as_str());
        }
        let r: usize = to_start(self.desired_per_key, s.ready_count(), s.in_flight);
        s.in_flight = s.in_flight + r;
        self.state.insert(key.to_string(), s);
        assert(self.state@ =~= old(self).state@.insert(key.0@, s));
        (slot, r)
    }

    /// A guest that was taken was not needed, and has been stopped: it is replaced.
    /// The result is the number of restores that must be begun.
    pub fn release(&mut self, key: &SnapshotKey) -> (r: usize)
        ensures
            ({
                let (slots, in_flight) = held(old(self).state@, key.0@);
                &&& r == restores_due(old(self).desired_per_key as nat, slots.len(), in_flight)
                &&& only_key_changed(
                    final(self).state@,
                    old(self).state@,
                    key.0@,
                    (slots, in_flight + r as nat),
                )
            }),
            same_pool(*final(self), *old(self)),
    {
        self.prime(key)
    }

    /// Forgets a key. Its waiting guests are handed out, to be stopped.
    pub fn drain_key(&mut self, key: &SnapshotKey) -> (r: VecDeque<WarmSlot<V>>)
        ensures
            r@ == held(old(self).state@, key.0@).0,
            final(self).state@ == old(self).state@.remove(key.0@),
            same_pool(*final(self), *old(self)),
    {
        let s = self.take_state(key.as_str());
        s.slots
    }

    /// A guest was restored and waits now. The result is the number of restores that
    /// must be begun.
    pub fn restored(
        &mut self,
        key: &SnapshotKey,
        slot: WarmSlot<V>,
        metrics: &mut SnapshotMetrics,
    ) -> (r: usize)
        ensures
            ({
                let (slots, in_flight) = held(old(self).state@, key.0@);
                let left = less_one(in_flight);
                &&& r == restores_due(
                    old(self).desired_per_key as nat,
                    slots.len() + 1,
                    left,
                )
                &&& only_key_changed(
                    final(self).state@,
                    old(self).state@,
                    key.0@,
                    (slots.push(slot), left + r as nat),
                )
                &&& only_pool_changed(
                    *final(metrics),
                    *old(metrics),
                    key.0@,
                    PoolCounts {
                        size: (slots.len() + 1) as u64,
                        ..pool_counts(*old(metrics), key.0@)
                    },
                )
            }),
            same_pool(*final(self), *old(self)),
    {
        let mut s = self.take_state(key.as_str());
        let ghost slots = s.slots@;
        if s.in_flight > 0 {
            s.in_flight = s.in_flight - 1;
        }
        s.slots.push_back(slot);
        assert(s.slots@ == slots.push(slot));
        let size: usize = s.ready_count();
        set_warm_pool_size(metrics, key.as_str(), size as u64);
        let r: usize = to_start(self.desired_per_key, size, s.in_flight);
        s.in_flight = s.in_flight + r;
        self.state.insert(key.to_string(), s);
        assert(self.state@ =~= old(self).state@.insert(key.0@, s));
        r
    }

    /// A guest could not be restored. Nothing is begun in its place: the pool is
    /// filled again when it is next looked after.
    pub fn restore_failed(&mut self, key: &SnapshotKey)
        ensures
            ({
                let (slots, in_flight) = held(old(self).state@, key.0@);
                only_key_changed(
                    final(self).state@,
                    old(self).state@,
                    key.0@,
                    (slots, less_one(in_flight)),
                )
            }),
            same_pool(*final(self), *old(self)),
    {
        let mut s = self.take_state(key.as_str());
        if s.in_flight > 0 {
            s.in_flight = s.in_flight - 1;
        }
        self.state.insert(key.to_string(), s);
        assert(self.state@ =~= old(self).state@.insert(key.0@, s));
    }

    /// How many guests wait, for each key once.
    pub fn ready_counts(&self) -> (r: Vec<(String, usize)>)
        ensures
            distinct_entries(r@),
            forall|key: Seq<char>| #[trigger]
                entries_map(r@).contains_key(key) <==> self.state@.contains_key(key),
            forall|key: Seq<char>| #[trigger]
                entries_map(r@).contains_key(key) ==> entries_map(r@)[key] == held(
                    self.state@,
                    key,
                ).0.len(),
    {
        let entries = self.state.entries();
        let mut out: Vec<(String, usize)> = Vec::new();
        let mut i: usize = 0;
        while i < entries.len()
            invariant
                i <= entries@.len(),
                out@.len() == i,
                forall|k: int|
                    0 <= k < i ==> (#[trigger] out@[k]).0@ == entries@[k].0@ && out@[k].1
                        == entries@[k].1.slots@.len(),
            decreases entries.len() - i,
        {
            out.push((entries[i].0.clone(), entries[i].1.ready_count()));
            i = i + 1;
        }
        proof {
            assert(distinct_entries(out@)) by {
                assert forall|a: int, b: int| 0 <= a < b < out@.len() implies (
                #[trigger] out@[a]).0@ != (#[trigger] out@[b]).0@ by {
                    assert(entries@[a].0@ != entries@[b].0@);
                }
            }
            assert forall|key: Seq<char>| #[trigger]
                entries_map(out@).contains_key(key) <==> self.state@.contains_key(key) by {
                lemma_entries_map(out@, key);
                lemma_entries_map(entries@, key);
                if entries_map(out@).contains_key(key) {
                    let k = choose|k: int| 0 <= k < out@.len() && (#[trigger] out@[k]).0@ == key;
                    assert(entries@[k].0@ == key);
                }
                if self.state@.contains_key(key) {
                    let k = choose|k: int|
                        0 <= k < entries@.len() && (#[trigger] entries@[k]).0@ == key;
                    assert(out@[k].0@ == key);
                }
            }
            assert forall|key: Seq<char>| #[trigger]
                entries_map(out@).contains_key(key) implies entries_map(out@)[key] == held(
                self.state@,
                key,
            ).0.len() by {
                lemma_entries_map(out@, key);
                lemma_entries_map(entries@, key);
                let k = choose|k: int| 0 <= k < out@.len() && (#[trigger] out@[k]).0@ == key;
                assert(entries@[k].0@ == key);
            }
        }
        out
    }
}

/// One less, but not less than nothing.
pub open spec fn less_one(n: nat) -> nat {
    if n > 0 {
        (n - 1) as nat
    } else {
        0
    }
}

// ── New guests ──────────────────────────────────────────────────────────────

/// `uuid::Uuid::new_v4`, written by `Simple`: 32 lower-case hexadecimal digits.
/// They are drawn at random, so nothing more is known of them.
#[verifier::external_body]
fn fresh_uuid() -> (r: String)
    ensures
        r@.len() == 32,
        forall|i: int| 0 <= i < r@.len() ==> is_hex(#[trigger] r@[i]),
{
    uuid::Uuid::new_v4().simple().to_string()
}

/// The id and the directory of a new guest.
pub fn slot_paths(work_dir: &str, key: &SnapshotKey, unique: &str) -> (r: (String, String))
    ensures
        r.0@ == "warmpool-"@ + unique@,
        r.1@ == work_dir@ + "/"@ + key.0@ + "/"@ + r.0@,
{
    let temp_id = concat("warmpool-", unique);
    let dir = concat3(work_dir, "/", key.as_str());
    let base_dir = concat3(dir.as_str(), "/", temp_id.as_str());
    (temp_id, base_dir)
}

/// The id and the directory of a new guest. No other guest has them, as far as
/// chance allows.
pub fn new_slot_paths(work_dir: &str, key: &SnapshotKey) -> (r: (String, String))
    ensures
        r.0@.len() == "warmpool-"@.len() + 32,
        "warmpool-"@.is_prefix_of(r.0@),
        forall|i: int| "warmpool-"@.len() <= i < r.0@.len() ==> is_hex(#[trigger] r.0@[i]),
        r.1@ == work_dir@ + "/"@ + key.0@ + "/"@ + r.0@,
{
    let unique = fresh_uuid();
    let r = slot_paths(work_dir, key, unique.as_str());
    proof {
        let n = "warmpool-"@.len();
        assert forall|i: int| n <= i < r.0@.len() implies is_hex(#[trigger] r.0@[i]) by {
            assert(r.0@[i] == unique@[i - n]);
        }
    }
    r
}

// ── What the pool promises ──────────────────────────────────────────────────

/// Whether what a pool holds for a key is within its bounds: not more guests wait
/// or are being restored than should wait, and not more are being restored than may
/// be at a time.
pub open spec fn within_bounds(desired: nat, ready: nat, in_flight: nat) -> bool {
    ready + in_flight <= desired && in_flight <= MAX_CONCURRENT_RESTORES
}

/// Whatever is done to a pool, what it holds for a key stays within its bounds: when
/// it is looked after, when a guest is taken, and when one that was being restored
/// is ready or has failed.
pub proof fn lemma_pool_stays_within_bounds(desired: nat, ready: nat, in_flight: nat)
    requires
        within_bounds(desired, ready, in_flight),
    ensures
        within_bounds(desired, ready, in_flight + restores_due(desired, ready, in_flight)),
        ready > 0 ==> within_bounds(
            desired,
            (ready - 1) as nat,
            in_flight + restores_due(desired, (ready - 1) as nat, in_flight),
        ),
        in_flight > 0 ==> within_bounds(
            desired,
            ready + 1,
            less_one(in_flight) + restores_due(desired, ready + 1, less_one(in_flight)),
        ),
        in_flight > 0 ==> within_bounds(desired, ready, less_one(in_flight)),
        within_bounds(desired, 0, 0),
{
}

/// The pool fills up: as long as guests are missing, restores run, and where every
/// restore succeeds the pool ends with as many waiting guests as there should be.
pub proof fn lemma_pool_fills_up(desired: nat, ready: nat, in_flight: nat)
    requires
        within_bounds(desired, ready, in_flight),
    ensures
        ready + in_flight < desired ==> in_flight + restores_due(desired, ready, in_flight) > 0,
        in_flight + restores_due(desired, ready, in_flight) == 0 ==> ready == desired,
        filled(desired, ready, in_flight + restores_due(desired, ready, in_flight)) == desired,
{
    lemma_filled(desired, ready, in_flight + restores_due(desired, ready, in_flight));
}

/// The number of waiting guests once nothing is being restored any more, where every
/// restore succeeds.
pub open spec fn filled(desired: nat, ready: nat, in_flight: nat) -> nat
    decreases desired - ready,
{
    if in_flight == 0 || ready >= desired {
        ready
    } else {
        filled(
            desired,
            ready + 1,
            less_one(in_flight) + restores_due(desired, ready + 1, less_one(in_flight)),
        )
    }
}

proof fn lemma_filled(desired: nat, ready: nat, in_flight: nat)
    requires
        within_bounds(desired, ready, in_flight),
        in_flight == 0 ==> ready == desired,
    ensures
        filled(desired, ready, in_flight) == desired,
    decreases desired - ready,
{
    if in_flight > 0 {
        let left = less_one(in_flight);
        lemma_pool_stays_within_bounds(desired, ready, in_flight);
        lemma_filled(
            desired,
            ready + 1,
            left + restores_due(desired, ready + 1, left),
        );
    }
}

/// As many restores are begun as are missing, or as many as may run at a time, and never
/// more than either.
pub proof fn lemma_as_many_as_allowed(desired: nat, ready: nat, in_flight: nat)
    ensures
        ({
            let due = restores_due(desired, ready, in_flight);
            &&& due > 0 ==> in_flight + due <= 2 && ready + in_flight + due <= desired
            &&& ready + in_flight + due >= desired || in_flight + due >= 2
        }),
{
}

/// What a pool holds for a key is what was put there, and nothing of any other key.
pub proof fn lemma_keys_are_apart<V>(
    after: Map<Seq<char>, KeyState<V>>,
    before: Map<Seq<char>, KeyState<V>>,
    key: Seq<char>,
    now: Held<V>,
    other: Seq<char>,
)
    requires
        only_key_changed(after, before, key, now),
    ensures
        held(after, key) == now,
        other != key ==> held(after, other) == held(before, other),
        other != key ==> (after.contains_key(other) <==> before.contains_key(other)),
        !before.contains_key(other) ==> held(before, other).0.len() == 0 && held(before, other).1
            == 0,
{
}

/// Looking after a pool twice at once begins nothing the second time.
pub proof fn lemma_priming_twice(desired: nat, ready: nat, in_flight: nat)
    ensures
        restores_due(desired, ready, in_flight + restores_due(desired, ready, in_flight)) == 0,
{
}

/// Guests are taken in the order in which they were restored.
pub proof fn lemma_first_restored_first_taken<V>(slots: Seq<WarmSlot<V>>, slot: WarmSlot<V>)
    ensures
        slots.len() > 0 ==> slots.push(slot)[0] == slots[0] && slots.push(slot).drop_first()
            == slots.drop_first().push(slot),
        slots.len() == 0 ==> slots.push(slot)[0] == slot,
{
    if slots.len() > 0 {
        assert(slots.push(slot).drop_first() =~= slots.drop_first().push(slot));
    }
}

} // verus!
