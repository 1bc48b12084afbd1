//! What is counted about snapshots.

use crate::text_map::TextMap;
use vstd::arithmetic::power2::{lemma2_to64, lemma_pow2_unfold, pow2};
use vstd::prelude::*;

verus! {

/// A number that grows by one, as far as a number can.
pub open spec fn one_more(n: u64) -> u64 {
    if n == u64::MAX {
        n
    } else {
        (n + 1) as u64
    }
}

/// The upper end of a bucket of restore times in nanoseconds: a tenth of a second,
/// and then twice that of the bucket before.
pub open spec fn bucket_end(i: nat) -> nat
    decreases i,
{
    if i == 0 {
        100_000_000
    } else {
        2 * bucket_end((i - 1) as nat)
    }
}

/// Each bucket ends at twice the end of the one before, and the first at a tenth of a
/// second.
pub proof fn lemma_buckets_double(i: nat)
    ensures
        bucket_end(i) == 100_000_000 * pow2(i),
    decreases i,
{
    if i > 0 {
        lemma_buckets_double((i - 1) as nat);
        lemma_pow2_unfold(i);
    } else {
        lemma2_to64();
    }
}

/// A count goes up by one, and stays where it can go no further.
pub proof fn lemma_one_more(n: u64)
    ensures
        n < u64::MAX ==> one_more(n) == n + 1,
        one_more(u64::MAX) == u64::MAX,
{
}

/// What is known of the warm guests of a key.
#[derive(Clone, Copy, Debug, PartialEq, Eq, Structural)]
pub struct PoolCounts {
    /// How many are ready.
    pub size: u64,
    pub hits: u64,
    pub misses: u64,
}

/// What was counted so far.
pub struct SnapshotMetrics {
    pub created: u64,
    pub restored_ok: u64,
    pub restored_err: u64,
    /// For each bucket, how many restores took at most as long as its upper end.
    pub restore_buckets: [u64; 10],
    pub restore_count: u64,
    pub restore_sum_ns: u64,
    pub store_memory_bytes: u64,
    pub store_state_bytes: u64,
    pub pools: TextMap<PoolCounts>,
}

/// What is known of the warm guests of a key; nothing was counted of one that never
/// occurred.
pub open spec fn pool_counts(m: SnapshotMetrics, key: Seq<char>) -> PoolCounts {
    if m.pools@.contains_key(key) {
        m.pools@[key]
    } else {
        PoolCounts { size: 0, hits: 0, misses: 0 }
    }
}

impl SnapshotMetrics {
    /// Nothing was counted yet.
    pub fn new() -> (r: Self)
        ensures
            r.created == 0,
            r.restored_ok == 0,
            r.restored_err == 0,
            forall|i: int| 0 <= i < 10 ==> #[trigger] r.restore_buckets@[i] == 0,
            r.restore_count == 0,
            r.restore_sum_ns == 0,
            r.store_memory_bytes == 0,
            r.store_state_bytes == 0,
            r.pools@ == Map::<Seq<char>, PoolCounts>::empty(),
    {
        SnapshotMetrics {
            created: 0,
            restored_ok: 0,
            restored_err: 0,
            restore_buckets: [0, 0, 0, 0, 0, 0, 0, 0, 0, 0],
            restore_count: 0,
            restore_sum_ns: 0,
            store_memory_bytes: 0,
            store_state_bytes: 0,
            pools: TextMap::new(),
        }
    }

    fn counts(&self, key: &str) -> (r: PoolCounts)
        ensures
            r == pool_counts(*self, key@),
    {
        match self.pools.get(key) {
            Some(c) => *c,
            None => PoolCounts { size: 0, hits: 0, misses: 0 },
        }
    }
}

fn count(n: u64) -> (r: u64)
    ensures
        r == one_more(n),
{
    if n == u64::MAX {
        n
    } else {
        n + 1
    }
}

/// Counts a snapshot that was taken.
pub fn record_snapshot_created(m: &mut SnapshotMetrics)
    ensures
        *final(m) == (SnapshotMetrics { created: one_more(old(m).created), ..*old(m) }),
{
    m.created = count(m.created);
}

/// Counts an attempt to restore.
pub fn record_restore(m: &mut SnapshotMetrics, success: bool)
    ensures
        *final(m) == (if success {
            SnapshotMetrics { restored_ok: one_more(old(m).restored_ok), ..*old(m) }
        } else {
            SnapshotMetrics { restored_err: one_more(old(m).restored_err), ..*old(m) }
        }),
{
    if success {
        m.restored_ok = count(m.restored_ok);
    } else {
        m.restored_err = count(m.restored_err);
    }
}

/// The beginning of a restore, in nanoseconds of a clock that does not run
/// backwards.
pub struct RestoreTimer(pub u64);

/// The time between two readings of a clock.
pub open spec fn elapsed(from: u64, to: u64) -> u64 {
    if to >= from {
        (to - from) as u64
    } else {
        0
    }
}

/// A sum, as far as a number can hold it.
pub open spec fn capped_sum(a: u64, b: u64) -> u64 {
    if a + b > u64::MAX {
        u64::MAX
    } else {
        (a + b) as u64
    }
}

/// A time that has run is what has passed since, and a clock that went back counts as no
/// time; times add up as far as a number can hold them.
pub proof fn lemma_times_add_up(from: u64, to: u64, sum: u64)
    ensures
        to >= from ==> from + elapsed(from, to) == to,
        to < from ==> elapsed(from, to) == 0,
        sum + elapsed(from, to) <= u64::MAX ==> capped_sum(sum, elapsed(from, to)) == sum
            + elapsed(from, to),
        sum + elapsed(from, to) > u64::MAX ==> capped_sum(sum, elapsed(from, to)) == u64::MAX,
{
}

/// A restore counts once in all, and in exactly those buckets that do not end before it.
pub proof fn lemma_restore_is_counted(
    after: SnapshotMetrics,
    before: SnapshotMetrics,
    took: u64,
    i: int,
)
    requires
        observed(after, before, took),
        0 <= i < 10,
        before.restore_buckets@[i] < u64::MAX,
        before.restore_count < u64::MAX,
    ensures
        after.restore_buckets@[i] == before.restore_buckets@[i] + 1 <==> took <= 100_000_000
            * pow2(i as nat),
        after.restore_buckets@[i] == before.restore_buckets@[i] <==> took > 100_000_000
            * pow2(i as nat),
        after.restore_count == before.restore_count + 1,
{
    lemma_buckets_double(i as nat);
}

/// Whether a restore was counted that took so many nanoseconds: in every bucket
/// that does not end before it.
pub open spec fn observed(after: SnapshotMetrics, before: SnapshotMetrics, took: u64) -> bool {
    &&& forall|i: int|
        0 <= i < 10 ==> #[trigger] after.restore_buckets@[i] == (if took <= bucket_end(i as nat) {
            one_more(before.restore_buckets@[i])
        } else {
            before.restore_buckets@[i]
        })
    &&& after.restore_count == one_more(before.restore_count)
    &&& after.restore_sum_ns == capped_sum(before.restore_sum_ns, took)
}

impl RestoreTimer {
    /// A restore begins.
    pub fn start(now_ns: u64) -> (r: Self)
        ensures
            r.0 == now_ns,
    {
        RestoreTimer(now_ns)
    }

    /// The restore ended: it counts in every bucket that does not end before it.
    pub fn observe(self, m: &mut SnapshotMetrics, now_ns: u64)
        ensures
            observed(*final(m), *old(m), elapsed(self.0, now_ns)),
            *final(m) == (SnapshotMetrics {
                restore_buckets: final(m).restore_buckets,
                restore_count: final(m).restore_count,
                restore_sum_ns: final(m).restore_sum_ns,
                ..*old(m)
            }),
    {
        let took: u64 = if now_ns >= self.0 {
            now_ns - self.0
        } else {
            0
        };
        let mut end: u64 = 100_000_000;
        let mut i: usize = 0;
        proof {
            lemma_bucket_ends();
        }
        while i < 10
            invariant
                i <= 10,
                i < 10 ==> end == bucket_end(i as nat),
                forall|k: nat| k < 10 ==> bucket_end(k) <= 51_200_000_000,
                took == elapsed(self.0, now_ns),
                forall|k: int|
                    0 <= k < i ==> #[trigger] m.restore_buckets@[k] == (if took <= bucket_end(
                        k as nat,
                    ) {
                        one_more(old(m).restore_buckets@[k])
                    } else {
                        old(m).restore_buckets@[k]
                    }),
                forall|k: int|
                    i <= k < 10 ==> #[trigger] m.restore_buckets@[k]
                        == old(m).restore_buckets@[k],
                *m == (SnapshotMetrics { restore_buckets: m.restore_buckets, ..*old(m) }),
            decreases 10 - i,
        {
            if took <= end {
                let n: u64 = count(m.restore_buckets[i]);
                m.restore_buckets[i] = n;
            }
            assert(end <= 51_200_000_000) by {
                assert(bucket_end(i as nat) <= 51_200_000_000);
            }
            end = end * 2;
            i = i + 1;
        }
        m.restore_count = count(m.restore_count);
        m.restore_sum_ns = m.restore_sum_ns.saturating_add(took);
    }
}

proof fn lemma_bucket_ends()
    ensures
        bucket_end(9) == 51_200_000_000,
        forall|k: nat| k < 10 ==> bucket_end(k) <= 51_200_000_000,
{
    reveal_with_fuel(bucket_end, 11);
}

/// A restore that counts in a bucket counts in every later one.
pub proof fn lemma_buckets_are_cumulative(took: u64, i: nat, k: nat)
    requires
        i <= k,
        took <= bucket_end(i),
    ensures
        took <= bucket_end(k),
    decreases k,
{
    if i < k {
        lemma_buckets_are_cumulative(took, i, (k - 1) as nat);
    }
}

/// Notes the sizes of the files of the last snapshot that was taken.
pub fn record_store_sizes(m: &mut SnapshotMetrics, memory_bytes: u64, state_bytes: u64)
    ensures
        *final(m) == (SnapshotMetrics {
            store_memory_bytes: memory_bytes,
            store_state_bytes: state_bytes,
            ..*old(m)
        }),
{
    m.store_memory_bytes = memory_bytes;
    m.store_state_bytes = state_bytes;
}

/// Whether of all that was counted only what belongs to one key changed.
pub open spec fn only_pool_changed(
    after: SnapshotMetrics,
    before: SnapshotMetrics,
    key: Seq<char>,
    counts: PoolCounts,
) -> bool {
    &&& after.pools@ == before.pools@.insert(key, counts)
    &&& after == (SnapshotMetrics { pools: after.pools, ..before })
}

/// Notes how many warm guests of a key are ready.
pub fn set_warm_pool_size(m: &mut SnapshotMetrics, key: &str, count: u64)
    ensures
        only_pool_changed(
            *final(m),
            *old(m),
            key@,
            PoolCounts { size: count, ..pool_counts(*old(m), key@) },
        ),
{
    let mut counts = m.counts(key);
    counts.size = count;
    m.pools.insert(key.to_owned(), counts);
}

/// Counts a warm guest that was there when it was needed.
pub fn record_warm_pool_hit(m: &mut SnapshotMetrics, key: &str)
    ensures
        only_pool_changed(
            *final(m),
            *old(m),
            key@,
            PoolCounts {
                hits: one_more(pool_counts(*old(m), key@).hits),
                ..pool_counts(*old(m), key@)
            },
        ),
{
    let mut counts = m.counts(key);
    counts.hits = count(counts.hits);
    m.pools.insert(key.to_owned(), counts);
}

/// Counts a warm guest that was not there when it was needed.
pub fn record_warm_pool_miss(m: &mut SnapshotMetrics, key: &str)
    ensures
        only_pool_changed(
            *final(m),
            *old(m),
            key@,
            PoolCounts {
                misses: one_more(pool_counts(*old(m), key@).misses),
                ..pool_counts(*old(m), key@)
            },
        ),
{
    let mut counts = m.counts(key);
    counts.misses = count(counts.misses);
    m.pools.insert(key.to_owned(), counts);
}

} // verus!
