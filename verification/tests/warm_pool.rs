use vmm_sandboxer::snapshot::metrics::SnapshotMetrics;
use vmm_sandboxer::snapshot::store::SnapshotKey;
use vmm_sandboxer::snapshot::warm_pool::{
    new_slot_paths, slot_paths, to_start, WarmPool, WarmSlot, MAX_CONCURRENT_RESTORES,
    WARM_POOL_DEFAULT_WORK_DIR,
};

/// Carries out as many restores as a pool asks for, and those that follow.
fn run(pool: &mut WarmPool<u32>, key: &SnapshotKey, begin: usize, m: &mut SnapshotMetrics) {
    let mut left = begin;
    let mut n = 0;
    while left > 0 {
        let (temp_id, base_dir) = new_slot_paths(&pool.work_dir, key);
        n += 1;
        left = left - 1
            + pool.restored(
                key,
                WarmSlot {
                    temp_id,
                    base_dir,
                    vm: n,
                },
                m,
            );
    }
}

fn ready(pool: &WarmPool<u32>, key: &SnapshotKey) -> usize {
    pool.ready_counts()
        .iter()
        .find(|e| e.0 == key.as_str())
        .map(|e| e.1)
        .unwrap_or(0)
}

#[test]
fn test_acquire_empty_pool_returns_none() {
    let mut m = SnapshotMetrics::new();
    // desired_per_key = 0: no slot is ever filled.
    let mut pool: WarmPool<u32> = WarmPool::new(0, "/tmp/warmpool");
    let key = SnapshotKey("test-key".to_string());
    let (slot, begin) = pool.acquire(&key, &mut m);
    assert!(slot.is_none());
    assert_eq!(begin, 0);
    assert_eq!(m.pools.get("test-key").unwrap().misses, 1);
}

#[test]
fn test_prime_and_acquire_slot() {
    let mut m = SnapshotMetrics::new();
    let mut pool: WarmPool<u32> = WarmPool::new(1, "/tmp/warmpool");
    let key = SnapshotKey("my-app".to_string());
    let begin = pool.prime(&key);
    run(&mut pool, &key, begin, &mut m);
    assert_eq!(ready(&pool, &key), 1);

    let slot = pool.acquire(&key, &mut m).0.expect("warm slot");
    assert!(!slot.temp_id.is_empty());
    assert!(!slot.base_dir.is_empty());
    assert_eq!(m.pools.get("my-app").unwrap().hits, 1);
}

#[test]
fn test_acquire_triggers_replenish() {
    let mut m = SnapshotMetrics::new();
    let mut pool: WarmPool<u32> = WarmPool::new(1, "/tmp/warmpool");
    let key = SnapshotKey("replenish-key".to_string());
    let begin = pool.prime(&key);
    run(&mut pool, &key, begin, &mut m);
    assert_eq!(ready(&pool, &key), 1);

    let (slot, begin) = pool.acquire(&key, &mut m);
    slot.expect("warm slot");
    assert_eq!(ready(&pool, &key), 0);

    run(&mut pool, &key, begin, &mut m);
    assert_eq!(ready(&pool, &key), 1);
}

#[test]
fn test_drain_key_removes_all_slots() {
    let mut m = SnapshotMetrics::new();
    let mut pool: WarmPool<u32> = WarmPool::new(2, "/tmp/warmpool");
    let key = SnapshotKey("drain-key".to_string());
    let begin = pool.prime(&key);
    run(&mut pool, &key, begin, &mut m);
    assert_eq!(ready(&pool, &key), 2);

    assert_eq!(pool.drain_key(&key).len(), 2);
    assert_eq!(ready(&pool, &key), 0);
}

#[test]
fn test_release_triggers_replenish() {
    let mut m = SnapshotMetrics::new();
    let mut pool: WarmPool<u32> = WarmPool::new(1, "/tmp/warmpool");
    let key = SnapshotKey("release-key".to_string());
    let begin = pool.prime(&key);
    run(&mut pool, &key, begin, &mut m);
    assert_eq!(ready(&pool, &key), 1);

    let (slot, begun) = pool.acquire(&key, &mut m);
    slot.unwrap();
    let begin = pool.release(&key);
    assert_eq!(begun + begin, 1);
    run(&mut pool, &key, begun + begin, &mut m);
    assert_eq!(ready(&pool, &key), 1);
}

#[test]
fn pool_stays_within_bounds() {
    assert_eq!(MAX_CONCURRENT_RESTORES, 2);
    assert_eq!(to_start(5, 0, 0), 2);
    assert_eq!(to_start(5, 0, 2), 0);
    assert_eq!(to_start(5, 4, 1), 0);
    assert_eq!(to_start(1, 0, 0), 1);
    assert_eq!(to_start(0, 0, 0), 0);
    let mut m = SnapshotMetrics::new();
    let mut pool: WarmPool<u32> = WarmPool::new(5, WARM_POOL_DEFAULT_WORK_DIR);
    let key = SnapshotKey("k".to_string());
    let begin = pool.prime(&key);
    assert_eq!(begin, 2);
    // Looking after it again at once begins nothing more.
    assert_eq!(pool.prime(&key), 0);
    run(&mut pool, &key, begin, &mut m);
    assert_eq!(ready(&pool, &key), 5);
    assert_eq!(m.pools.get("k").unwrap().size, 5);
}

#[test]
fn failed_restores_are_tried_again_later() {
    let mut pool: WarmPool<u32> = WarmPool::new(1, "/w");
    let key = SnapshotKey("k".to_string());
    assert_eq!(pool.prime(&key), 1);
    pool.restore_failed(&key);
    assert_eq!(ready(&pool, &key), 0);
    assert_eq!(pool.prime(&key), 1);
}

#[test]
fn first_restored_is_first_taken() {
    let mut m = SnapshotMetrics::new();
    let mut pool: WarmPool<u32> = WarmPool::new(2, "/w");
    let key = SnapshotKey("k".to_string());
    let begin = pool.prime(&key);
    run(&mut pool, &key, begin, &mut m);
    assert_eq!(pool.acquire(&key, &mut m).0.unwrap().vm, 1);
    assert_eq!(pool.acquire(&key, &mut m).0.unwrap().vm, 2);
}

#[test]
fn directories_of_waiting_guests() {
    let key = SnapshotKey("app".to_string());
    let (id, dir) = slot_paths("/w", &key, "0123");
    assert!(id.contains("0123"));
    assert!(dir.starts_with("/w/") && dir.contains("app"));
    let (a, _) = new_slot_paths("/w", &key);
    let (b, _) = new_slot_paths("/w", &key);
    assert_ne!(a, b);
    // A unique part of 32 hexadecimal digits.
    let prefix = id.len() - 4;
    assert_eq!(a.len(), prefix + 32);
    assert!(a[prefix..].chars().all(|c| c.is_ascii_hexdigit()));
}
