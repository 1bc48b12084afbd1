use vmm_sandboxer::cloud_hypervisor::factory::SandboxOption;
use vmm_sandboxer::metrics_server::{handle, metrics_addr};
use vmm_sandboxer::resolver::{
    resolve_chain, AnnotationResolverConfig, KuasarNativeResolver, MappingResolver, ResolveError,
    RestoreIntent, RestoreIntentResolver,
};
use vmm_sandboxer::sandbox::config::{MemoryRestoreMode, SnapshotConfig};
use vmm_sandboxer::sandbox::data::{PodSandboxConfig, SandboxData};
use vmm_sandboxer::snapshot::error::SnapshotError;
use vmm_sandboxer::snapshot::manager::{get_snapshot_key, CreateStep, SnapshotManager};
use vmm_sandboxer::snapshot::metrics::{
    record_restore, record_snapshot_created, record_store_sizes, record_warm_pool_hit,
    record_warm_pool_miss, set_warm_pool_size, RestoreTimer, SnapshotMetrics,
};
use vmm_sandboxer::snapshot::mgmt_server::{create_response, live_steps, sock_path, LiveStep};
use vmm_sandboxer::snapshot::post_restore::{InitStep, PostRestoreInitializer};
use vmm_sandboxer::snapshot::store::{
    CreatedAt, SnapshotId, SnapshotKey, SnapshotMetadata, SnapshotStore,
};
use vmm_sandboxer::string_map::StringMap;

fn notes(pairs: &[(&str, &str)]) -> StringMap {
    let mut map = StringMap::new();
    for (k, v) in pairs {
        map.insert(k.to_string(), v.to_string());
    }
    map
}

fn meta() -> SnapshotMetadata {
    SnapshotMetadata {
        id: SnapshotId("id".to_string()),
        key: SnapshotKey::new("key"),
        hypervisor: "cloud-hypervisor".to_string(),
        created_at: CreatedAt::new(1, 2).unwrap(),
        memory_size_bytes: 100,
        state_size_bytes: 10,
    }
}

#[test]
fn counting() {
    let mut m = SnapshotMetrics::new();
    record_snapshot_created(&mut m);
    record_restore(&mut m, true);
    record_restore(&mut m, false);
    record_restore(&mut m, false);
    assert_eq!((m.created, m.restored_ok, m.restored_err), (1, 1, 2));
    record_store_sizes(&mut m, 5, 6);
    assert_eq!((m.store_memory_bytes, m.store_state_bytes), (5, 6));
    set_warm_pool_size(&mut m, "k", 3);
    record_warm_pool_hit(&mut m, "k");
    record_warm_pool_miss(&mut m, "other");
    let k = m.pools.get("k").unwrap();
    assert_eq!((k.size, k.hits, k.misses), (3, 1, 0));
    assert_eq!(m.pools.get("other").unwrap().misses, 1);
    m.created = u64::MAX;
    record_snapshot_created(&mut m);
    assert_eq!(m.created, u64::MAX);
}

#[test]
fn buckets_are_cumulative() {
    let mut m = SnapshotMetrics::new();
    RestoreTimer::start(1_000).observe(&mut m, 100_001_000);
    RestoreTimer::start(0).observe(&mut m, 100_000_001);
    RestoreTimer::start(0).observe(&mut m, 51_200_000_000);
    RestoreTimer::start(0).observe(&mut m, 51_200_000_001);
    assert_eq!(m.restore_buckets, [1, 2, 2, 2, 2, 2, 2, 2, 2, 3]);
    assert_eq!(m.restore_count, 4);
    assert_eq!(m.restore_sum_ns, 102_600_000_002);
    // A clock that ran backwards counts as no time.
    RestoreTimer::start(9).observe(&mut m, 8);
    assert_eq!(m.restore_buckets[0], 2);
}

#[test]
fn managing_snapshots() {
    let mut m = SnapshotMetrics::new();
    let manager = SnapshotManager::new(7u8, SnapshotStore::new("/s"));
    assert_eq!(manager.factory, 7);
    assert_eq!(
        manager.staging("sb"),
        ("/s/staging-sb".to_string(), "file:///s/staging-sb".to_string())
    );
    let steps = manager.create_snapshot(true).ok().unwrap();
    assert_eq!(steps.len(), 7);
    assert_eq!(steps[5], CreateStep::StopVm);
    assert_eq!(steps[6], CreateStep::Import);
    assert!(matches!(
        manager.create_snapshot(false),
        Err(SnapshotError::Unsupported)
    ));
    manager.snapshot_created(&meta(), &mut m);
    assert_eq!((m.created, m.store_memory_bytes), (1, 100));
    let key = SnapshotKey::new("k");
    assert_eq!(
        manager.restore_vm_from_key(true, &key, Ok(meta())).unwrap(),
        "file:///s/id"
    );
    assert_eq!(
        manager
            .restore_vm_from_key(true, &key, Err(SnapshotError::NotFound("k".to_string())))
            .unwrap_err(),
        "get snapshot by key 'k': snapshot not found: k"
    );
    assert_eq!(
        manager.restore_vm_from_key(false, &key, Ok(meta())).unwrap_err(),
        "hypervisor does not support app snapshots"
    );
    manager.restore_ended(RestoreTimer::start(0), 150_000_000, true, &mut m);
    assert_eq!((m.restored_ok, m.restore_count), (1, 1));
    assert_eq!(m.restore_buckets[0], 0);
    assert_eq!(m.restore_buckets[1], 1);
    let usual = SnapshotManager::with_default_store(());
    assert_eq!(usual.store.root(), "/var/lib/kuasar/snapshots");
}

#[test]
fn snapshot_that_a_pod_asks_for() {
    let option = |pairs: &[(&str, &str)]| SandboxOption {
        base_dir: String::new(),
        sandbox: SandboxData {
            id: String::new(),
            netns: String::new(),
            task_address: String::new(),
            labels: StringMap::new(),
            config: Some(PodSandboxConfig {
                hostname: String::new(),
                annotations: notes(pairs),
                dns_config: None,
                resources: None,
                cgroup_parent: String::new(),
                pid_namespace: None,
            }),
        },
    };
    assert!(get_snapshot_key(&option(&[])).is_none());
    assert_eq!(
        get_snapshot_key(&option(&[("snapshotter.kuasar.io/snapshot-key", "k")]))
            .unwrap()
            .as_str(),
        "k"
    );
}

#[test]
fn snapshots_on_request() {
    assert_eq!(
        sock_path(None).as_deref(),
        Some("/run/kuasar-vmm/snapshot-mgmt.sock")
    );
    assert_eq!(sock_path(Some("/x")).as_deref(), Some("/x"));
    assert_eq!(sock_path(Some("")), None);
    let steps = live_steps("sb", true).unwrap();
    let place = |s: LiveStep| steps.iter().position(|x| *x == s).unwrap();
    assert!(place(LiveStep::DropClient) < place(LiveStep::TakeSnapshot));
    assert_eq!(
        live_steps("sb", false).unwrap_err(),
        "sandbox 'sb' not found"
    );
    let r = create_response(&meta());
    assert_eq!(r.snapshot_id, "id");
    assert_eq!(r.key, "key");
    assert_eq!((r.memory_size_bytes, r.state_size_bytes), (100, 10));
}

#[test]
fn restored_guest_is_set_right() {
    let init = |connected| PostRestoreInitializer {
        sandbox_id: "sb".to_string(),
        connected,
    };
    assert_eq!(
        init(true).run().ok().unwrap(),
        [InitStep::InjectEntropy, InitStep::SyncClock]
    );
    assert_eq!(
        init(false).run().err().unwrap(),
        "post-restore: ttrpc client not initialised"
    );
}

#[test]
fn offering_metrics() {
    assert_eq!(metrics_addr(None).as_deref(), Some("127.0.0.1:9090"));
    assert_eq!(metrics_addr(Some("0.0.0.0:1")).as_deref(), Some("0.0.0.0:1"));
    assert_eq!(metrics_addr(Some("")), None);
    let r = handle("/metrics", Ok("text".to_string()));
    assert_eq!((r.status, r.body.as_str()), (200, "text"));
    assert_eq!(
        r.content_type.as_deref(),
        Some("text/plain; version=0.0.4; charset=utf-8")
    );
    let r = handle("/metrics", Err("broken".to_string()));
    assert_eq!((r.status, r.body.as_str()), (500, "broken"));
    let r = handle("/healthz", Err(String::new()));
    assert_eq!((r.status, r.body.as_str()), (200, "ok"));
    let r = handle("/other", Ok(String::new()));
    assert_eq!((r.status, r.body.as_str()), (404, "not found\n"));
}

fn config(fork: bool, cont: bool) -> SnapshotConfig {
    SnapshotConfig {
        enable_environment_restore: false,
        enable_warmfork_restore: fork,
        enable_continuation_restore: cont,
        max_concurrent_restores: 4,
        fallback_to_fresh_boot: true,
        default_memory_restore_mode: MemoryRestoreMode::Copy,
    }
}

fn chain() -> Vec<Box<dyn RestoreIntentResolver>> {
    vec![
        Box::new(KuasarNativeResolver),
        Box::new(MappingResolver::new(vec![
            AnnotationResolverConfig {
                snapshot_key_annotation: "first/key".to_string(),
            },
            AnnotationResolverConfig {
                snapshot_key_annotation: "second/key".to_string(),
            },
        ])),
    ]
}

#[test]
fn first_claim_decides() {
    let both = [
        ("kuasar.io/template-key", "own"),
        ("first/key", "mapped"),
    ];
    match resolve_chain(&chain(), &notes(&both), &config(true, true)) {
        Ok(RestoreIntent::WarmFork { key, template_id }) => {
            assert_eq!(key.key, "own");
            assert!(template_id.is_none());
        }
        _ => panic!("expected the template"),
    }
    match resolve_chain(
        &chain(),
        &notes(&[("second/key", "b"), ("first/key", "a")]),
        &config(true, true),
    ) {
        Ok(RestoreIntent::WarmFork { key, .. }) => assert_eq!(key.key, "a"),
        _ => panic!("expected the mapped key"),
    }
    assert!(matches!(
        resolve_chain(&chain(), &notes(&[]), &config(true, true)),
        Ok(RestoreIntent::Nothing)
    ));
    assert!(matches!(
        resolve_chain(&chain(), &notes(&[("first/key", "a")]), &config(false, true)),
        Ok(RestoreIntent::Nothing)
    ));
}

#[test]
fn native_annotations() {
    let native = KuasarNativeResolver;
    assert_eq!(native.name(), "kuasar-native");
    match native.resolve(
        &notes(&[
            ("kuasar.io/pod-uid", "uid"),
            ("kuasar.io/workload-generation", "2"),
            ("kuasar.io/template-id", "t"),
        ]),
        &config(true, true),
    ) {
        Ok(Some(RestoreIntent::Continuation { identity })) => {
            assert_eq!(identity.pod_uid, "uid");
            assert_eq!(identity.generation, 2);
        }
        _ => panic!("expected the workload"),
    }
    match native.resolve(&notes(&[("kuasar.io/template-id", "t")]), &config(true, false)) {
        Ok(Some(RestoreIntent::WarmFork { key, template_id })) => {
            assert_eq!(key.key, "t");
            assert_eq!(template_id.as_deref(), Some("t"));
        }
        _ => panic!("expected the template"),
    }
    match resolve_chain(
        &chain(),
        &notes(&[
            ("kuasar.io/pod-uid", "uid"),
            ("kuasar.io/workload-generation", "two"),
        ]),
        &config(true, true),
    ) {
        Err((name, e)) => {
            assert_eq!(name, "kuasar-native");
            assert_eq!(e, ResolveError::MalformedGeneration);
        }
        Ok(_) => panic!("expected an error"),
    }
    assert!(matches!(
        native.resolve(
            &notes(&[("kuasar.io/snapshot-type", "odd")]),
            &config(true, true)
        ),
        Err(ResolveError::UnknownType)
    ));
    assert!(matches!(
        native.resolve(
            &notes(&[("kuasar.io/template-id", "t")]),
            &config(false, false)
        ),
        Ok(Some(RestoreIntent::Nothing))
    ));
}
