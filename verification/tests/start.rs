use vmm_sandboxer::sandbox::config::{MemoryRestoreMode, SnapshotConfig, TemplateLeaseMode};
use vmm_sandboxer::sandbox::data::SandboxData;
use vmm_sandboxer::sandbox::start::{
    restore_from_warm_fork_template, start_with_continuation_snapshot, start_with_template_id,
    start_with_template_key, PoolTerms,
};
use vmm_sandboxer::sandbox::state::KuasarSandbox;
use vmm_sandboxer::sandbox::template_pool::{
    settle_failure, LeaseEnd, Lookup, Tally, TemplateFailure,
};
use vmm_sandboxer::string_map::StringMap;
use vmm_sandboxer::template::{
    BootSettings, PooledTemplate, ReadyTarget, SnapshotMeta, SnapshotType, TemplateKey,
};

fn pod(pairs: &[(&str, &str)]) -> StringMap {
    let mut map = StringMap::new();
    for (k, v) in pairs {
        map.insert(k.to_string(), v.to_string());
    }
    map
}

fn pooled(kind: SnapshotType) -> PooledTemplate {
    let mut t = PooledTemplate::new(
        "t1",
        TemplateKey::user("key"),
        SnapshotMeta {
            snapshot_dir: "/t1/snapshot".to_string(),
            original_task_vsock: "/old/task.vsock".to_string(),
            original_console_path: "/tmp/old-task.log".to_string(),
            disk_images: vec![],
        },
        BootSettings {
            image_path: "/img".to_string(),
            kernel_path: "/kernel".to_string(),
            vcpus: 2,
            memory_mb: 512,
        },
        7,
    );
    t.snapshot_type = kind;
    t.id_generator = 3;
    t.orphan_container_ids = vec!["c9".to_string()];
    t
}

fn fork() -> PooledTemplate {
    let mut t = pooled(SnapshotType::WarmFork);
    t.ready_protocol_version = Some("v1".to_string());
    t.warm_fork_targets = vec![ReadyTarget {
        container_name: "app".to_string(),
        container_id: "c9".to_string(),
        socket_path: "/s".to_string(),
    }];
    t
}

fn terms(files_present: bool) -> PoolTerms {
    PoolTerms {
        lease_mode: TemplateLeaseMode::Exclusive,
        reflink_supported: true,
        files_present,
    }
}

fn forks(enable_warmfork_restore: bool) -> SnapshotConfig {
    SnapshotConfig {
        enable_environment_restore: true,
        enable_warmfork_restore,
        enable_continuation_restore: true,
        max_concurrent_restores: 4,
        fallback_to_fresh_boot: true,
        default_memory_restore_mode: MemoryRestoreMode::Copy,
    }
}

fn app() -> StringMap {
    pod(&[
        ("kuasar.io/task-id", "task"),
        ("kuasar.io/warm-fork-containers", "app"),
    ])
}

#[test]
fn warm_fork_is_restored_with_its_tasks() {
    let p = restore_from_warm_fork_template(fork(), &terms(true), &app())
        .ok()
        .unwrap();
    assert_eq!(p.snapshot_dir, "/t1/snapshot");
    assert_eq!(p.template_id, Some("t1".to_string()));
    assert!(matches!(p.snapshot_type, SnapshotType::WarmFork));
    assert_eq!(p.id_generator, 3);
    assert_eq!(p.orphan_container_ids, vec!["c9".to_string()]);
    assert_eq!(p.lease_mode, TemplateLeaseMode::Exclusive);
    assert!(p.reflink_supported);
    assert_eq!(p.original_task_vsock, "/old/task.vsock");
    let w = p.warm_fork_params.unwrap();
    assert_eq!(w.task_id, Some("task".to_string()));
    assert_eq!(w.targets[0].container_id, "c9");
    let other = pod(&[
        ("kuasar.io/task-id", "task"),
        ("kuasar.io/warm-fork-containers", "other"),
    ]);
    assert!(matches!(
        restore_from_warm_fork_template(fork(), &terms(true), &other),
        Err(TemplateFailure::ContainerSetMismatch)
    ));
}

#[test]
fn template_for_a_key_is_restored() {
    let none = pod(&[]);
    assert!(matches!(
        start_with_template_key(false, None, &terms(true), &forks(true), &none),
        Err(TemplateFailure::NoPool)
    ));
    assert!(matches!(
        start_with_template_key(true, None, &terms(true), &forks(true), &none),
        Err(TemplateFailure::PoolMiss)
    ));
    let env = pooled(SnapshotType::Environment);
    let p = start_with_template_key(true, Some(env), &terms(true), &forks(false), &none)
        .ok()
        .unwrap();
    assert!(matches!(p.snapshot_type, SnapshotType::Environment));
    assert_eq!(p.lease_mode, TemplateLeaseMode::Shared);
    assert!(p.warm_fork_params.is_none());
    let env = pooled(SnapshotType::Environment);
    assert!(matches!(
        start_with_template_key(true, Some(env), &terms(false), &forks(false), &none),
        Err(TemplateFailure::FilesMissing)
    ));
    assert!(matches!(
        start_with_template_key(true, Some(fork()), &terms(true), &forks(false), &app()),
        Err(TemplateFailure::TypeDisabled)
    ));
    let p = start_with_template_key(true, Some(fork()), &terms(true), &forks(true), &app())
        .ok()
        .unwrap();
    assert!(p.warm_fork_params.is_some());
}

#[test]
fn template_with_an_id_is_restored() {
    let none = pod(&[]);
    assert!(matches!(
        start_with_template_id(false, None, None, &terms(true), &forks(true), &none),
        Err(TemplateFailure::NoPool)
    ));
    assert!(matches!(
        start_with_template_id(true, None, None, &terms(true), &forks(true), &none),
        Err(TemplateFailure::NotAvailable)
    ));
    let env = pooled(SnapshotType::Environment);
    assert!(matches!(
        start_with_template_id(true, Some(env), None, &terms(true), &forks(true), &none),
        Err(TemplateFailure::WrongType)
    ));
    assert!(matches!(
        start_with_template_id(
            true,
            Some(fork()),
            Some("other"),
            &terms(true),
            &forks(true),
            &app()
        ),
        Err(TemplateFailure::KeyMismatch)
    ));
    let p = start_with_template_id(
        true,
        Some(fork()),
        Some("key"),
        &terms(true),
        &forks(true),
        &app(),
    );
    assert!(p.is_ok());
}

#[test]
fn continuation_is_restored_once() {
    assert!(matches!(
        start_with_continuation_snapshot(false, None, true, None),
        Err(TemplateFailure::NoStore)
    ));
    assert!(matches!(
        start_with_continuation_snapshot(true, None, true, None),
        Err(TemplateFailure::StoreMiss)
    ));
    let cont = pooled(SnapshotType::Continuation);
    assert!(matches!(
        start_with_continuation_snapshot(true, Some(cont), false, Some(true)),
        Err(TemplateFailure::FilesMissing)
    ));
    let cont = pooled(SnapshotType::Continuation);
    let p = start_with_continuation_snapshot(true, Some(cont), true, Some(true))
        .ok()
        .unwrap();
    assert!(matches!(p.snapshot_type, SnapshotType::Continuation));
    assert_eq!(p.lease_mode, TemplateLeaseMode::Exclusive);
    assert!(p.reflink_supported);
    let cont = pooled(SnapshotType::Continuation);
    let p = start_with_continuation_snapshot(true, Some(cont), true, None)
        .ok()
        .unwrap();
    assert!(!p.reflink_supported);
}

#[test]
fn failed_attempts_give_back_what_was_leased() {
    let f = start_with_template_key(true, Some(fork()), &terms(false), &forks(true), &app())
        .err()
        .unwrap();
    let s = settle_failure(Lookup::ByKey, &f);
    assert_eq!(s.lease, LeaseEnd::Fail);
    assert_eq!(s.tally, Tally::Miss);
    let f = start_with_template_id(
        true,
        Some(fork()),
        Some("other"),
        &terms(true),
        &forks(true),
        &app(),
    )
    .err()
    .unwrap();
    assert_eq!(settle_failure(Lookup::ById, &f).lease, LeaseEnd::Fail);
    let f = start_with_continuation_snapshot(true, None, true, None)
        .err()
        .unwrap();
    let s = settle_failure(Lookup::Workload, &f);
    assert_eq!(s.lease, LeaseEnd::Untaken);
    assert!(!s.clear_restore_state);
}

#[test]
fn leased_continuation_is_seen_at_once() {
    let data = SandboxData {
        id: "sb".to_string(),
        netns: String::new(),
        task_address: String::new(),
        labels: StringMap::new(),
        config: None,
    };
    let mut sb = KuasarSandbox::new("sb", "/run/sb", data);
    sb.publish_template("t1");
    assert_eq!(sb.template_id, Some("t1".to_string()));
    assert!(sb.template_key.is_none());
}
