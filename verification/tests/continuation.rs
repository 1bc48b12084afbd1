use vmm_sandboxer::cloud_hypervisor::snapshot::SnapshotPathOverrides;
use vmm_sandboxer::sandbox::config::{MemoryRestoreMode, SnapshotConfig, TemplateLeaseMode};
use vmm_sandboxer::sandbox::intent::{parse_generation, IntentError};
use vmm_sandboxer::sandbox::restore::RestoreSource;
use vmm_sandboxer::storage::{storage_image, Storage};
use vmm_sandboxer::string_map::StringMap;
use vmm_sandboxer::template::{
    BootSettings, DiskImageEntry, FactorySettings, SnapshotMeta, SnapshotType, TemplateKey,
    WorkloadIdentity, POD_UID_ANNOTATION, WORKLOAD_GENERATION_ANNOTATION,
};

fn make_restore_source(storages: Vec<Storage>) -> RestoreSource {
    RestoreSource {
        snapshot_dir: "/tmp/snap".to_string(),
        work_dir: "/tmp/work".to_string(),
        overrides: SnapshotPathOverrides {
            task_vsock: String::new(),
            console_path: String::new(),
        },
        snapshot_type: SnapshotType::Continuation,
        disk_images: vec![DiskImageEntry {
            storage_id: "vol1".to_string(),
            device_id: "blk0".to_string(),
            filename: "disks/vol1.img".to_string(),
        }],
        storages,
        orphan_container_ids: vec!["ctr-a".to_string(), "ctr-b".to_string()],
        memory_restore_mode: MemoryRestoreMode::Copy,
        reflink_supported: false,
        lease_mode: TemplateLeaseMode::Exclusive,
        warm_fork_params: None,
    }
}

#[test]
fn test_continuation_restore_disabled_by_default() {
    let cfg = SnapshotConfig::default();
    assert!(
        !cfg.enable_continuation_restore,
        "enable_continuation_restore must default to false"
    );
}

#[test]
fn test_continuation_restore_can_be_enabled() {
    let cfg = SnapshotConfig {
        enable_continuation_restore: true,
        enable_environment_restore: false,
        enable_warmfork_restore: false,
        ..SnapshotConfig::default()
    };
    assert!(cfg.enable_continuation_restore);
}

#[test]
fn test_snapshot_type_continuation_does_not_require_network_hotplug() {
    assert!(
        !SnapshotType::Continuation.requires_network_hotplug(),
        "Continuation must not require network hotplug (identity preserved externally)"
    );
}

/// Cleanup paths of restored storages lie in the base directory of the sandbox.
#[test]
fn test_remap_cleanup_path_formula() {
    let base_dir = "/run/kuasar/test-sb";
    let storage_id = "vol1";
    let expected = storage_image(base_dir, storage_id);
    assert_eq!(expected, "/run/kuasar/test-sb/vol1.img");
}

/// Continuation restore source carries orphan container IDs.
#[test]
fn test_continuation_restore_source_has_orphan_container_ids() {
    let src = make_restore_source(vec![]);
    assert_eq!(
        src.orphan_container_ids,
        vec!["ctr-a".to_string(), "ctr-b".to_string()],
        "orphan containers from snapshot must be propagated via RestoreSource"
    );
}

/// The key of a continuation holds the generation, to prevent stale snapshot reuse.
#[test]
fn test_continuation_pool_key_encodes_workload_identity() {
    let wi = WorkloadIdentity {
        pod_uid: "abc-def".to_string(),
        generation: 2,
    };
    let key = TemplateKey::from_workload_identity(&wi.pod_uid, wi.generation);
    assert_eq!(key.key, "abc-def:2");
}

#[test]
fn test_cont_annotation_constants_are_correct() {
    assert_eq!(POD_UID_ANNOTATION, "kuasar.io/pod-uid");
    assert_eq!(
        WORKLOAD_GENERATION_ANNOTATION,
        "kuasar.io/workload-generation"
    );
}

/// When a pod sets kuasar.io/pod-uid, the restore key is derived from workload identity.
#[test]
fn test_cont_pod_uid_annotation_drives_key_derivation() {
    let mut annotations = StringMap::new();
    annotations.insert(POD_UID_ANNOTATION.to_string(), "pod-xyz".to_string());
    annotations.insert(WORKLOAD_GENERATION_ANNOTATION.to_string(), "3".to_string());
    let pod_uid = annotations.get(POD_UID_ANNOTATION).unwrap();
    let restart = parse_generation(annotations.get(WORKLOAD_GENERATION_ANNOTATION))
        .ok()
        .unwrap();
    let key = TemplateKey::from_workload_identity(pod_uid, restart);
    assert_eq!(key.key, "pod-xyz:3");
}

/// Missing generation annotation defaults to 0.
#[test]
fn test_cont_generation_defaults_to_zero_when_absent() {
    let annotations = StringMap::new();
    let restart = parse_generation(annotations.get(WORKLOAD_GENERATION_ANNOTATION))
        .ok()
        .unwrap();
    assert_eq!(restart, 0);
}

/// A non-numeric generation annotation must cause a hard error: falling back would
/// silently discard the workload state the operator intended to continue.
#[test]
fn test_cont_generation_malformed_produces_hard_error() {
    let counter_str = "not-a-number".to_string();
    let result = parse_generation(Some(&counter_str));
    assert!(
        result.is_err(),
        "malformed generation must produce an error"
    );
    assert!(matches!(result, Err(IntentError::MalformedGeneration)));
}

/// An out-of-range generation (> u32::MAX) must also produce a hard error.
#[test]
fn test_cont_generation_overflow_produces_hard_error() {
    let counter_str = (u32::MAX as u64 + 1).to_string();
    let result = parse_generation(Some(&counter_str));
    assert!(
        result.is_err(),
        "generation > u32::MAX must produce an error, not be truncated"
    );
    assert!(matches!(result, Err(IntentError::GenerationTooLarge)));
    let last = u32::MAX.to_string();
    assert_eq!(parse_generation(Some(&last)).ok(), Some(u32::MAX as u64));
}

#[test]
fn workload_keys_differ() {
    let a = TemplateKey::from_workload_identity("pod:1", 2).key;
    let b = TemplateKey::from_workload_identity("pod", 12).key;
    let c = TemplateKey::from_workload_identity("pod:12", 0).key;
    assert_ne!(a, b);
    assert_ne!(b, c);
    assert_ne!(a, c);
    assert_eq!(a, "pod:1:2");
}

#[test]
fn environment_key_lists_the_settings() {
    let key = TemplateKey::from_vm_config("/k", "/i", 2, 512, "quiet", "virtio-blk");
    assert_eq!(key.key, "/k|/i|2|512|quiet|virtio-blk");
}

#[test]
fn templates_of_a_factory_are_found_by_its_key() {
    let factory = || FactorySettings {
        boot: BootSettings {
            image_path: "/i".to_string(),
            kernel_path: "/k".to_string(),
            vcpus: 2,
            memory_mb: 512,
        },
        kernel_params: "quiet".to_string(),
        storage_backend: "virtio-blk".to_string(),
    };
    let meta = SnapshotMeta {
        snapshot_dir: "/t/snapshot".to_string(),
        original_task_vsock: "/old".to_string(),
        original_console_path: "/tmp/old".to_string(),
        disk_images: vec![],
    };
    let t = factory().environment_template("t", meta, 9);
    assert_eq!(t.key.key, "/k|/i|2|512|quiet|virtio-blk");
    assert_eq!(t.key.key, factory().environment_key().key);
    assert_eq!(t.pmem_path, "/i");
    assert_eq!(t.created_at_secs, 9);
}
