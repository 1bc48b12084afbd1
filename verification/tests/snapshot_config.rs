use vmm_sandboxer::cloud_hypervisor::snapshot::{
    is_net_device_key, patch_snapshot_config, patch_snapshot_state, read_net_device_configs,
    read_net_device_ids, remove_net_device_state, validate_snapshot_config, PatchError,
    SnapshotPathOverrides, TemplateMeta,
};
use vmm_sandboxer::json::parse;
use vmm_sandboxer::template::SnapshotType;

fn overrides(task_vsock: &str, console_path: &str) -> SnapshotPathOverrides {
    SnapshotPathOverrides {
        task_vsock: task_vsock.to_string(),
        console_path: console_path.to_string(),
    }
}

fn value(text: &str) -> serde_json::Value {
    serde_json::from_str(text).unwrap()
}

#[test]
fn test_patch_snapshot_config() {
    let original = r#"{
        "payload": {
            "kernel": "/var/lib/kuasar/vmlinux.bin",
            "cmdline": "console=hvc0 root=/dev/pmem0p1 ro"
        },
        "vsock": {
            "socket": "/old/sandbox-abc/task.vsock",
            "cid": 3,
            "iommu": false
        },
        "console": {
            "file": "/tmp/sandbox-abc-task.log",
            "mode": "File"
        },
        "pmem": [
            {"file": "/var/lib/kuasar/rootfs.img", "discard_writes": true}
        ],
        "disks": [
            {"path": "/old/sandbox-abc/container-1.img", "readonly": false}
        ]
    }"#;
    let overrides = overrides("/new/sandbox-xyz/task.vsock", "/tmp/sandbox-xyz-task.log");
    // Template mode: empty disk_remaps, so disks are stripped
    let patched = value(
        &patch_snapshot_config(original, &overrides, &vec![], &SnapshotType::WarmFork)
            .ok()
            .unwrap(),
    );
    assert_eq!(patched["vsock"]["socket"], "/new/sandbox-xyz/task.vsock");
    assert_eq!(patched["console"]["file"], "/tmp/sandbox-xyz-task.log");
    // pmem path must remain unchanged
    assert_eq!(patched["pmem"][0]["file"], "/var/lib/kuasar/rootfs.img");
    // template mode: container blk devices stripped (re-hot-plugged after restore)
    assert_eq!(patched["disks"], value("[]"));
    assert_eq!(patched["vsock"]["cid"], 3);
    assert_eq!(patched["payload"]["kernel"], "/var/lib/kuasar/vmlinux.bin");
}

#[test]
fn test_patch_snapshot_config_disk_remap() {
    let original = r#"{
        "vsock": {"socket": "/old/task.vsock", "cid": 3},
        "console": {"file": "/tmp/old.log", "mode": "File"},
        "pmem": [{"file": "/var/lib/kuasar/rootfs.img", "discard_writes": true}],
        "disks": [
            {"path": "/old/storage3.img", "readonly": false, "id": "blk3"},
            {"path": "/old/storage4.img", "readonly": false, "id": "blk4"}
        ]
    }"#;
    let overrides = overrides("/new/task.vsock", "/tmp/new.log");
    // Full-checkpoint mode: remap blk3, strip blk4 (not in remaps)
    let remaps = vec![("blk3".to_string(), "/new/sandbox/storage3.img".to_string())];
    let patched = value(
        &patch_snapshot_config(original, &overrides, &remaps, &SnapshotType::Continuation)
            .ok()
            .unwrap(),
    );
    assert_eq!(patched["vsock"]["socket"], "/new/task.vsock");
    // blk3 remapped to new path
    let disks = patched["disks"].as_array().unwrap();
    assert_eq!(disks.len(), 1);
    assert_eq!(disks[0]["id"], "blk3");
    assert_eq!(disks[0]["path"], "/new/sandbox/storage3.img");
    // pmem unchanged
    assert_eq!(patched["pmem"][0]["file"], "/var/lib/kuasar/rootfs.img");
}

const ONE_NIC: &str = r#"{
    "vsock": {"socket": "/old/task.vsock", "cid": 3},
    "net": [{"id": "intf-2", "tap": "tap_kua_1", "mac": "aa:bb:cc:dd:ee:ff", "fds": [5]}]
}"#;

#[test]
fn test_patch_snapshot_config_continuation_strips_tap_keeps_fds() {
    let overrides = overrides("/new/task.vsock", "/tmp/new.log");
    let patched = value(
        &patch_snapshot_config(ONE_NIC, &overrides, &vec![], &SnapshotType::Continuation)
            .ok()
            .unwrap(),
    );
    let net = patched["net"].as_array().expect("net must be an array");
    assert_eq!(net.len(), 1, "net device must be preserved for Continuation");
    assert!(
        net[0].get("tap").is_none() || net[0]["tap"].is_null(),
        "tap field must be stripped so CH uses from_tap_fds (avoids IFF_VNET_HDR mismatch)"
    );
    assert!(
        net[0].get("fds").is_some() && !net[0]["fds"].is_null(),
        "fds field must be kept so CH validation requires a net_fds entry"
    );
    assert_eq!(net[0]["id"], "intf-2", "device id must be preserved");
    assert_eq!(net[0]["mac"], "aa:bb:cc:dd:ee:ff", "mac must be preserved");
}

#[test]
fn test_patch_snapshot_config_warmfork_strips_tap_field() {
    let overrides = overrides("/new/task.vsock", "/tmp/new.log");
    let patched = value(
        &patch_snapshot_config(ONE_NIC, &overrides, &vec![], &SnapshotType::WarmFork)
            .ok()
            .unwrap(),
    );
    let net = patched["net"].as_array().expect("net must be an array");
    assert_eq!(net.len(), 1, "net device must be preserved for WarmFork");
    assert!(
        net[0].get("tap").is_none() || net[0]["tap"].is_null(),
        "tap field must be stripped so CH uses the fds path"
    );
    assert_eq!(net[0]["id"], "intf-2", "device id must be preserved");
    assert_eq!(net[0]["mac"], "aa:bb:cc:dd:ee:ff", "mac must be preserved");
}

#[test]
fn test_template_meta_save_load_roundtrip() {
    let meta = TemplateMeta {
        id: "tmpl-001".to_string(),
        snapshot_dir: "/var/lib/kuasar/templates/tmpl-001/snapshot".to_string(),
        original_task_vsock: "/var/lib/kuasar/templates/tmpl-001/task.vsock".to_string(),
        original_console_path: "/tmp/tmpl-001-task.log".to_string(),
    };
    let loaded = TemplateMeta::load(&parse(&meta.save()).unwrap()).unwrap();
    assert_eq!(loaded.id, meta.id);
    assert_eq!(loaded.snapshot_dir, meta.snapshot_dir);
    assert_eq!(loaded.original_task_vsock, meta.original_task_vsock);
    assert_eq!(loaded.original_console_path, meta.original_console_path);
    assert!(TemplateMeta::load(&parse("{}").unwrap()).is_none());
    let listed = TemplateMeta::load(&parse(r#"["t", "/d", "/v", "/c"]"#).unwrap()).unwrap();
    assert_eq!(listed.id, "t");
    assert_eq!(listed.original_console_path, "/c");
    assert!(TemplateMeta::load(&parse(r#"["t", "/d", "/v"]"#).unwrap()).is_none());
    assert!(parse("").is_none());
}

#[test]
fn test_patch_snapshot_config_missing_vsock_returns_error() {
    let cfg = r#"{ "pmem": [], "console": { "mode": "Null" } }"#;
    let overrides = overrides("/new/task.vsock", "/tmp/console.log");
    let result = patch_snapshot_config(cfg, &overrides, &vec![], &SnapshotType::WarmFork);
    assert!(result.is_err());
    let msg = result.err().unwrap().message();
    assert!(msg.contains("missing /vsock/socket"), "got: {}", msg);
}

#[test]
fn test_validate_environment_snapshot_rejects_network_devices() {
    let cfg = r#"{
        "vsock": {"socket": "/old/task.vsock", "cid": 3},
        "net": [{"id": "tap0", "tap": "tap0"}]
    }"#;
    let result = validate_snapshot_config(cfg, &SnapshotType::Environment);
    assert!(result.is_err());
    assert!(result.err().unwrap().message().contains("network devices"));
}

#[test]
fn test_validate_warmfork_snapshot_allows_network_devices() {
    let cfg = r#"{
        "vsock": {"socket": "/old/task.vsock", "cid": 3},
        "net": [{"id": "tap0", "tap": "tap0"}]
    }"#;
    assert!(validate_snapshot_config(cfg, &SnapshotType::WarmFork).is_ok());
}

fn state_text(nic: &str) -> String {
    let tree = format!(
        r#"{{"device_tree": {{
            "{0}": {{"id": "{0}", "resources": [], "parent": "_virtio-pci-{0}", "children": [], "pci_bdf": null}},
            "_virtio-pci-{0}": {{"id": "_virtio-pci-{0}", "resources": [], "parent": null, "children": ["{0}"], "pci_bdf": "0000:00:02.0"}},
            "vsock": {{"id": "vsock", "resources": [], "parent": "_virtio-pci-vsock", "children": [], "pci_bdf": null}},
            "_virtio-pci-vsock": {{"id": "_virtio-pci-vsock", "resources": [], "parent": null, "children": ["vsock"], "pci_bdf": "0000:00:05.0"}}
        }}}}"#,
        nic
    );
    let quoted = serde_json::Value::String(tree).to_string();
    format!(
        r#"{{"snapshots": {{"device-manager": {{
            "snapshots": {{
                "{0}": {{"snapshots": {{}}, "snapshot_data": {{"state": "{{\"avail_features\":0}}"}}}},
                "_virtio-pci-{0}": {{"snapshots": {{}}, "snapshot_data": {{"state": "{{\"pci\":1}}"}}}},
                "vsock": {{"snapshots": {{}}, "snapshot_data": {{"state": "{{\"avail_features\":0}}"}}}},
                "_virtio-pci-vsock": {{"snapshots": {{}}, "snapshot_data": {{"state": "{{\"pci\":2}}"}}}}
            }},
            "snapshot_data": {{"state": {1}}}
        }}}}, "snapshot_data": null}}"#,
        nic, quoted
    )
}

fn check_state(nic: &str) {
    let wrapper = format!("_virtio-pci-{}", nic);
    let patched = value(
        &patch_snapshot_state(&state_text(nic)).ok().unwrap().unwrap(),
    );
    let dm_snapshots = &patched["snapshots"]["device-manager"]["snapshots"];
    assert!(dm_snapshots.get(nic).is_none(), "{} snapshot must be removed", nic);
    assert!(
        dm_snapshots.get(&wrapper).is_none(),
        "{} snapshot must be removed",
        wrapper
    );
    assert!(dm_snapshots.get("vsock").is_some(), "vsock snapshot must remain");
    assert!(
        dm_snapshots.get("_virtio-pci-vsock").is_some(),
        "_virtio-pci-vsock snapshot must remain"
    );
    let inner_state_str = patched["snapshots"]["device-manager"]["snapshot_data"]["state"]
        .as_str()
        .unwrap();
    let inner = value(inner_state_str);
    let dt = &inner["device_tree"];
    assert!(dt.get(nic).is_none(), "{} must be removed from device_tree", nic);
    assert!(
        dt.get(&wrapper).is_none(),
        "{} must be removed from device_tree",
        wrapper
    );
    assert!(dt.get("vsock").is_some(), "vsock must remain in device_tree");
    assert!(
        dt.get("_virtio-pci-vsock").is_some(),
        "_virtio-pci-vsock must remain in device_tree"
    );
}

/// Device snapshots are object keys under snapshots["device-manager"]["snapshots"], and
/// the device_tree lives inside a JSON-encoded string at
/// snapshots["device-manager"]["snapshot_data"]["state"].
#[test]
fn test_patch_snapshot_state_removes_net_and_pci_wrapper() {
    check_state("intf-2");
}

/// state.json contains `intf-5` (template's link index), whatever the link index of the
/// new sandbox is: the pattern-based scan must remove it regardless.
#[test]
fn test_patch_snapshot_state_removes_mismatched_link_index() {
    check_state("intf-5");
}

#[test]
fn state_without_network_is_left_alone() {
    let text = r#"{"snapshots": {"vsock": {"state": "{\"a\":1}"}}}"#;
    assert!(matches!(patch_snapshot_state(text), Ok(None)));
    assert!(matches!(
        patch_snapshot_state("not json"),
        Err(PatchError::ParseState)
    ));
}

#[test]
fn network_keys_are_told_by_their_prefix() {
    assert!(is_net_device_key("intf-2"));
    assert!(is_net_device_key("_virtio-pci-intf-7"));
    assert!(!is_net_device_key("vsock"));
    assert!(!is_net_device_key("my-intf-2"));
}

#[test]
fn removed_devices_are_counted_at_every_depth() {
    let mut j = parse(
        r#"{"intf-1": 1, "x": {"intf-2": {"intf-3": 2}, "y": [{"_virtio-pci-intf-2": 3}]}}"#,
    )
    .unwrap();
    assert_eq!(remove_net_device_state(&mut j), 3);
    assert_eq!(remove_net_device_state(&mut j), 0);
}

#[test]
fn broken_configurations_are_told_apart() {
    let o = overrides("/a", "/b");
    assert!(matches!(
        patch_snapshot_config("{", &o, &vec![], &SnapshotType::WarmFork),
        Err(PatchError::ParseConfig)
    ));
    assert!(matches!(
        patch_snapshot_config("{}", &o, &vec![], &SnapshotType::WarmFork),
        Err(PatchError::MissingVsockSocket)
    ));
    assert!(matches!(
        validate_snapshot_config(ONE_NIC, &SnapshotType::Environment),
        Err(PatchError::NetworkInEnvironment)
    ));
    assert!(validate_snapshot_config(ONE_NIC, &SnapshotType::Continuation).is_ok());
}

#[test]
fn network_devices_are_read() {
    let text = r#"{"net": [
        {"id": "intf-2", "mac": "aa:bb:cc:dd:ee:ff", "num_queues": 4, "queue_size": 256},
        {"mac": "no id"},
        {"id": "intf-3"}
    ]}"#;
    assert_eq!(read_net_device_ids(text).ok().unwrap(), ["intf-2", "intf-3"]);
    let configs = read_net_device_configs(text).ok().unwrap();
    assert_eq!(configs[0].id, "intf-2");
    assert!(read_net_device_ids("{}").ok().unwrap().is_empty());
    assert!(read_net_device_ids("?").ok().unwrap().is_empty());
    assert!(matches!(read_net_device_configs("?"), Err(PatchError::ParseConfig)));
}

#[test]
fn test_template_meta_load_missing_returns_error() {
    let result = TemplateMeta::loaded("/gone", Err("No such file or directory".to_string()));
    assert!(result.is_err());
    let message = result.err().unwrap();
    assert!(message.contains("metadata.json"));
    assert_eq!(
        message,
        "read metadata.json from /gone: No such file or directory"
    );
    assert_eq!(
        TemplateMeta::loaded("/there", Ok(Err("EOF".to_string())))
            .err()
            .unwrap(),
        "parse metadata.json: EOF"
    );
    let meta = TemplateMeta::load(&parse(r#"["t", "/d", "/v", "/c"]"#).unwrap()).unwrap();
    let loaded = TemplateMeta::loaded("/there", Ok(Ok(meta)));
    assert_eq!(loaded.ok().unwrap().snapshot_dir, "/d");
}
