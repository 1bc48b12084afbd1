use vmm_sandboxer::sandbox::data::SandboxData;
use vmm_sandboxer::sandbox::state::{KuasarSandbox, SandboxStatus};
use vmm_sandboxer::storage::image::{
    after_failed_fill, copy_command, fails_fill, fill_steps, image_bytes, measure_command,
    missing_tool, mkfs_command, mount_command, mount_dir, push_command, unmount_command, FillStep,
    HostCommand,
};
use vmm_sandboxer::storage::layer::{
    after_failed_layer, bind_way, fails_layer, layer_steps, overlay_dir, shared_dest, BindWay,
    LayerStep, LayerUndo,
};
use vmm_sandboxer::storage::{
    block_device_storage, check_source, choose_attach_way, detach_step, guest_file_storage,
    image_size_mb, image_storage, is_read_only, parse_dir_size_mb, shared_storage, tmpfs_storage,
    AttachError, AttachStart, AttachWay, DetachStep, ImageKind, Mount, MountInfo, MountProbe,
    Storage, Unused,
};
use vmm_sandboxer::string_map::StringMap;

fn data() -> SandboxData {
    SandboxData {
        id: "test-sandbox".to_string(),
        netns: String::new(),
        task_address: String::new(),
        labels: StringMap::new(),
        config: None,
    }
}

fn sandbox(base_dir: &str, storages: Vec<Storage>) -> KuasarSandbox {
    let mut sandbox = KuasarSandbox::new("test-sandbox", base_dir, data());
    sandbox.status = SandboxStatus::Created;
    sandbox.storages = storages;
    sandbox.id_generator = 1;
    sandbox
}

fn rootfs_mount() -> Mount {
    Mount {
        mount_type: "bind".to_string(),
        source: "/tmp/rootfs".to_string(),
        destination: "/".to_string(),
        options: vec!["ro".to_string()],
    }
}

fn storage(id: &str, container: &str, mount: &Mount) -> Storage {
    Storage {
        host_source: mount.source.clone(),
        mount_type: mount.mount_type.clone(),
        id: id.to_string(),
        device_id: None,
        ref_container: vec![container.to_string()],
        need_guest_handle: false,
        source: "".to_string(),
        driver: "".to_string(),
        driver_options: vec![],
        fstype: "test".to_string(),
        options: vec!["ro".to_string()],
        mount_point: format!("/run/kuasar/storage/containers/{}", id),
        owned_by_runtime: false,
        cleanup_path: None,
        lower_dirs: None,
    }
}

/// Detaches and forgets what nobody uses.
fn collect(sandbox: &mut KuasarSandbox, unused: Vec<Unused>) {
    for u in &unused {
        let shared = sandbox.get_sandbox_shared_path();
        assert!(matches!(
            detach_step(u, &sandbox.base_dir, &shared),
            DetachStep::Nothing
        ));
        sandbox.forget_storage(&u.id);
    }
}

#[test]
fn test_rootfs_storage_isolation() {
    let mount = rootfs_mount();
    let mut sandbox = sandbox("/tmp", vec![storage("storage1", "container1", &mount)]);

    // A second root file system does not use the storage again.
    let reusable = sandbox.find_reusable_storage(&mount, true);
    assert!(reusable.is_none());

    // A regular mount does.
    let reusable = sandbox.find_reusable_storage(&mount, false);
    assert!(reusable.is_some());
    assert_eq!(sandbox.storages[reusable.unwrap()].id, "storage1");

    sandbox
        .storages
        .push(storage("storage2", "container2", &mount));

    let unused = sandbox.deference_storage("container1", &mount);
    collect(&mut sandbox, unused);

    assert_eq!(sandbox.storages.len(), 1);
    assert_eq!(sandbox.storages[0].id, "storage2");
    assert!(sandbox.storages[0].is_used_by("container2"));
}

#[test]
fn test_detach_storage_not_found() {
    let sandbox = sandbox("/tmp/non-existent-dir-12345", vec![]);
    let unused = Unused {
        device_id: None,
        id: "storage1".to_string(),
        fstype: "bind".to_string(),
    };
    // The step names a path; that nothing is there is no failure of the step.
    match detach_step(&unused, &sandbox.base_dir, &sandbox.get_sandbox_shared_path()) {
        DetachStep::Unmount(path) => {
            assert_eq!(path, "/tmp/non-existent-dir-12345/shared/storage1")
        }
        _ => panic!("expected an unmount"),
    }
}

#[test]
fn attaching_uses_a_storage_again_or_numbers_a_new_one() {
    let mount = rootfs_mount();
    let mut sandbox = sandbox("/tmp", vec![storage("storage1", "c1", &mount)]);
    match sandbox.attach_storage("c2", &mount, false) {
        AttachStart::Reused(i) => assert_eq!(i, 0),
        AttachStart::Fresh(_) => panic!("expected reuse"),
    }
    assert!(sandbox.storages[0].is_used_by("c2"));
    assert_eq!(sandbox.id_generator, 1);
    match sandbox.attach_storage("c2", &mount, true) {
        AttachStart::Fresh(id) => assert_eq!(id, "storage2"),
        AttachStart::Reused(_) => panic!("expected a new storage"),
    }
    assert_eq!(sandbox.next_device_id(), "blk3");
    sandbox.keep_storage(shared_storage("storage2", &mount), "c2");
    assert_eq!(sandbox.storages.len(), 2);
    assert!(sandbox.storages[1].is_used_by("c2"));
}

#[test]
fn taking_a_use_back_undoes_adding_it() {
    let mount = rootfs_mount();
    let mut s = storage("s", "c1", &mount);
    s.refer("c2");
    s.refer("c2");
    s.defer("c2");
    assert!(s.is_used_by("c2"));
    s.defer("c2");
    s.defer("c2");
    assert!(!s.is_used_by("c2"));
    assert!(s.is_used());
    s.defer("c1");
    assert!(!s.is_used());
}

#[test]
fn container_gives_up_all_its_storages() {
    let mount = rootfs_mount();
    let mut other = rootfs_mount();
    other.source = "/other".to_string();
    let mut sandbox = sandbox(
        "/tmp",
        vec![
            storage("s1", "c1", &mount),
            storage("s2", "c2", &mount),
            storage("s3", "c1", &other),
        ],
    );
    let unused = sandbox.deference_container_storages("c1");
    let ids: Vec<&str> = unused.iter().map(|u| u.id.as_str()).collect();
    assert_eq!(ids, ["s1", "s3"]);
    collect(&mut sandbox, unused);
    assert_eq!(sandbox.storages.len(), 1);
    assert_eq!(sandbox.storages[0].id, "s2");
}

#[test]
fn ways_of_attaching() {
    let probe = |block, info, shm, bind, overlay| MountProbe {
        is_block_device: block,
        mount_info: info,
        is_bind_shm: shm,
        is_bind: bind,
        is_overlay: overlay,
    };
    let tmpfs = |at: &str| {
        Some(MountInfo {
            mount_point: at.to_string(),
            fs_type: "tmpfs".to_string(),
            options: vec![],
        })
    };
    let pod = "/var/lib/kubelet/pods/x/volumes/kubernetes.io~empty-dir/v";
    let way = |p: &MountProbe, blocks| choose_attach_way(p, blocks);
    assert_eq!(
        way(&probe(true, tmpfs(pod), true, true, true), false),
        AttachWay::BlockDevice
    );
    assert_eq!(
        way(&probe(false, tmpfs(pod), true, true, false), false),
        AttachWay::Tmpfs
    );
    assert_eq!(
        way(&probe(false, tmpfs("/tmp"), false, true, false), false),
        AttachWay::Bind
    );
    assert_eq!(
        way(&probe(false, None, true, true, false), false),
        AttachWay::Nothing
    );
    assert_eq!(
        way(&probe(false, None, false, true, false), true),
        AttachWay::BindBlk
    );
    assert_eq!(
        way(&probe(false, None, false, false, true), false),
        AttachWay::Overlay
    );
    assert_eq!(
        way(&probe(false, None, false, false, true), true),
        AttachWay::OverlayBlk
    );
    assert_eq!(
        way(&probe(false, None, false, false, false), true),
        AttachWay::Nothing
    );
}

#[test]
fn sources_that_cannot_be_attached() {
    let mut m = rootfs_mount();
    assert_eq!(check_source(&m, true, false), Ok(()));
    assert_eq!(check_source(&m, false, true), Ok(()));
    assert_eq!(check_source(&m, false, false), Err(AttachError::NotRegular));
    m.source = String::new();
    assert_eq!(check_source(&m, true, false), Err(AttachError::NoSource));
}

#[test]
fn new_storages() {
    let mut m = rootfs_mount();
    m.options.push("rbind".to_string());
    assert!(is_read_only(&m));
    let s = block_device_storage("storage7", &m, "blk8", "0000:00:07.0", "blk", "xfs");
    assert_eq!(s.options, ["ro"]);
    assert_eq!(s.mount_point, "/run/kuasar/storage/containers/storage7");
    assert_eq!(s.device_id.as_deref(), Some("blk8"));
    assert_eq!(s.source, "0000:00:07.0");
    assert_eq!(s.fstype, "xfs");
    assert!(s.need_guest_handle && !s.owned_by_runtime);

    let s = image_storage("storage7", &m, "blk8", "addr", "blk", "/run/sb");
    assert_eq!(s.fstype, "ext4");
    assert_eq!(s.cleanup_path.as_deref(), Some("/run/sb/storage7.img"));
    assert!(s.owned_by_runtime);

    let s = guest_file_storage("storage7", &m);
    assert_eq!(s.driver, "guest-file");
    assert!(!s.need_guest_handle);

    m.options = vec![];
    let info = MountInfo {
        mount_point: "/x".to_string(),
        fs_type: "tmpfs".to_string(),
        options: vec![
            "rw".to_string(),
            "size=64k".to_string(),
            "mode=777".to_string(),
        ],
    };
    let s = tmpfs_storage("storage7", &m, &info);
    assert_eq!(s.options, ["size=64k"]);
    assert_eq!(s.driver, "ephemeral");
    assert_eq!(s.source, "tmpfs");
}

#[test]
fn sizes_of_images() {
    assert_eq!(parse_dir_size_mb("120\t/some/dir\n"), 120);
    assert_eq!(parse_dir_size_mb("  7 x"), 7);
    assert_eq!(parse_dir_size_mb(""), 64);
    assert_eq!(parse_dir_size_mb("du: failed"), 64);
    assert_eq!(image_size_mb(ImageKind::Overlay, Some(100)), 184);
    assert_eq!(image_size_mb(ImageKind::Overlay, None), 140);
    assert_eq!(image_size_mb(ImageKind::Bind, Some(100)), 128);
    assert_eq!(image_size_mb(ImageKind::Bind, None), 17);
    assert_eq!(image_bytes(2), 2_097_152);
}

fn line(c: HostCommand) -> String {
    format!("{} {}", c.program, c.args.join(" "))
}

#[test]
fn commands_for_images() {
    assert_eq!(missing_tool(true, true), None);
    assert_eq!(missing_tool(false, false), Some("mkfs.ext4"));
    assert_eq!(missing_tool(true, false), Some("rsync"));
    assert_eq!(line(measure_command("/d")), "du -sm /d");
    assert_eq!(
        line(mkfs_command("/i.img")),
        "mkfs.ext4 -F -O ^has_journal -E lazy_itable_init=0,lazy_journal_init=0 /i.img"
    );
    assert_eq!(mount_dir("/i.img"), "/i.img.mnt");
    assert_eq!(
        line(mount_command("/i.img", "/i.img.mnt")),
        "mount -o loop /i.img /i.img.mnt"
    );
    assert_eq!(
        line(copy_command("/d", "/i.img.mnt")),
        "rsync -aHAX --delete /d/ /i.img.mnt/"
    );
    assert_eq!(line(unmount_command("/i.img.mnt")), "umount /i.img.mnt");
    assert_eq!(
        push_command(Some("/run/kuasar/state"), "/run/kuasar/state/s1"),
        "mkdir -p /run/kuasar/state && tee /run/kuasar/state/s1"
    );
    assert_eq!(push_command(None, "f"), "mkdir -p /tmp && tee f");
}

#[test]
fn image_does_not_stay_mounted() {
    assert_eq!(fill_steps().len(), 5);
    assert_eq!(
        after_failed_fill(FillStep::Copy, true),
        [FillStep::Unmount, FillStep::RemoveMountDir]
    );
    assert_eq!(
        after_failed_fill(FillStep::Mount, true),
        [FillStep::RemoveMountDir]
    );
    assert!(after_failed_fill(FillStep::Mount, false).is_empty());
    assert!(after_failed_fill(FillStep::MakeMountDir, true).is_empty());
    assert!(fails_fill(FillStep::Copy));
    assert!(!fails_fill(FillStep::Unmount));
}

#[test]
fn failed_layer_leaves_nothing() {
    assert_eq!(
        layer_steps(true),
        [
            LayerStep::MountOverlay,
            LayerStep::MakeImage,
            LayerStep::FillImage,
            LayerStep::UnmountOverlay,
            LayerStep::HotAttach
        ]
    );
    assert_eq!(
        layer_steps(false),
        [
            LayerStep::MakeImage,
            LayerStep::FillImage,
            LayerStep::HotAttach
        ]
    );
    assert_eq!(
        after_failed_layer(true, LayerStep::FillImage),
        [LayerUndo::UnmountOverlay, LayerUndo::RemoveImage]
    );
    assert_eq!(
        after_failed_layer(false, LayerStep::FillImage),
        [LayerUndo::RemoveImage]
    );
    assert_eq!(
        after_failed_layer(true, LayerStep::HotAttach),
        [LayerUndo::RemoveImage]
    );
    assert!(after_failed_layer(true, LayerStep::MountOverlay).is_empty());
    assert!(!fails_layer(LayerStep::UnmountOverlay));
    assert!(fails_layer(LayerStep::HotAttach));
    assert_eq!(bind_way(true), BindWay::PushFile);
    assert_eq!(bind_way(false), BindWay::MakeImage);
    assert_eq!(overlay_dir("/run/sb", "storage1"), "/run/sb/overlay-storage1");
    assert_eq!(shared_dest("/run/sb/shared", "storage1"), "/run/sb/shared/storage1");
}

#[test]
fn detaching_devices_and_binds() {
    let unused = |device: Option<&str>, fstype: &str| Unused {
        device_id: device.map(|d| d.to_string()),
        id: "storage1".to_string(),
        fstype: fstype.to_string(),
    };
    match detach_step(&unused(Some("blk2"), "ext4"), "/run/sb", "/run/sb/shared") {
        DetachStep::Unplug { device_id, image } => {
            assert_eq!(device_id, "blk2");
            assert_eq!(image.as_deref(), Some("/run/sb/storage1.img"));
        }
        _ => panic!("expected unplugging"),
    }
    match detach_step(&unused(Some("blk2"), "xfs"), "/run/sb", "/run/sb/shared") {
        DetachStep::Unplug { image, .. } => assert!(image.is_none()),
        _ => panic!("expected unplugging"),
    }
    assert!(matches!(
        detach_step(&unused(None, "tmpfs"), "/run/sb", "/run/sb/shared"),
        DetachStep::Nothing
    ));
}
