use vmm_sandboxer::cloud_hypervisor::config::{
    ApplianceFsType, CloudHypervisorConfig, CloudHypervisorVMConfig, Cpus, Memory, TaskConfig,
    VirtiofsdConfig,
};
use vmm_sandboxer::profile::SandboxProfile;
use vmm_sandboxer::sandbox::config::{SandboxConfig, SnapshotConfig};
use vmm_sandboxer::vm::HypervisorCommonConfig;

#[test]
fn test_cmdline() {
    let config = CloudHypervisorConfig {
        path: "/use/local/bin/cloud-hypervisor".to_string(),
        api_socket: "/tmp/test-api.sock".to_string(),
        cpus: Cpus {
            boot: 2,
            max: None,
            topology: Some("1:1:2:2".to_string()),
            affinity: vec!["[0@[0-3],1@[4-5,8]]".to_string()],
            features: vec!["amx".to_string()],
        },
        memory: Memory {
            size: 1024 * 1024 * 1024 * 4,
            shared: false,
            hugepages: true,
            hugepage_size: Some("2M".to_string()),
            prefault: None,
            thp: None,
        },
        kernel: "/path/to/kernel".to_string(),
        cmdline: "task.sharefs_type=virtiofs".to_string(),
        initramfs: None,
        log_file: None,
        debug: false,
    };
    let params = config.to_cmdline_params("--");
    assert_eq!(params[0], "--api-socket");
    assert_eq!(params[1], "/tmp/test-api.sock");
    assert_eq!(params[2], "--cpus");
    assert_eq!(
        params[3],
        "boot=2,topology=1:1:2:2,affinity=[0@[0-3],1@[4-5,8]],features=amx"
    );
    assert_eq!(params[4], "--memory");
    assert_eq!(
        params[5],
        "size=4294967296,shared=off,hugepages=on,hugepage_size=2M"
    );
    assert_eq!(params[6], "--kernel");
    assert_eq!(params[7], "/path/to/kernel");
    assert_eq!(params[8], "--cmdline");
    assert_eq!(params[9], "task.sharefs_type=virtiofs");
}

fn standard_config() -> CloudHypervisorVMConfig {
    CloudHypervisorVMConfig {
        path: "/usr/local/bin/cloud-hypervisor".to_string(),
        common: HypervisorCommonConfig {
            vcpus: 1,
            memory_in_mb: 1024,
            kernel_path: "/var/lib/kuasar/vmlinux.bin".to_string(),
            image_path: "/var/lib/kuasar/kuasar.img".to_string(),
            initrd_path: "".to_string(),
            kernel_params: "".to_string(),
            ..HypervisorCommonConfig::default()
        },
        hugepages: true,
        entropy_source: "/dev/urandom".to_string(),
        task: TaskConfig { debug: true, enable_tracing: false },
        virtiofsd: VirtiofsdConfig {
            path: "/usr/local/bin/virtiofsd".to_string(),
            log_level: "info".to_string(),
            cache: "never".to_string(),
            thread_pool_size: 4,
            ..VirtiofsdConfig::default()
        },
        ..CloudHypervisorVMConfig::default()
    }
}

#[test]
fn test_task_cmdline() {
    let chc = CloudHypervisorConfig::from(&standard_config(), &SandboxProfile::Standard);
    assert_eq!(chc.cmdline, "console=hvc0 root=/dev/pmem0p1 rootflags=data=ordered,errors=remount-ro ro rootfstype=ext4 task.sharefs_type=virtiofs  task.log_level=debug task.enable_tracing=false");
}

fn appliance_vm_config(fs_type: ApplianceFsType) -> CloudHypervisorVMConfig {
    CloudHypervisorVMConfig {
        appliance_fs_type: fs_type,
        ..CloudHypervisorVMConfig::default()
    }
}

#[test]
fn test_appliance_ext4_cmdline() {
    let vm_cfg = appliance_vm_config(ApplianceFsType::Ext4);
    let chc = CloudHypervisorConfig::from(&vm_cfg, &SandboxProfile::Appliance);

    assert!(
        chc.cmdline.contains("rootfstype=ext4"),
        "expected ext4 in cmdline, got: {}",
        chc.cmdline
    );
    assert!(
        chc.cmdline.contains("root=/dev/pmem0 ") || chc.cmdline.ends_with("root=/dev/pmem0"),
        "appliance ext4 must use whole-device (flat image), got: {}",
        chc.cmdline
    );
    assert!(
        !chc.cmdline.contains("root=/dev/pmem0p"),
        "appliance ext4 must NOT use a partition suffix (image is flat), got: {}",
        chc.cmdline
    );
    assert!(
        !chc.cmdline.contains("task.sharefs_type"),
        "virtiofs param must be absent in Appliance mode"
    );
    assert!(
        !chc.cmdline.contains("task.enable_tracing"),
        "vmm-task param must be absent in Appliance mode"
    );
}

#[test]
fn test_appliance_erofs_cmdline() {
    let vm_cfg = appliance_vm_config(ApplianceFsType::Erofs);
    let chc = CloudHypervisorConfig::from(&vm_cfg, &SandboxProfile::Appliance);

    assert!(
        chc.cmdline.contains("rootfstype=erofs"),
        "expected erofs in cmdline, got: {}",
        chc.cmdline
    );
    assert!(
        !chc.cmdline.contains("task.sharefs_type"),
        "virtiofs param must be absent in Appliance mode"
    );
}

#[test]
fn test_appliance_default_fs_type_is_ext4() {
    let vm_cfg = CloudHypervisorVMConfig::default();
    assert_eq!(vm_cfg.appliance_fs_type, ApplianceFsType::Ext4);
    let chc = CloudHypervisorConfig::from(&vm_cfg, &SandboxProfile::Appliance);
    assert!(chc.cmdline.contains("rootfstype=ext4"));
}

#[test]
fn test_standard_mode_unaffected_by_fs_type_field() {
    // appliance_fs_type must have no effect when profile is Standard.
    let vm_cfg = appliance_vm_config(ApplianceFsType::Erofs);
    let chc = CloudHypervisorConfig::from(&vm_cfg, &SandboxProfile::Standard);
    assert!(chc.cmdline.contains("rootfstype=ext4"));
    assert!(chc.cmdline.contains("task.sharefs_type=virtiofs"));
}

fn text(t: &toml::Table, key: &str) -> String {
    t[key].as_str().unwrap().to_string()
}

fn number(t: &toml::Table, key: &str) -> u32 {
    u32::try_from(t[key].as_integer().unwrap()).unwrap()
}

fn sandbox_config(content: &str) -> SandboxConfig {
    let file: toml::Table = content.parse().unwrap();
    SandboxConfig {
        log_level: String::new(),
        enable_tracing: file["sandbox"]["enable_tracing"].as_bool().unwrap(),
        snapshot: SnapshotConfig::default(),
    }
}

fn hypervisor_config(content: &str) -> CloudHypervisorVMConfig {
    let file: toml::Table = content.parse().unwrap();
    let h = file["hypervisor"].as_table().unwrap();
    let task = h["task"].as_table().unwrap();
    let fsd = h["virtiofsd"].as_table().unwrap();
    CloudHypervisorVMConfig {
        path: text(h, "path"),
        common: HypervisorCommonConfig {
            vcpus: number(h, "vcpus"),
            memory_in_mb: number(h, "memory_in_mb"),
            kernel_path: text(h, "kernel_path"),
            image_path: text(h, "image_path"),
            initrd_path: text(h, "initrd_path"),
            kernel_params: text(h, "kernel_params"),
            ..HypervisorCommonConfig::default()
        },
        hugepages: h["hugepages"].as_bool().unwrap(),
        entropy_source: text(h, "entropy_source"),
        task: TaskConfig {
            debug: task["debug"].as_bool().unwrap(),
            enable_tracing: task["enable_tracing"].as_bool().unwrap(),
        },
        virtiofsd: VirtiofsdConfig {
            path: text(fsd, "path"),
            log_level: text(fsd, "log_level"),
            cache: text(fsd, "cache"),
            thread_pool_size: number(fsd, "thread_pool_size"),
            ..VirtiofsdConfig::default()
        },
        appliance_fs_type: ApplianceFsType::from_setting(
            h.get("appliance_fs_type").map(|name| name.as_str().unwrap()),
        )
        .unwrap(),
        appliance_app: String::new(),
    }
}

#[test]
fn test_toml() {
    let toml_str = "
[sandbox]
enable_tracing = false
[hypervisor]
path = \"/usr/local/bin/cloud-hypervisor\"
vcpus = 1
memory_in_mb = 1024
kernel_path = \"/var/lib/kuasar/vmlinux.bin\"
image_path = \"/var/lib/kuasar/kuasar.img\"
initrd_path = \"\"
kernel_params = \"\"
hugepages = true
entropy_source = \"/dev/urandom\"
[hypervisor.task]
debug = true
enable_tracing = false
[hypervisor.virtiofsd]
path = \"/usr/local/bin/virtiofsd\"
log_level = \"info\"
cache = \"never\"
thread_pool_size = 4
";
    let sandbox = sandbox_config(toml_str);
    assert_eq!(sandbox.enable_tracing, false);
    assert!(!sandbox.enable_tracing());
    let hypervisor = hypervisor_config(toml_str);
    assert_eq!(hypervisor.path, "/usr/local/bin/cloud-hypervisor");
    assert_eq!(hypervisor.common.kernel_path, "/var/lib/kuasar/vmlinux.bin");
    assert_eq!(hypervisor.task.debug, true);
    assert_eq!(hypervisor.task.enable_tracing, false);

    assert_eq!(hypervisor.common.vcpus, 1);
    assert!(hypervisor.hugepages);
    assert_eq!(hypervisor.virtiofsd.thread_pool_size, 4);
    assert_eq!(hypervisor.virtiofsd.path, "/usr/local/bin/virtiofsd");
}

#[test]
fn test_appliance_fs_type_toml_default() {
    // When appliance_fs_type is absent from the TOML the field defaults to Ext4.
    let toml_str = "
[sandbox]
enable_tracing = false
[hypervisor]
path = \"/usr/local/bin/cloud-hypervisor\"
vcpus = 1
memory_in_mb = 1024
kernel_path = \"/var/lib/kuasar/vmlinux.bin\"
image_path = \"/var/lib/kuasar/appliance.img\"
initrd_path = \"\"
kernel_params = \"\"
hugepages = false
entropy_source = \"/dev/urandom\"
[hypervisor.task]
debug = false
enable_tracing = false
[hypervisor.virtiofsd]
path = \"/usr/local/bin/virtiofsd\"
log_level = \"info\"
cache = \"never\"
thread_pool_size = 4
";
    let hypervisor = hypervisor_config(toml_str);
    assert_eq!(hypervisor.appliance_fs_type, ApplianceFsType::Ext4);
}

#[test]
fn test_appliance_fs_type_toml_erofs() {
    let toml_str = "
[sandbox]
enable_tracing = false
[hypervisor]
path = \"/usr/local/bin/cloud-hypervisor\"
vcpus = 1
memory_in_mb = 1024
kernel_path = \"/var/lib/kuasar/vmlinux.bin\"
image_path = \"/var/lib/kuasar/appliance.erofs\"
initrd_path = \"\"
kernel_params = \"\"
hugepages = false
entropy_source = \"/dev/urandom\"
appliance_fs_type = \"erofs\"
[hypervisor.task]
debug = false
enable_tracing = false
[hypervisor.virtiofsd]
path = \"/usr/local/bin/virtiofsd\"
log_level = \"info\"
cache = \"never\"
thread_pool_size = 4
";
    let hypervisor = hypervisor_config(toml_str);
    assert_eq!(hypervisor.appliance_fs_type, ApplianceFsType::Erofs);
    let chc = CloudHypervisorConfig::from(&hypervisor, &SandboxProfile::Appliance);
    assert!(chc.cmdline.contains("rootfstype=erofs"));
    assert_eq!(ApplianceFsType::from_name("xfs"), None);
    assert_eq!(ApplianceFsType::from_setting(Some("xfs")), None);
}
