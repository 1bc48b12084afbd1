use vmm_sandboxer::cloud_hypervisor::appliance_factory::CloudHypervisorApplianceVMFactory;
use vmm_sandboxer::cloud_hypervisor::appliance_hooks::CloudHypervisorApplianceHooks;
use vmm_sandboxer::cloud_hypervisor::client::{
    hot_attached, may_retry_connect, net_added, net_answer, ChClient, NetConfig,
};
use vmm_sandboxer::cloud_hypervisor::config::CloudHypervisorVMConfig;
use vmm_sandboxer::cloud_hypervisor::factory::{
    CloudHypervisorVMFactory, CreateVmError, SandboxOption,
};
use vmm_sandboxer::cloud_hypervisor::hooks::{vcpus_of, CloudHypervisorHooks};
use vmm_sandboxer::cloud_hypervisor::vm::{
    affiliated_targets, after_kill, agent_poll, agent_timeout_message, awaits_end,
    check_recoverable, exit_report, kill_after_failed_restore, kill_after_failed_start,
    restore_steps, snapshot_url, stop_signal, vcpu_index, vcpu_threads, vmm_target, AfterKill,
    AgentPoll, CloudHypervisorVM, Device, DeviceInfo, KillOutcome, Liveness, RecoverError,
    RestoreStep, SnapshotFlow, SnapshotOutcome, SnapshotStep, StartStep, StopSignal, Task, VmError,
};
use vmm_sandboxer::guest_runtime::{GuestRuntime, RuntimeKind};
use vmm_sandboxer::json::parse;
use vmm_sandboxer::profile::SandboxProfile;
use vmm_sandboxer::sandbox::data::{LinuxResources, PodSandboxConfig, SandboxData};
use vmm_sandboxer::string_map::StringMap;
use vmm_sandboxer::vm::Pids;

fn json(text: &str) -> serde_json::Value {
    serde_json::from_str(text).unwrap()
}

fn data(annotations: &[(&str, &str)], resources: Option<LinuxResources>) -> SandboxData {
    let mut map = StringMap::new();
    for (k, v) in annotations {
        map.insert(k.to_string(), v.to_string());
    }
    SandboxData {
        id: "sb".to_string(),
        netns: "/run/netns/a".to_string(),
        task_address: "before".to_string(),
        labels: StringMap::new(),
        config: Some(PodSandboxConfig {
            hostname: "host".to_string(),
            annotations: map,
            dns_config: None,
            resources,
            cgroup_parent: String::new(),
            pid_namespace: None,
        }),
    }
}

fn option(annotations: &[(&str, &str)]) -> SandboxOption {
    SandboxOption {
        base_dir: "/run/sb".to_string(),
        sandbox: data(annotations, None),
    }
}

fn settings() -> CloudHypervisorVMConfig {
    let mut c = CloudHypervisorVMConfig::default();
    c.common.image_path = "/img".to_string();
    c.common.kernel_params = "quiet".to_string();
    c.entropy_source = "/dev/urandom".to_string();
    c
}

fn vm() -> CloudHypervisorVM {
    CloudHypervisorVM::new(
        "sb",
        "/run/netns/a",
        "/run/sb",
        &settings(),
        &SandboxProfile::Standard,
    )
}

fn device_ids(vm: &CloudHypervisorVM) -> Vec<String> {
    vm.devices
        .iter()
        .map(|d| match d {
            Device::Pmem { id, .. } => id.clone(),
            Device::Rng { id, .. } => id.clone(),
            Device::Vsock { id, .. } => id.clone(),
            Device::Console { id, .. } => id.clone(),
            Device::Fs { id, .. } => id.clone(),
            Device::Disk { id, .. } => id.clone(),
            Device::Net { id, .. } => id.clone(),
            Device::Vfio { id, .. } => id.clone(),
        })
        .collect()
}

#[test]
fn requests_without_a_body() {
    let client = ChClient::new("/run/sb/api.sock");
    assert_eq!(client.socket_path, "/run/sb/api.sock");
    let pause = client.pause();
    assert_eq!(pause.command, "pause");
    assert!(pause.body.is_none());
    let resume = client.resume();
    assert_eq!(resume.command, "resume");
    assert!(resume.body.is_none());
}

#[test]
fn snapshot_and_restore_requests() {
    let client = ChClient::new("s");
    let r = client.snapshot("file:///snap");
    assert_eq!(r.command, "snapshot");
    assert_eq!(r.body.unwrap(), r#"{"destination_url":"file:///snap"}"#);
    let r = client.restore("file:///snap", true);
    assert_eq!(r.command, "restore");
    assert_eq!(
        json(&r.body.unwrap()),
        json(r#"{"source_url":"/snap","prefault":true}"#)
    );
    let r = client.restore("file://file:///snap", false);
    assert_eq!(
        json(&r.body.unwrap()),
        json(r#"{"source_url":"/snap","prefault":false}"#)
    );
}

#[test]
fn hot_plug_requests() {
    let client = ChClient::new("s");
    let r = client.hot_attach("blk0", "/dev/loop0", true);
    assert_eq!(r.command, "vm.add-disk");
    assert_eq!(
        json(&r.body.unwrap()),
        json(
            r#"{"path":"/dev/loop0","readonly":true,"direct":true,
                "vhost_user":false,"vhost_socket":null,"id":"blk0"}"#
        )
    );
    let r = client.hot_detach("blk0");
    assert_eq!(r.command, "remove-device");
    assert_eq!(r.body.unwrap(), r#"{"id":"blk0"}"#);
}

#[test]
fn network_request_leaves_out_what_is_not_set() {
    let client = ChClient::new("s");
    let bare = NetConfig {
        id: "net0".to_string(),
        tap: None,
        mac: None,
        fds: vec![],
        num_queues: None,
    };
    assert_eq!(client.add_net(&bare).body.unwrap(), r#"{"id":"net0"}"#);
    let full = NetConfig {
        id: "net0".to_string(),
        tap: Some("tap0".to_string()),
        mac: Some("aa:bb".to_string()),
        fds: vec![3, -1],
        num_queues: Some(2),
    };
    let r = client.add_net(&full);
    assert_eq!(r.command, "vm.add-net");
    assert_eq!(
        json(&r.body.unwrap()),
        json(r#"{"id":"net0","tap":"tap0","mac":"aa:bb","fds":[3,-1],"num_queues":2}"#)
    );
}

#[test]
fn answers_to_hot_plugging() {
    assert_eq!(
        hot_attached(Some(("{}", Ok("0000:00:06.0".to_string())))).unwrap(),
        "0000:00:06.0"
    );
    assert_eq!(hot_attached(None).unwrap_err(), "no response body from server");
    assert_eq!(
        hot_attached(Some(("nonsense", Err("expected ident".to_string())))).unwrap_err(),
        "failed to unmarshal response nonsense, expected ident"
    );
    let read = |text: &str| net_answer(&parse(text).unwrap());
    let answer = read(r#"{"id":"n","bdf":"x"}"#).unwrap();
    assert_eq!((answer.id.as_str(), answer.bdf.as_str()), ("n", "x"));
    assert_eq!(net_added(Some(Ok(answer))).unwrap().as_deref(), Some("x"));
    assert_eq!(read(r#"["n","x"]"#).unwrap().bdf, "x");
    assert!(read(r#"["n","x","y"]"#).is_none());
    assert!(read(r#"{"bdf":"x"}"#).is_none());
    assert_eq!(net_added(None).unwrap(), None);
    assert_eq!(
        net_added(Some(Err("missing field `id`".to_string()))).unwrap_err(),
        "failed to parse add-net response: missing field `id`"
    );
}

#[test]
fn connecting_ends_after_the_timeout() {
    assert!(may_retry_connect(10));
    assert!(!may_retry_connect(11));
}

#[test]
fn standard_guest_has_its_devices_in_order() {
    let factory = CloudHypervisorVMFactory::new(settings(), SandboxProfile::Standard);
    assert!(factory.supports_appliance_mode());
    let vm = factory.create_vm("sb", &option(&[])).ok().unwrap();
    assert_eq!(
        device_ids(&vm),
        ["rootfs", "rng", "vsock", "console", "fs"]
    );
    assert_eq!(vm.agent_socket, "hvsock:///run/sb/task.vsock:1024");
    assert_eq!(vm.config.api_socket, "/run/sb/api.sock");
    assert_eq!(vm.virtiofsd_config.socket_path, "/run/sb/virtiofs.sock");
    assert_eq!(vm.virtiofsd_config.shared_dir, "/run/sb/shared");
    assert_eq!(vm.netns, "/run/netns/a");
    assert_eq!(vm.vsock_path(), "/run/sb/task.vsock");
    assert_eq!(vm.console_log_path(), "/tmp/sb-task.log");
    assert!(!vm.config.cmdline.contains("KUASAR_SANDBOX_ID"));
}

#[test]
fn guest_without_image_or_entropy_lacks_those_devices() {
    let mut c = settings();
    c.common.image_path = String::new();
    c.entropy_source = String::new();
    c.common.sharefs_type = "virtio-blk".to_string();
    c.virtiofsd.socket_path = String::new();
    let factory = CloudHypervisorVMFactory::new(c, SandboxProfile::Standard);
    let vm = factory.create_vm("sb", &option(&[])).ok().unwrap();
    assert_eq!(device_ids(&vm), ["vsock", "console"]);
}

#[test]
fn appliance_guest_takes_image_from_its_pod() {
    let mut c = settings();
    c.appliance_app = "/bin/app".to_string();
    let factory = CloudHypervisorVMFactory::new(c, SandboxProfile::Appliance);
    assert_eq!(factory.appliance_default_app(), "/bin/app");
    let vm = factory
        .create_vm("sb", &option(&[("io.kuasar.appliance.image", "/own.img")]))
        .ok()
        .unwrap();
    match &vm.devices[0] {
        Device::Pmem { path, .. } => assert_eq!(path, "/own.img"),
        _ => panic!("no image"),
    }
    assert_eq!(device_ids(&vm), ["rootfs", "rng", "vsock", "console"]);
    assert_eq!(vm.agent_socket, "unix:///run/sb/task.vsock_1024");
    assert!(vm.config.cmdline.ends_with(" KUASAR_SANDBOX_ID=sb"));
}

#[test]
fn appliance_guest_needs_image_and_app() {
    let mut c = settings();
    c.common.image_path = String::new();
    let factory = CloudHypervisorVMFactory::new(c, SandboxProfile::Appliance);
    assert_eq!(
        factory.create_vm("sb", &option(&[])).err().unwrap(),
        CreateVmError::MissingImage
    );
    let factory = CloudHypervisorVMFactory::new(settings(), SandboxProfile::Appliance);
    assert_eq!(
        factory.create_vm("sb", &option(&[])).err().unwrap(),
        CreateVmError::MissingApp
    );
    assert!(factory
        .create_vm("sb", &option(&[("io.kuasar.appliance.app", "/bin/x")]))
        .is_ok());
}

#[test]
fn appliance_factory_shares_no_directory() {
    let factory = CloudHypervisorApplianceVMFactory::new(settings());
    let vm = factory.create_vm("sb", &option(&[]));
    assert_eq!(device_ids(&vm), ["rootfs", "rng", "vsock", "console"]);
    assert_eq!(vm.agent_socket, "unix:///run/sb/task.vsock_1024");
}

#[test]
fn vcpus_are_rounded_up() {
    let r = |quota: i64, period: i64| {
        vcpus_of(&LinuxResources {
            cpu_period: period,
            cpu_quota: quota,
            memory_limit_in_bytes: 0,
        })
    };
    assert_eq!(r(100_000, 100_000), Some(1));
    assert_eq!(r(150_000, 100_000), Some(2));
    assert_eq!(r(1, 100_000), Some(1));
    assert_eq!(r(-1, 100_000), None);
    assert_eq!(r(100_000, 0), None);
    assert_eq!(r(i64::MAX, 1), Some(u32::MAX));
    // Beyond 53 binary digits the rest does not count.
    assert_eq!(r((1 << 60) + 1, 1 << 40), Some(1_048_576));
    assert_eq!(r((1 << 53) + 1, 1 << 53), Some(1));
    assert_eq!(r((1 << 53) + 2, 1 << 53), Some(2));
}

#[test]
fn processors_are_counted_in_double_precision() {
    let mut state: u64 = 0x9e37_79b9_7f4a_7c15;
    let mut draw = || {
        state ^= state << 13;
        state ^= state >> 7;
        state ^= state << 17;
        state
    };
    for _ in 0..200_000 {
        let quota = (draw() >> (1 + draw() % 62)) as i64;
        let mut period = (draw() >> (1 + draw() % 62)) as i64;
        if draw() % 2 == 0 && quota > 0 && period > 0 {
            // Next to a multiple of the period.
            period = quota / (period % 5_000_000 + 1) + (draw() % 3) as i64 - 1;
        }
        if quota <= 0 || period <= 0 {
            continue;
        }
        let limits = LinuxResources {
            cpu_period: period,
            cpu_quota: quota,
            memory_limit_in_bytes: 0,
        };
        let expected = (quota as f64 / period as f64).ceil() as u32;
        assert_eq!(vcpus_of(&limits), Some(expected), "{} / {}", quota, period);
    }
}

#[test]
fn limits_of_a_pod_reach_its_guest() {
    let mut guest = vm();
    let hooks = CloudHypervisorHooks::new(SandboxProfile::Standard);
    let limits = LinuxResources {
        cpu_period: 100_000,
        cpu_quota: 250_000,
        memory_limit_in_bytes: 4096,
    };
    assert!(hooks.pre_start(&mut guest, &data(&[], Some(limits))));
    assert_eq!(guest.config.cpus.boot, 3);
    assert_eq!(guest.config.cpus.max, Some(3));
    assert_eq!(guest.config.memory.size, 4096);

    let mut guest = vm();
    assert!(!CloudHypervisorHooks::new(SandboxProfile::Appliance)
        .pre_start(&mut guest, &data(&[], None)));
    assert_eq!(guest.config.cpus.boot, 1);
    assert_eq!(guest.config.memory.size, 1024 * 1024 * 1024);

    let mut guest = vm();
    let limits = LinuxResources {
        cpu_period: 0,
        cpu_quota: 0,
        memory_limit_in_bytes: 8192,
    };
    CloudHypervisorApplianceHooks {}.pre_start(&mut guest, &data(&[], Some(limits)));
    assert_eq!(guest.config.memory.size, 8192);
    assert_eq!(guest.config.cpus.max, None);
}

#[test]
fn task_address_only_of_standard_guests() {
    let mut d = data(&[], None);
    assert!(CloudHypervisorHooks::new(SandboxProfile::Standard).post_start(&mut d, "hvsock://x"));
    assert_eq!(d.task_address, "ttrpc+hvsock://x");
    let mut d = data(&[], None);
    assert!(!CloudHypervisorHooks::new(SandboxProfile::Appliance).post_start(&mut d, "unix://x"));
    assert_eq!(d.task_address, "before");
}

#[test]
fn runtime_follows_the_profile() {
    assert!(matches!(
        CloudHypervisorHooks::new(SandboxProfile::Standard).post_create(),
        RuntimeKind::VmmTask
    ));
    let (kind, runtime) = CloudHypervisorApplianceHooks {}.post_create("sb");
    assert!(matches!(kind, RuntimeKind::Appliance));
    assert_eq!(runtime.sandbox_id, "sb");
    match SandboxProfile::Appliance.create_runtime("sb", "/bin/app") {
        GuestRuntime::Appliance(r) => {
            assert_eq!(r.sandbox_id, "sb");
            assert_eq!(r.default_app, "/bin/app");
        }
        GuestRuntime::VmmTask(_) => panic!("wrong runtime"),
    }
    match SandboxProfile::Standard.create_runtime("sb", "") {
        GuestRuntime::VmmTask(r) => assert!(!r.is_connected()),
        GuestRuntime::Appliance(_) => panic!("wrong runtime"),
    }
}

#[test]
fn descriptors_are_numbered_behind_the_standard_streams() {
    let mut guest = vm();
    assert_eq!(guest.append_fd(40), 3);
    guest.attach(DeviceInfo::Tap {
        id: "net0".to_string(),
        name: "tap0".to_string(),
        mac_address: "aa:bb".to_string(),
        fds: vec![50, 51],
    });
    assert_eq!(guest.fds, [40, 50, 51]);
    match guest.devices.last().unwrap() {
        Device::Net { fds, name, mac, .. } => {
            assert_eq!(fds, &[4, 5]);
            assert_eq!(name, "tap0");
            assert_eq!(mac, "aa:bb");
        }
        _ => panic!("no network device"),
    }
    guest.attach(DeviceInfo::Block {
        id: "blk0".to_string(),
        path: "/dev/loop0".to_string(),
        read_only: true,
    });
    match guest.devices.last().unwrap() {
        Device::Disk { read_only, direct, .. } => assert!(*read_only && *direct),
        _ => panic!("no disk"),
    }
    guest.attach(DeviceInfo::Physical {
        id: "vf0".to_string(),
        bdf: "0000:01:00.0".to_string(),
    });
    assert_eq!(device_ids(&guest), ["net0", "blk0", "vf0"]);
}

#[test]
fn guest_without_process_or_connection() {
    let mut guest = vm();
    assert_eq!(guest.pid().unwrap_err(), VmError::NoPid);
    assert_eq!(guest.check_client().unwrap_err(), VmError::NoClient);
    guest.pids.vmm_pid = Some(7);
    guest.client = true;
    assert_eq!(guest.pid().unwrap(), 7);
    assert!(guest.check_client().is_ok());
}

#[test]
fn guest_without_a_known_agent_counts_as_alive() {
    let mut guest = vm();
    guest.agent_socket = String::new();
    assert!(!guest.asks_agent());
    assert!(guest.ping(false, false).is_ok());
    guest.agent_socket = "hvsock:///run/task.vsock:1024".to_string();
    assert!(guest.asks_agent());
    assert!(guest.ping(true, true).is_ok());
    assert_eq!(guest.ping(false, false).unwrap_err(), VmError::NoAgent);
    assert_eq!(guest.ping(true, false).unwrap_err(), VmError::NoAnswer);
}

#[test]
fn command_lines_of_the_hypervisor() {
    let mut guest = vm();
    guest.config.debug = true;
    let params = guest.start_params(vec!["--rng".to_string(), "src=/dev/urandom".to_string()]);
    let n = params.len();
    assert_eq!(params[0], "--api-socket");
    assert_eq!(params[n - 3..], ["--rng", "src=/dev/urandom", "-vv"]);
    assert_eq!(
        guest.restore_params(),
        ["--api-socket", "/run/sb/api.sock", "-vv"]
    );
    guest.config.debug = false;
    assert_eq!(guest.restore_params(), ["--api-socket", "/run/sb/api.sock"]);
}

#[test]
fn starting_and_failing_to_start() {
    let mut guest = vm();
    assert_eq!(
        guest.start_steps(),
        [
            StartStep::CreateDir,
            StartStep::StartVirtiofsd,
            StartStep::Spawn,
            StartStep::Connect
        ]
    );
    guest.sharefs_type = "virtio-blk".to_string();
    let steps = guest.start_steps();
    assert_eq!(
        steps,
        [
            StartStep::CreateDir,
            StartStep::CheckBlockTools,
            StartStep::Spawn,
            StartStep::Connect
        ]
    );
    for (i, step) in steps.iter().enumerate() {
        let spawned = steps[..i].contains(&StartStep::Spawn);
        assert_eq!(kill_after_failed_start(*step), spawned);
    }
}

#[test]
fn stopping_a_guest() {
    assert_eq!(stop_signal(true), StopSignal::Kill);
    assert_eq!(stop_signal(false), StopSignal::Term);
    assert_eq!(
        after_kill(KillOutcome::Delivered),
        AfterKill::WaitThenStopOthers
    );
    assert_eq!(after_kill(KillOutcome::NoSuchProcess), AfterKill::StopOthers);
    assert_eq!(after_kill(KillOutcome::Failed), AfterKill::Fail);
    let pids = Pids {
        vmm_pid: Some(0),
        affiliated_pids: vec![5, 0, 6],
    };
    assert_eq!(vmm_target(&pids), None);
    assert_eq!(affiliated_targets(&pids), [5, 6]);
    assert!(awaits_end(Some(0)));
    assert!(!awaits_end(Some(9)));
    assert!(!awaits_end(None));
    assert_eq!(exit_report(Some(3), 9), (3, 9));
    assert_eq!(exit_report(None, 9), (0, 9));
}

#[test]
fn threads_of_virtual_processors() {
    assert_eq!(vcpu_index("vcpu12"), Some(12));
    assert_eq!(vcpu_index("vcpu"), None);
    assert_eq!(vcpu_index("vmm"), None);
    let task = |comm: &str, tid: i64| Task {
        comm: comm.to_string(),
        tid,
    };
    let threads = vcpu_threads(&vec![
        task("vmm", 1),
        task("vcpu0", 2),
        task("vcpu1", 3),
        task("vcpux", 4),
        task("vcpu0", 5),
    ]);
    assert_eq!(threads.len(), 2);
    assert_eq!(threads[&0], 5);
    assert_eq!(threads[&1], 3);
}

#[test]
fn taking_up_a_guest_fails_fast() {
    let pids = |pid| Pids {
        vmm_pid: pid,
        affiliated_pids: vec![],
    };
    let alive = |process, api_socket| Liveness {
        process,
        api_socket,
    };
    assert_eq!(
        check_recoverable(&pids(None), alive(true, true)).unwrap_err(),
        RecoverError::NoPid
    );
    assert_eq!(
        check_recoverable(&pids(Some(7)), alive(false, true)).unwrap_err(),
        RecoverError::ProcessGone
    );
    assert_eq!(
        check_recoverable(&pids(Some(7)), alive(true, false)).unwrap_err(),
        RecoverError::SocketGone
    );
    assert_eq!(check_recoverable(&pids(Some(7)), alive(true, true)), Ok(7));
}

#[test]
fn paused_guest_is_always_resumed() {
    let mut flow = SnapshotFlow::new();
    assert_eq!(
        flow.advance(false),
        SnapshotOutcome::Running(SnapshotStep::Pause)
    );
    assert_eq!(
        flow.advance(true),
        SnapshotOutcome::Running(SnapshotStep::Snapshot)
    );
    assert!(flow.paused);
    assert_eq!(
        flow.advance(false),
        SnapshotOutcome::Running(SnapshotStep::Resume)
    );
    assert_eq!(flow.advance(true), SnapshotOutcome::SnapshotFailed);
    assert!(!flow.paused);

    let mut flow = SnapshotFlow::new();
    flow.advance(true);
    assert_eq!(flow.advance(false), SnapshotOutcome::PauseFailed);

    let mut flow = SnapshotFlow::new();
    flow.advance(true);
    flow.advance(true);
    flow.advance(true);
    assert_eq!(flow.advance(false), SnapshotOutcome::Done);
    assert!(flow.paused && flow.written);
}

#[test]
fn restoring_a_guest() {
    let steps = restore_steps(false, false);
    assert_eq!(
        steps,
        [
            RestoreStep::CreateWorkDir,
            RestoreStep::PatchConfig,
            RestoreStep::LinkMemory,
            RestoreStep::LinkState,
            RestoreStep::Spawn,
            RestoreStep::Connect,
            RestoreStep::Restore,
            RestoreStep::Resume,
            RestoreStep::WaitAgent,
        ]
    );
    assert_eq!(snapshot_url("/work"), "file:///work");
}

#[test]
fn what_is_linked_is_not_linked_again() {
    let steps = restore_steps(true, false);
    assert_eq!(steps.len(), 8);
    assert_eq!(steps[2], RestoreStep::LinkState);
    let steps = restore_steps(false, true);
    assert_eq!(steps[2], RestoreStep::LinkMemory);
    assert_eq!(steps[3], RestoreStep::Spawn);
    assert_eq!(restore_steps(true, true)[2], RestoreStep::Spawn);
}

#[test]
fn failed_restore_kills_what_runs() {
    assert!(!kill_after_failed_restore(RestoreStep::LinkState));
    assert!(!kill_after_failed_restore(RestoreStep::Spawn));
    assert!(kill_after_failed_restore(RestoreStep::Connect));
    assert!(!kill_after_failed_restore(RestoreStep::Restore));
    assert!(!kill_after_failed_restore(RestoreStep::Resume));
    assert!(kill_after_failed_restore(RestoreStep::WaitAgent));
}

#[test]
fn test_wait_agent_ready_times_out() {
    // Nothing listens on the socket, so no attempt connects within one second.
    let mut elapsed_ms: u64 = 0;
    let mut outcome = agent_poll(false, false, elapsed_ms, 1);
    while outcome == AgentPoll::Again {
        elapsed_ms += 100;
        outcome = agent_poll(false, false, elapsed_ms, 1);
    }
    assert_eq!(outcome, AgentPoll::TimedOut);
    assert_eq!(elapsed_ms, 1000);
    let msg = agent_timeout_message(1);
    assert!(msg.contains("timeout"));
    assert_eq!(msg, "1s timeout waiting for agent ready after restore");
    assert_eq!(agent_poll(true, true, 5000, 1), AgentPoll::Ready);
    assert_eq!(agent_poll(true, false, 0, 1), AgentPoll::Again);
}
