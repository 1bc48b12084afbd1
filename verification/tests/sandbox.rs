use vmm_sandboxer::cloud_hypervisor::vm::AGENT_READY_TIMEOUT_SECS;
use vmm_sandboxer::guest_runtime::appliance::{ApplianceRuntime, APPLIANCE_READY_TIMEOUT_SECS};
use vmm_sandboxer::guest_runtime::{GuestRuntime, RuntimeKind};
use vmm_sandboxer::json::to_compact;
use vmm_sandboxer::sandbox::config::{
    MemoryRestoreMode, SandboxConfig, SnapshotConfig, TemplateLeaseMode,
};
use vmm_sandboxer::sandbox::containers::{
    identity_steps, remove_steps, reports_event_error, IdentityStep, NetworkNews, RemoveStep,
};
use vmm_sandboxer::sandbox::data::{
    DnsConfig, LinuxResources, NamespaceMode, PodSandboxConfig, SandboxData,
};
use vmm_sandboxer::sandbox::files::{
    dump_path, has_shared_pid_namespace, hostname_file, network_queues, push_sandbox_files,
    resolv_file,
};
use vmm_sandboxer::sandbox::inject::{
    check_failure_message, check_inject_socket, check_injected, inject_request,
    start_failure_message, AgentReply, CheckResult, InjectError, TargetResult, CHECK_TIMEOUT_MS,
};
use vmm_sandboxer::sandbox::intent::{
    plan_start, Attempt, Fallback, IntentError, StartError, StartMove,
};
use vmm_sandboxer::sandbox::lifecycle::{
    boot_steps, boot_stops_vm, cold_rollback, cold_steps, collects_continuations,
    create_removes_cgroups, create_steps, delete_steps, ends_deletion, goes_on_without_container,
    init_client, stop_request_steps, BootStep, ClientStep, ColdStep, CreateStep, DeleteStep,
    StopPlan, StopRequestStep, UndoStep,
};
use vmm_sandboxer::sandbox::pool_start::{
    after_pool_attempt, minimal_warmup_oci_spec, parse_template_request, sandbox_template,
    starts_from_pool, template_disks, template_made, template_snapshot_dir, warmup_container,
    PoolAttempt, TemplateRequest, TemplateRequestFault,
};
use vmm_sandboxer::sandbox::recover::{
    recover, recover_stops_sandbox, to_recover, Entry, RecoverAttempt, RecoverStep, Recovered,
};
use vmm_sandboxer::sandbox::refs::{rebuild_active_refs, templates_in_use, Release};
use vmm_sandboxer::sandbox::restore::{
    entropy_for, flow_rollback, flow_steps, phase_kills_vm, removes_work_dir, reseed_guest_entropy,
    restore_phases, FlowStep, RestorePhase, SnapshotRestoreParams,
};
use vmm_sandboxer::sandbox::sandboxer::{KuasarSandboxer, SandboxerError};
use vmm_sandboxer::sandbox::state::{KuasarContainer, KuasarSandbox, SandboxStatus};
use vmm_sandboxer::sandbox::template_pool::{
    after_lookup, apply_resource_overrides, check_pooled, check_requested, ends_template,
    log_totals, prepare_warm_fork, refills_needed, settle_failure, settle_success, template_dirs,
    template_steps, use_reflink, AfterLookup, LeaseEnd, Lookup, Tally, TemplateFailure,
    TemplateStep, QUIESCE_COMMAND, REFILL_WAIT_SECS,
};
use vmm_sandboxer::storage::{block_device_storage, Mount, Storage};
use vmm_sandboxer::string_map::StringMap;
use vmm_sandboxer::template::{
    BootSettings, DiskImageEntry, FactorySettings, PooledTemplate, ReadyTarget, SnapshotMeta,
    SnapshotType, TemplateKey,
};
use vmm_sandboxer::text_map::TextMap;
use vmm_sandboxer::vm::{Pids, WarmForkParams, WarmForkTarget};

fn notes(pairs: &[(&str, &str)]) -> StringMap {
    let mut map = StringMap::new();
    for (k, v) in pairs {
        map.insert(k.to_string(), v.to_string());
    }
    map
}

fn data(pairs: &[(&str, &str)]) -> SandboxData {
    SandboxData {
        id: "sb".to_string(),
        netns: "/run/netns/a".to_string(),
        task_address: String::new(),
        labels: StringMap::new(),
        config: Some(PodSandboxConfig {
            hostname: String::new(),
            annotations: notes(pairs),
            dns_config: None,
            resources: None,
            cgroup_parent: String::new(),
            pid_namespace: None,
        }),
    }
}

fn sandbox() -> KuasarSandbox {
    KuasarSandbox::new("sb", "/run/sb", data(&[]))
}

fn template(kind: SnapshotType) -> PooledTemplate {
    let mut t = PooledTemplate::new(
        "t1",
        TemplateKey::user("key"),
        SnapshotMeta {
            snapshot_dir: "/t1/snapshot".to_string(),
            original_task_vsock: "/old/task.vsock".to_string(),
            original_console_path: "/tmp/old-task.log".to_string(),
            disk_images: vec![],
        },
        BootSettings {
            image_path: "/img".to_string(),
            kernel_path: "/kernel".to_string(),
            vcpus: 2,
            memory_mb: 512,
        },
        7,
    );
    t.snapshot_type = kind;
    t
}

fn config(env: bool, fork: bool, cont: bool, fresh: bool) -> SnapshotConfig {
    SnapshotConfig {
        enable_environment_restore: env,
        enable_warmfork_restore: fork,
        enable_continuation_restore: cont,
        max_concurrent_restores: 4,
        fallback_to_fresh_boot: fresh,
        default_memory_restore_mode: MemoryRestoreMode::Copy,
    }
}

// ── Settings ────────────────────────────────────────────────────────────────

#[test]
fn settings_and_their_names() {
    let c = SnapshotConfig::default();
    assert!(!c.any_snapshot_restore_enabled());
    assert_eq!(SnapshotConfig::default_max_concurrent_restores(), 4);
    assert!(config(false, true, false, true).any_snapshot_restore_enabled());
    assert_eq!(
        MemoryRestoreMode::from_name("copy"),
        Some(MemoryRestoreMode::Copy)
    );
    assert_eq!(MemoryRestoreMode::from_name("nonsense"), None);
    let s = SandboxConfig {
        log_level: "debug".to_string(),
        enable_tracing: true,
        snapshot: SnapshotConfig::default(),
    };
    assert_eq!(s.log_level(), "debug");
    assert!(s.enable_tracing());
}

// ── Starting ────────────────────────────────────────────────────────────────

#[test]
fn without_templates_a_sandbox_boots_afresh() {
    let plan = plan_start(&config(true, true, true, false), false, false, &data(&[]))
        .ok()
        .unwrap();
    assert!(plan.attempts.is_empty());
    assert_eq!(plan.fallback, Fallback::Cold);
    assert_eq!(plan.next_move(0), StartMove::BootAfresh);
    let plan = plan_start(&config(false, false, false, false), true, true, &data(&[]))
        .ok()
        .unwrap();
    assert!(plan.attempts.is_empty());
    assert_eq!(plan.fallback, Fallback::Cold);
}

#[test]
fn named_template_comes_before_a_booted_guest() {
    let d = data(&[("kuasar.io/template-key", "k")]);
    let plan = plan_start(&config(true, true, false, true), true, false, &d)
        .ok()
        .unwrap();
    assert_eq!(plan.attempts.len(), 2);
    assert!(matches!(&plan.attempts[0], Attempt::TemplateKey(k) if k == "k"));
    assert!(matches!(plan.attempts[1], Attempt::Environment));
    assert_eq!(plan.next_move(0), StartMove::Try(0));
    assert_eq!(plan.next_move(1), StartMove::Try(1));
    assert_eq!(plan.next_move(2), StartMove::BootAfresh);

    let plan = plan_start(&config(true, true, false, false), true, false, &d)
        .ok()
        .unwrap();
    assert_eq!(plan.next_move(2), StartMove::FailWithoutSnapshot);

    let d = data(&[("kuasar.io/template-key", "k"), ("kuasar.io/template-id", "t")]);
    let plan = plan_start(&config(false, true, false, true), true, false, &d)
        .ok()
        .unwrap();
    match &plan.attempts[0] {
        Attempt::TemplateId { id, key } => {
            assert_eq!(id, "t");
            assert_eq!(key.as_deref(), Some("k"));
        }
        _ => panic!("expected the id"),
    }
}

#[test]
fn explicit_warm_fork_never_falls_back() {
    let d = data(&[
        ("kuasar.io/snapshot-type", "warm-fork"),
        ("kuasar.io/template-id", "t"),
    ]);
    let plan = plan_start(&config(true, true, true, true), true, true, &d)
        .ok()
        .unwrap();
    assert_eq!(plan.attempts.len(), 1);
    assert_eq!(plan.next_move(1), StartMove::FailWithLast);
    assert_eq!(
        plan_start(&config(true, false, true, true), true, true, &d)
            .err()
            .unwrap(),
        StartError::WarmForkDisabled
    );
    let d = data(&[("kuasar.io/snapshot-type", "warm-fork")]);
    assert_eq!(
        plan_start(&config(true, true, true, true), true, true, &d)
            .err()
            .unwrap(),
        StartError::WarmForkWithoutTemplate
    );
}

#[test]
fn continuation_never_falls_back() {
    let d = data(&[
        ("kuasar.io/pod-uid", "uid"),
        ("kuasar.io/workload-generation", "3"),
        ("kuasar.io/template-key", "k"),
    ]);
    let plan = plan_start(&config(true, true, true, true), true, true, &d)
        .ok()
        .unwrap();
    assert_eq!(plan.attempts.len(), 1);
    match &plan.attempts[0] {
        Attempt::Continuation(i) => {
            assert_eq!(i.pod_uid, "uid");
            assert_eq!(i.generation, 3);
        }
        _ => panic!("expected the continuation"),
    }
    assert_eq!(plan.fallback, Fallback::LastError);

    let d = data(&[("kuasar.io/snapshot-type", "continuation")]);
    assert_eq!(
        plan_start(&config(true, true, false, true), true, true, &d)
            .err()
            .unwrap(),
        StartError::ContinuationDisabled
    );
    assert_eq!(
        plan_start(&config(true, true, true, true), true, true, &d)
            .err()
            .unwrap(),
        StartError::ContinuationWithoutWorkload
    );
}

#[test]
fn malformed_intents_are_refused() {
    let error = |pairs: &[(&str, &str)]| {
        plan_start(&config(true, true, true, true), true, true, &data(pairs))
            .err()
            .unwrap()
    };
    assert_eq!(
        error(&[("kuasar.io/snapshot-type", "other")]),
        StartError::Intent(IntentError::UnknownType)
    );
    assert_eq!(
        error(&[
            ("kuasar.io/pod-uid", "u"),
            ("kuasar.io/workload-generation", "x")
        ]),
        StartError::Intent(IntentError::MalformedGeneration)
    );
    assert_eq!(
        error(&[
            ("kuasar.io/pod-uid", "u"),
            ("kuasar.io/workload-generation", "4294967296")
        ]),
        StartError::Intent(IntentError::GenerationTooLarge)
    );
}

#[test]
fn fresh_boot_leaves_nothing() {
    for netns in [true, false] {
        let steps = cold_steps(netns);
        assert_eq!(steps.contains(&ColdStep::PrepareNetwork), netns);
        for (i, step) in steps.iter().enumerate() {
            let undo = cold_rollback(*step);
            let started = steps[..i].contains(&ColdStep::Start);
            assert_eq!(undo.stop, started);
            if steps[..i].contains(&ColdStep::PrepareNetwork) {
                assert!(undo.destroy_network);
            }
        }
    }
    assert_eq!(
        boot_steps(true),
        [
            BootStep::StartVm,
            BootStep::InitClient,
            BootStep::PushFiles,
            BootStep::SetupSandbox,
            BootStep::ForwardEvents
        ]
    );
    assert_eq!(boot_steps(false).len(), 4);
    assert!(!boot_stops_vm(BootStep::StartVm));
    assert!(boot_stops_vm(BootStep::InitClient));
}

#[test]
fn life_of_a_sandbox() {
    let mut s = sandbox();
    let pids = Pids {
        vmm_pid: Some(9),
        affiliated_pids: vec![10, 11],
    };
    assert!(!s.to_be_monitored());
    assert_eq!(s.cgroup_processes(&pids), None);
    assert_eq!(s.plan_stop(false), StopPlan::Stop { force: true });
    s.started(9);
    assert!(s.to_be_monitored());
    assert_eq!(s.cgroup_processes(&pids).unwrap(), [9, 10, 11]);
    assert_eq!(s.plan_stop(false), StopPlan::Stop { force: false });
    assert!(!goes_on_without_container(s.plan_stop(false)));
    assert!(goes_on_without_container(s.plan_stop(true)));
    s.terminated(137, 42);
    assert_eq!(s.status, SandboxStatus::Stopped(137, 42));
    assert_eq!(s.plan_stop(true), StopPlan::DestroyNetwork);
    // A sandbox that was put aside stays so when its guest ends.
    s.status = SandboxStatus::Paused;
    s.terminated(0, 43);
    assert_eq!(s.status, SandboxStatus::Paused);
    assert_eq!(s.plan_stop(true), StopPlan::Refuse);
    assert_eq!(s.increment_and_get_id(), 1);
    assert_eq!(s.increment_and_get_id(), 2);
    assert_eq!(s.get_sandbox_shared_path(), "/run/sb/shared");
    assert_eq!(s.bundle_path("c1"), "/run/sb/shared/c1");
}

#[test]
fn connections_to_the_agent() {
    assert_eq!(init_client(true, ""), ClientStep::Keep);
    assert_eq!(init_client(false, ""), ClientStep::NoAddress);
    assert_eq!(init_client(false, "hvsock://x"), ClientStep::Connect);
    assert!(!reports_event_error("stream ended: early eof"));
    assert!(reports_event_error("connection refused"));
}

#[test]
fn stopping_creating_and_deleting() {
    assert!(stop_request_steps(false).is_empty());
    assert_eq!(
        stop_request_steps(true),
        [
            StopRequestStep::PreStop,
            StopRequestStep::Stop,
            StopRequestStep::PostStop,
            StopRequestStep::Dump
        ]
    );
    assert!(create_steps(true, false).is_none());
    assert_eq!(
        create_steps(false, false).unwrap()[0],
        CreateStep::CreateCgroups
    );
    assert_eq!(create_steps(false, true).unwrap()[0], CreateStep::CreateVm);
    assert!(create_removes_cgroups(CreateStep::CreateCgroups));
    assert!(!create_removes_cgroups(CreateStep::CreateVm));
    assert_eq!(delete_steps(false, true), [DeleteStep::Forget]);
    let steps = delete_steps(true, true);
    assert_eq!(steps[0], DeleteStep::Stop);
    assert_eq!(steps[1], DeleteStep::RemoveCgroups);
    assert_eq!(steps[4], DeleteStep::ReleaseTemplate);
    assert_eq!(steps[5], DeleteStep::Forget);
    assert!(ends_deletion(DeleteStep::RemoveDir, false, false));
    assert!(!ends_deletion(DeleteStep::RemoveDir, true, false));
    assert!(ends_deletion(DeleteStep::RemoveCgroups, false, false));
    assert!(!ends_deletion(DeleteStep::RemoveCgroups, false, true));
    assert!(collects_continuations(60, true));
    assert!(!collects_continuations(0, true));
    assert!(!collects_continuations(60, false));
}

// ── Taking up ───────────────────────────────────────────────────────────────

/// Takes a sandbox up whose steps fail as said. The result is whether it was taken
/// up, and whether the guest was stopped by force.
fn take_up(status: SandboxStatus, fail_recover: bool, address: &str) -> (Recovered, bool) {
    let mut s = sandbox();
    s.status = status;
    for step in s.recover_steps() {
        let failed = match step {
            RecoverStep::RecoverVm => fail_recover,
            RecoverStep::InitClient => init_client(false, address) == ClientStep::NoAddress,
            _ => false,
        };
        if failed {
            return (Recovered::No, recover_stops_sandbox(step));
        }
    }
    (Recovered::Yes(s), false)
}

fn attempt(name: &str, outcome: Recovered) -> RecoverAttempt {
    RecoverAttempt {
        name: name.to_string(),
        outcome,
    }
}

#[test]
fn sandbox_test_recover_fast_fail_paths_force_stop_vm() {
    for (fail_recover, address) in [(true, "vsock://ignored"), (false, "")] {
        let (outcome, forced) = take_up(SandboxStatus::Running(42), fail_recover, address);
        assert!(matches!(outcome, Recovered::No));
        assert!(forced);
    }
}

#[test]
fn mod_test_recover_fast_fail_paths_force_stop_vm() {
    for (fail_recover, address) in [(true, "vsock://ignored"), (false, "")] {
        let (outcome, forced) = take_up(SandboxStatus::Running(42), fail_recover, address);
        assert!(matches!(outcome, Recovered::No));
        assert!(forced);
    }
    // One that does not run has nothing that could fail.
    assert!(matches!(
        take_up(SandboxStatus::Stopped(0, 1), true, "").0,
        Recovered::Yes(_)
    ));
}

#[test]
fn sandbox_test_sandboxer_recover_cleans_failed_sandbox_dir() {
    let (outcome, forced) = take_up(SandboxStatus::Running(7), true, "vsock://ignored");
    assert!(forced);
    let r = recover(vec![attempt("failed", outcome)], false);
    assert_eq!(r.removed, ["failed"]);
    assert!(r.sandboxes.is_empty());
}

#[test]
fn mod_test_sandboxer_recover_cleans_failed_sandbox_dir() {
    let (outcome, forced) = take_up(SandboxStatus::Running(7), true, "vsock://ignored");
    assert!(forced);
    let r = recover(vec![attempt("failed", outcome)], false);
    assert_eq!(r.removed, ["failed"]);
    assert!(r.sandboxes.is_empty());
    assert!(r.refs.is_none());
}

#[test]
fn every_sandbox_is_accounted_for() {
    let entries = vec![
        Entry {
            name: "a".to_string(),
            is_dir: Some(true),
        },
        Entry {
            name: "file".to_string(),
            is_dir: Some(false),
        },
        Entry {
            name: "unknown".to_string(),
            is_dir: None,
        },
        Entry {
            name: "b".to_string(),
            is_dir: Some(true),
        },
    ];
    assert_eq!(to_recover(&entries), ["a", "b"]);
    let mut runs = take_up(SandboxStatus::Running(7), false, "vsock://x").0;
    if let Recovered::Yes(s) = &mut runs {
        s.template_id = Some("t1".to_string());
    }
    let rests = take_up(SandboxStatus::Stopped(0, 1), false, "").0;
    let r = recover(
        vec![
            attempt("a", runs),
            attempt("b", rests),
            attempt("c", Recovered::No),
            attempt("d", Recovered::Lost),
        ],
        true,
    );
    assert_eq!(r.names, ["a", "b"]);
    assert_eq!(r.sandboxes.len(), 2);
    assert_eq!(r.monitored, ["a"]);
    assert_eq!(r.removed, ["c"]);
    assert_eq!(r.fail, 2);
    assert_eq!(r.refs.unwrap().active, ["t1"]);
}

#[test]
fn test_appliance_start_sync_clock_is_noop() {
    let rt = GuestRuntime::Appliance(ApplianceRuntime::new("sb-001", ""));
    assert!(!rt.syncs_clock());
    assert!(RuntimeKind::VmmTask.create_runtime("sb-001", "").syncs_clock());
}

// ── Files ───────────────────────────────────────────────────────────────────

#[test]
fn files_of_a_sandbox() {
    let mut d = data(&[]);
    assert_eq!(hostname_file(&d, "host"), "host\n");
    assert_eq!(resolv_file(&d), None);
    assert_eq!(network_queues(&d), 1);
    assert!(!has_shared_pid_namespace(&d));
    if let Some(c) = d.config.as_mut() {
        c.hostname = "pod".to_string();
        c.pid_namespace = Some(NamespaceMode::Pod);
        c.dns_config = Some(DnsConfig {
            servers: vec!["1.1.1.1".to_string()],
            searches: vec![],
            options: vec![],
        });
        c.resources = Some(LinuxResources {
            cpu_period: 100,
            cpu_quota: 350,
            memory_limit_in_bytes: 0,
        });
    }
    assert_eq!(hostname_file(&d, "host"), "pod\n");
    assert_eq!(resolv_file(&d).unwrap(), "nameserver 1.1.1.1\n");
    assert_eq!(network_queues(&d), 4);
    assert!(has_shared_pid_namespace(&d));
    let (hostname, resolv, hosts) = push_sandbox_files(true, true, false);
    assert_eq!(hostname.unwrap().dest, "/run/kuasar/state/hostname");
    let resolv = resolv.unwrap();
    assert_eq!(resolv.dest, "/run/kuasar/state/resolv.conf");
    assert_eq!(resolv.bind_over.as_deref(), Some("/etc/resolv.conf"));
    assert!(hosts.is_none());
    assert_eq!(dump_path("/run/sb"), "/run/sb/sandbox.json");
}

// ── Containers ──────────────────────────────────────────────────────────────

#[test]
fn taken_container_is_gone() {
    let mut s = sandbox();
    for id in ["c1", "c2"] {
        s.put_container(KuasarContainer {
            id: id.to_string(),
            name: None,
            io_devices: vec!["chardev1".to_string()],
        });
    }
    assert!(s.container("c2").is_some());
    assert_eq!(s.take_container("c1").unwrap().io_devices, ["chardev1"]);
    assert!(s.container("c1").is_none());
    assert!(s.take_container("c1").is_none());
    assert!(s.container("c2").is_some());
    assert_eq!(
        remove_steps(),
        [
            RemoveStep::DropStorages,
            RemoveStep::RemoveBundle,
            RemoveStep::Forget,
            RemoveStep::DetachDevices,
            RemoveStep::Dump
        ]
    );
}

#[test]
fn restored_guest_is_told_who_it_is() {
    let news = |reachable| NetworkNews {
        reachable,
        has_interfaces: true,
        has_routes: true,
    };
    assert_eq!(
        identity_steps(true, news(true)),
        [
            IdentityStep::PushSandboxFiles,
            IdentityStep::UpdateInterfaces,
            IdentityStep::UpdateRoutes,
            IdentityStep::SyncClock
        ]
    );
    assert_eq!(identity_steps(false, news(false)), [IdentityStep::SyncClock]);
}

// ── Restoring ───────────────────────────────────────────────────────────────

fn params(kind: SnapshotType) -> SnapshotRestoreParams {
    SnapshotRestoreParams {
        snapshot_dir: "/t1/snapshot".to_string(),
        template_id: Some("t1".to_string()),
        snapshot_type: kind,
        id_generator: 5,
        disk_images: vec![],
        storages: vec![],
        orphan_container_ids: vec![],
        lease_mode: TemplateLeaseMode::Shared,
        reflink_supported: true,
        original_task_vsock: "/old/task.vsock".to_string(),
        warm_fork_params: None,
    }
}

#[test]
fn restored_sandbox_keeps_what_it_was_restored_from() {
    let mut s = sandbox();
    let source = s.begin_restore(params(SnapshotType::Environment), MemoryRestoreMode::OnDemand);
    assert_eq!(s.template_id.as_deref(), Some("t1"));
    assert!(matches!(
        s.template_snapshot_type,
        Some(SnapshotType::Environment)
    ));
    assert_eq!(source.work_dir, "/run/sb/restore");
    assert_eq!(source.overrides.task_vsock, "/run/sb/task.vsock");
    assert_eq!(source.overrides.console_path, "/tmp/sb-task.log");
    s.continue_ids(5);
    assert_eq!(s.increment_and_get_id(), 6);
    assert!(s.needs_pin(true));
    assert!(!s.needs_pin(false));
    s.clear_template_restore_state();
    assert!(s.template_id.is_none() && s.memory_restore_mode.is_none());
    assert_eq!(s.release_on_delete(true, true), Release::Nothing);
}

#[test]
fn failed_restore_leaves_nothing() {
    for kind in [
        SnapshotType::Environment,
        SnapshotType::WarmFork,
        SnapshotType::Continuation,
    ] {
        let steps = flow_steps(true, kind);
        assert_eq!(
            steps.contains(&FlowStep::PrepareNetwork),
            !matches!(kind, SnapshotType::Continuation)
        );
        for (i, step) in steps.iter().enumerate() {
            let undo = flow_rollback(*step, true);
            let restored = steps[..i].contains(&FlowStep::Restore);
            assert_eq!(undo.stop, restored);
            assert_eq!(undo.unpin, restored);
            if restored || *step == FlowStep::Restore {
                assert!(undo.clear_template);
            }
        }
    }
}

#[test]
fn task_comes_last_and_continuation_is_undisturbed() {
    let fork = restore_phases(SnapshotType::WarmFork, false);
    let place = |p: RestorePhase| fork.iter().position(|x| *x == p).unwrap();
    assert!(place(RestorePhase::HotplugNetwork) < place(RestorePhase::InjectTask));
    assert!(place(RestorePhase::RefreshIdentity) < place(RestorePhase::InjectTask));
    assert!(place(RestorePhase::ReseedEntropy) < place(RestorePhase::InjectTask));
    let cont = restore_phases(SnapshotType::Continuation, true);
    assert!(!cont.contains(&RestorePhase::HotplugNetwork));
    assert!(!cont.contains(&RestorePhase::ReseedEntropy));
    assert!(!cont.contains(&RestorePhase::InjectTask));
    let env = restore_phases(SnapshotType::Environment, true);
    assert!(env.contains(&RestorePhase::PushSandboxFiles));
    assert!(!restore_phases(SnapshotType::Environment, false)
        .contains(&RestorePhase::PushSandboxFiles));
    for phases in [&fork, &cont, &env] {
        assert_eq!(phases[0], RestorePhase::RestoreVm);
        assert_eq!(*phases.last().unwrap(), RestorePhase::Commit);
    }
    assert!(!phase_kills_vm(RestorePhase::RestoreVm));
    assert!(phase_kills_vm(RestorePhase::InjectTask));
    assert!(removes_work_dir(false, MemoryRestoreMode::OnDemand));
    assert!(removes_work_dir(true, MemoryRestoreMode::Copy));
    assert!(!removes_work_dir(true, MemoryRestoreMode::OnDemand));
}

#[test]
fn references_are_balanced() {
    let held = |kind, lease, mode| {
        let mut s = sandbox();
        s.template_id = Some("t1".to_string());
        s.template_snapshot_type = Some(kind);
        s.lease_mode = Some(lease);
        s.memory_restore_mode = Some(mode);
        s
    };
    let pinned = held(
        SnapshotType::Environment,
        TemplateLeaseMode::Shared,
        MemoryRestoreMode::OnDemand,
    );
    let copied = held(
        SnapshotType::Environment,
        TemplateLeaseMode::Shared,
        MemoryRestoreMode::Copy,
    );
    let shared = held(
        SnapshotType::WarmFork,
        TemplateLeaseMode::Shared,
        MemoryRestoreMode::Copy,
    );
    let exclusive = held(
        SnapshotType::WarmFork,
        TemplateLeaseMode::Exclusive,
        MemoryRestoreMode::Copy,
    );
    let cont = held(
        SnapshotType::Continuation,
        TemplateLeaseMode::Exclusive,
        MemoryRestoreMode::Copy,
    );
    assert_eq!(pinned.release_on_delete(true, true), Release::Deref);
    assert_eq!(pinned.release_on_delete(false, true), Release::Nothing);
    assert_eq!(copied.release_on_delete(true, true), Release::Nothing);
    assert_eq!(shared.release_on_delete(true, true), Release::Deref);
    assert_eq!(
        exclusive.release_on_delete(true, true),
        Release::CleanupConsumed
    );
    assert_eq!(
        cont.release_on_delete(true, true),
        Release::DeleteContinuation
    );
    assert_eq!(cont.release_on_delete(true, false), Release::Nothing);
    assert_eq!(pinned.release_on_destroy(true), Release::Deref);
    assert_eq!(shared.release_on_destroy(true), Release::Deref);
    assert_eq!(exclusive.release_on_destroy(true), Release::Nothing);
    let refs = rebuild_active_refs(&vec![pinned, copied, shared, exclusive, cont, sandbox()]);
    assert_eq!(refs.active, ["t1"]);
    assert_eq!(refs.shared, ["t1"]);
    assert_eq!(refs.pinned, ["t1"]);
}

// ── Tasks ───────────────────────────────────────────────────────────────────

fn fork_params(task: Option<&str>) -> WarmForkParams {
    WarmForkParams {
        task_id: task.map(|t| t.to_string()),
        targets: vec![WarmForkTarget {
            container_name: "app".to_string(),
            container_id: "c1".to_string(),
            socket_path: "/s".to_string(),
            env_overrides: notes(&[("A", "1")]),
            context: "ctx".to_string(),
        }],
        prepare_timeout_ms: 10_000,
        commit_timeout_ms: 5_000,
    }
}

#[test]
fn tasks_for_the_agent() {
    let r = inject_request(&fork_params(Some("task")));
    assert_eq!(r.tasks.len(), 1);
    assert_eq!(r.tasks[0].container_id, "c1");
    assert_eq!(r.tasks[0].task_id, "task");
    assert_eq!(r.tasks[0].env_overrides.get("A").unwrap(), "1");
    assert_eq!(r.deadline_ms, 18_000);
    let r = inject_request(&fork_params(None));
    assert_eq!(r.tasks[0].task_id, "");
    assert_eq!(r.deadline_ms, 8_000);
}

#[test]
fn answers_of_the_agent() {
    let tasks = inject_request(&fork_params(Some("task"))).tasks;
    let answer = |id: &str, status: &str| TargetResult {
        container_id: id.to_string(),
        status: status.to_string(),
        phase: "COMMIT".to_string(),
        message: "late".to_string(),
    };
    let told = |answers: Vec<TargetResult>| check_injected(&tasks, AgentReply::Answers(answers));
    assert!(told(vec![answer("c1", "INJECT_STARTED")]).is_ok());
    assert!(matches!(
        check_injected(&tasks, AgentReply::NoClient),
        Err(InjectError::NoClient)
    ));
    assert!(matches!(
        check_injected(&tasks, AgentReply::CallFailed("gone".to_string())),
        Err(InjectError::CallFailed(said)) if said == "gone"
    ));
    assert!(matches!(
        told(vec![]),
        Err(InjectError::CountMismatch { sent: 1, got: 0 })
    ));
    assert!(matches!(
        told(vec![answer("c2", "INJECT_STARTED")]),
        Err(InjectError::ContainerMismatch)
    ));
    match told(vec![answer("c1", "INJECT_TIMEOUT")]) {
        Err(InjectError::Failed(lines)) => {
            assert_eq!(lines, ["container 'c1': INJECT_TIMEOUT/COMMIT — late"]);
            assert_eq!(
                start_failure_message("sb", &lines),
                "sandbox sb: WarmFork inject_task failed for 1 target(s): \
                 container 'c1': INJECT_TIMEOUT/COMMIT — late"
            );
        }
        _ => panic!("expected a failure"),
    }
    let looked = |id: &str, status: &str| CheckResult {
        container_id: id.to_string(),
        status: status.to_string(),
        message: "refused".to_string(),
    };
    match check_inject_socket(AgentReply::Answers(vec![
        looked("a", "TARGET_CHECK_FAILED"),
        looked("b", "TARGET_CHECK_OK"),
        looked("c", "INJECT_STARTED"),
    ])) {
        Err(InjectError::Failed(lines)) => assert_eq!(
            check_failure_message("sb", &lines),
            "sandbox sb: readiness socket check failed: \
             container 'a': TARGET_CHECK_FAILED — refused; \
             container 'c': INJECT_STARTED — refused"
        ),
        _ => panic!("expected a failure"),
    }
    assert!(check_inject_socket(AgentReply::Answers(vec![])).is_ok());
    assert!(matches!(
        check_inject_socket(AgentReply::NoClient),
        Err(InjectError::NoClient)
    ));
    assert!(matches!(
        check_inject_socket(AgentReply::CallFailed("gone".to_string())),
        Err(InjectError::CallFailed(_))
    ));
}

// ── Templates ───────────────────────────────────────────────────────────────

#[test]
fn leases_are_closed() {
    let s = settle_success(Lookup::ByKey, SnapshotType::Environment);
    assert_eq!(s.lease, LeaseEnd::Complete);
    assert_eq!(s.tally, Tally::EnvironmentHit);
    let s = settle_success(Lookup::ByKey, SnapshotType::WarmFork);
    assert_eq!(s.tally, Tally::WarmForkHit);
    let s = settle_success(Lookup::ById, SnapshotType::WarmFork);
    assert_eq!(s.tally, Tally::WarmForkHit);
    let s = settle_success(Lookup::Workload, SnapshotType::Continuation);
    assert_eq!(s.lease, LeaseEnd::Complete);
    assert_eq!(s.tally, Tally::Nothing);
    let s = settle_failure(Lookup::ByKey, &TemplateFailure::PoolMiss);
    assert_eq!(s.lease, LeaseEnd::Untaken);
    assert_eq!(s.tally, Tally::Miss);
    let s = settle_failure(Lookup::ById, &TemplateFailure::KeyMismatch);
    assert_eq!(s.lease, LeaseEnd::Fail);
    assert_eq!(s.tally, Tally::Nothing);
    let s = settle_failure(Lookup::Workload, &TemplateFailure::FilesMissing);
    assert_eq!(s.lease, LeaseEnd::Fail);
    assert_eq!(s.tally, Tally::Nothing);
    assert!(s.clear_restore_state);
    assert!(log_totals(20));
    assert!(!log_totals(0) && !log_totals(21));
}

#[test]
fn looking_for_templates() {
    assert_eq!(after_lookup(true, 0), AfterLookup::Use);
    assert_eq!(after_lookup(false, 1), AfterLookup::Wait);
    assert_eq!(after_lookup(false, 0), AfterLookup::Miss);
    let on = config(true, true, true, true);
    let off = config(true, false, true, true);
    let fork = template(SnapshotType::WarmFork);
    let env = template(SnapshotType::Environment);
    assert!(matches!(
        check_pooled(&fork, TemplateLeaseMode::Exclusive, &on),
        Ok(TemplateLeaseMode::Exclusive)
    ));
    assert!(matches!(
        check_pooled(&env, TemplateLeaseMode::Exclusive, &off),
        Ok(TemplateLeaseMode::Shared)
    ));
    assert!(matches!(
        check_pooled(&fork, TemplateLeaseMode::Shared, &off),
        Err(TemplateFailure::TypeDisabled)
    ));
    assert!(check_requested(&fork, Some("key"), &on).is_ok());
    assert!(matches!(
        check_requested(&fork, Some("other"), &on),
        Err(TemplateFailure::KeyMismatch)
    ));
    assert!(matches!(
        check_requested(&env, None, &on),
        Err(TemplateFailure::WrongType)
    ));
    assert!(matches!(
        check_requested(&fork, None, &off),
        Err(TemplateFailure::TypeDisabled)
    ));
}

#[test]
fn tasks_reach_the_containers_of_a_template() {
    let mut t = template(SnapshotType::WarmFork);
    let none = notes(&[]);
    assert!(matches!(
        prepare_warm_fork(&t, true, &none),
        Err(TemplateFailure::NoProtocol)
    ));
    t.ready_protocol_version = Some("v1".to_string());
    assert!(matches!(
        prepare_warm_fork(&t, false, &none),
        Err(TemplateFailure::FilesMissing)
    ));
    t.warm_fork_targets = vec![ReadyTarget {
        container_name: "app".to_string(),
        container_id: "c9".to_string(),
        socket_path: "/s".to_string(),
    }];
    let fits = notes(&[
        ("kuasar.io/task-id", "task"),
        ("kuasar.io/warm-fork-containers", "app"),
    ]);
    let params = prepare_warm_fork(&t, true, &fits).ok().unwrap();
    assert_eq!(params.targets.len(), 1);
    assert_eq!(params.targets[0].container_id, "c9");
    let other = notes(&[
        ("kuasar.io/task-id", "task"),
        ("kuasar.io/warm-fork-containers", "other"),
    ]);
    assert!(matches!(
        prepare_warm_fork(&t, true, &other),
        Err(TemplateFailure::ContainerSetMismatch)
    ));
    let twice = notes(&[
        ("kuasar.io/task-id", "task"),
        ("kuasar.io/warm-fork-containers", "app,app"),
    ]);
    assert!(matches!(
        prepare_warm_fork(&t, true, &twice),
        Err(TemplateFailure::BadNames(_))
    ));
}

#[test]
fn refills_reach_the_mark() {
    assert_eq!(refills_needed(3, 1, 1), 1);
    assert_eq!(refills_needed(3, 1, 2), 0);
    assert_eq!(refills_needed(1, 5, 0), 0);
    assert_eq!(refills_needed(3, usize::MAX, 1), 0);
    assert_eq!(apply_resource_overrides(1, 512, None, Some(64)), (1, 64));
    assert!(use_reflink(TemplateLeaseMode::Shared, Some(true)));
    assert!(!use_reflink(TemplateLeaseMode::Exclusive, Some(true)));
    assert!(!use_reflink(TemplateLeaseMode::Shared, None));
    let steps = template_steps("");
    assert_eq!(steps.len(), 10);
    assert_eq!(steps[4], TemplateStep::Quiesce);
    assert_eq!(template_steps("busybox")[4], TemplateStep::WarmUp);
    assert!(ends_template(TemplateStep::WarmUp));
    assert!(ends_template(TemplateStep::Snapshot));
    assert!(!ends_template(TemplateStep::Quiesce));
    let (base, vm, snapshot) = template_dirs("/store", "t1");
    assert_eq!(base, "/store/environment/t1");
    assert_eq!(vm, "/store/environment/t1/vm");
    assert_eq!(snapshot, "/store/environment/t1/snapshot");
}

// ── Starting from the pool ──────────────────────────────────────────────────

#[test]
fn pool_start_always_starts() {
    assert!(starts_from_pool(Some(1)));
    assert!(!starts_from_pool(Some(0)));
    assert!(!starts_from_pool(None));
    let v = after_pool_attempt(PoolAttempt::Restored);
    assert!(!v.boots_afresh);
    assert_eq!(v.lease, LeaseEnd::Complete);
    assert_eq!(v.tally, Tally::Hit);
    let v = after_pool_attempt(PoolAttempt::RestoreFailed);
    assert!(v.boots_afresh);
    assert_eq!(v.lease, LeaseEnd::Fail);
    assert_eq!(v.tally, Tally::Miss);
    let v = after_pool_attempt(PoolAttempt::NoPool);
    assert!(v.boots_afresh);
    assert_eq!(v.lease, LeaseEnd::Untaken);
    assert_eq!(v.tally, Tally::Nothing);
}

#[test]
fn requests_for_templates() {
    match parse_template_request(
        r#"{"action":"from-sandbox","sandbox_id":"s","template_id":"t"}"#,
    ) {
        Ok(TemplateRequest::FromSandbox {
            sandbox_id,
            template_id,
        }) => {
            assert_eq!(sandbox_id, "s");
            assert_eq!(template_id, "t");
        }
        _ => panic!("expected a sandbox"),
    }
    match parse_template_request(r#"{"action":"from-image","template_id":"t"}"#) {
        Ok(TemplateRequest::FromImage { image, template_id }) => {
            assert_eq!(image, "");
            assert_eq!(template_id, "t");
        }
        _ => panic!("expected an image"),
    }
    match parse_template_request(r#"{"action":"dance"}"#) {
        Ok(TemplateRequest::Unknown(message)) => assert_eq!(message, "unknown action: dance"),
        _ => panic!("expected a refusal"),
    }
    assert!(matches!(
        parse_template_request("nonsense"),
        Err(TemplateRequestFault::NotJson)
    ));
    assert!(matches!(
        parse_template_request(r#"{"action":"from-sandbox"}"#),
        Err(TemplateRequestFault::NoSandboxId)
    ));
    assert!(matches!(
        parse_template_request(r#"{"action":"from-image"}"#),
        Err(TemplateRequestFault::NoTemplateId)
    ));
    assert_eq!(
        to_compact(&template_made(Ok("t"))),
        r#"{"ok":true,"template_id":"t"}"#
    );
    let refused: serde_json::Value =
        serde_json::from_str(&to_compact(&template_made(Err("why")))).unwrap();
    assert_eq!(refused["error"], "why");
}

#[test]
fn warming_up() {
    assert!(warmup_container("t", "").is_none());
    let w = warmup_container("t", "busy\"box").unwrap();
    assert_eq!(w.container_id, "warmup-t");
    assert_eq!(w.bundle, "/run/kuasar/state/warmup-t");
    assert_eq!(w.mkdir, "mkdir -p /run/kuasar/state/warmup-t");
    assert_eq!(w.push, "cat > /run/kuasar/state/warmup-t/config.json");
    let spec: serde_json::Value = serde_json::from_str(&w.config).unwrap();
    assert_eq!(spec["annotations"]["io.kuasar.template.image"], "busy\"box");
    assert_eq!(spec["process"]["args"][2], "exec sleep infinity");
    assert_eq!(w.config, minimal_warmup_oci_spec("busy\"box"));
    let (base, snapshot) = template_snapshot_dir("/store", "t");
    assert_eq!(base, "/store/t");
    assert_eq!(snapshot, "/store/t/snapshot");
}

#[test]
fn disks_of_a_template() {
    let m = Mount {
        mount_type: "bind".to_string(),
        source: "/d".to_string(),
        destination: "/".to_string(),
        options: vec![],
    };
    let mut s = sandbox();
    let storages: Vec<Storage> = vec![
        block_device_storage("storage1", &m, "blk2", "a", "blk", "ext4"),
        block_device_storage("storage3", &m, "blk4", "a", "blk", "xfs"),
    ];
    s.storages = storages;
    let disks = template_disks(&s);
    assert_eq!(disks.len(), 1);
    assert_eq!(disks[0].storage_id, "storage1");
    assert_eq!(disks[0].device_id, "blk2");
    assert_eq!(disks[0].img_path, "/run/sb/storage1.img");
}

#[test]
fn restored_sandboxes_take_over_what_the_snapshot_had() {
    let mut s = sandbox();
    s.apply_pool_settings(None);
    assert!(s.lease_mode.is_none());
    s.apply_pool_settings(Some((TemplateLeaseMode::Exclusive, true)));
    assert_eq!(s.lease_mode, Some(TemplateLeaseMode::Exclusive));
    assert_eq!(s.reflink_supported, Some(true));
    let mount = Mount {
        mount_type: "ext4".to_string(),
        source: "/dev/sda".to_string(),
        destination: String::new(),
        options: vec![],
    };
    let mut disk = block_device_storage("storage3", &mount, "blk4", "a", "blk", "ext4");
    disk.owned_by_runtime = true;
    s.adopt(vec![disk], vec!["c1".to_string()]);
    assert_eq!(
        s.storages[0].cleanup_path,
        Some("/run/sb/storage3.img".to_string())
    );
    assert_eq!(s.orphan_container_ids, ["c1"]);
}

#[test]
fn waiting_times() {
    assert_eq!(AGENT_READY_TIMEOUT_SECS, 15);
    assert_eq!(APPLIANCE_READY_TIMEOUT_SECS, 30);
    assert_eq!(CHECK_TIMEOUT_MS, 5_000);
    assert_eq!(REFILL_WAIT_SECS, 15);
    assert_eq!(QUIESCE_COMMAND, "sync; echo 1 > /proc/sys/vm/drop_caches");
}

#[test]
fn restored_guests_draw_other_numbers() {
    let a = reseed_guest_entropy(true).unwrap();
    let b = reseed_guest_entropy(true).unwrap();
    assert_ne!(a, b);
    assert_ne!(a, [0u8; 32]);
    assert!(reseed_guest_entropy(false).is_none());
    assert_eq!(entropy_for(true, [7u8; 32]), Some([7u8; 32]));
    assert_eq!(entropy_for(false, [7u8; 32]), None);
}

fn sandboxer() -> KuasarSandboxer {
    KuasarSandboxer::new(
        SandboxConfig {
            log_level: String::new(),
            enable_tracing: false,
            snapshot: config(true, true, true, true),
        },
        true,
        true,
    )
}

#[test]
fn unknown_sandboxes_are_never_booted() {
    let host = |snapshot: SnapshotConfig, pool: bool, store: bool| {
        KuasarSandboxer::new(
            SandboxConfig {
                log_level: String::new(),
                enable_tracing: false,
                snapshot,
            },
            pool,
            store,
        )
    };
    // Only booted guests, and no fresh boot: the pool is tried, and nothing fits.
    let plan = host(config(true, false, false, false), true, false)
        .start("gone")
        .ok()
        .unwrap();
    assert!(matches!(plan.attempts[..], [Attempt::Environment]));
    assert_eq!(plan.next_move(1), StartMove::FailWithoutSnapshot);
    // Where a fresh boot is allowed, it comes out after the pool was tried.
    let plan = host(config(true, false, false, true), true, false)
        .start("gone")
        .ok()
        .unwrap();
    assert_eq!(plan.next_move(0), StartMove::Try(0));
    assert_eq!(plan.next_move(1), StartMove::FailUnknown);
    // Without a pool there is nothing to try.
    let plan = host(config(true, false, false, false), false, true)
        .start("gone")
        .ok()
        .unwrap();
    assert_eq!(plan.next_move(0), StartMove::FailWithoutSnapshot);
    for host in [
        host(config(true, false, false, true), false, true),
        host(config(true, false, false, false), false, false),
        host(config(true, true, false, false), true, false),
        host(config(true, false, true, false), true, true),
        host(config(false, false, false, false), true, true),
    ] {
        assert!(matches!(
            host.start("gone"),
            Err(SandboxerError::NotFound(id)) if id == "gone"
        ));
    }
}

#[test]
fn network_outlives_a_sandbox_that_cannot_be_stopped() {
    let r = cold_rollback(ColdStep::Dump);
    assert_eq!(r.steps(), [UndoStep::Stop, UndoStep::DestroyNetwork]);
    assert_eq!(r.next_undo(0, false), Some(UndoStep::Stop));
    assert_eq!(r.next_undo(1, true), None);
    assert_eq!(r.next_undo(1, false), Some(UndoStep::DestroyNetwork));
    assert_eq!(r.next_undo(2, false), None);
    let r = flow_rollback(FlowStep::PostStart, true);
    assert_eq!(
        r.steps(),
        [
            UndoStep::Unpin,
            UndoStep::ClearTemplate,
            UndoStep::Stop,
            UndoStep::DestroyNetwork
        ]
    );
    assert_eq!(r.next_undo(3, true), None);
}

#[test]
fn templates_that_sandboxes_live_on() {
    let mut sandboxes: TextMap<KuasarSandbox> = TextMap::new();
    assert!(templates_in_use(&sandboxes).is_empty());
    for (id, template) in [("a", Some("t1")), ("b", None), ("c", Some("t2")), ("d", Some("t1"))] {
        let mut s = sandbox();
        s.template_id = template.map(|t| t.to_string());
        sandboxes.insert(id.to_string(), s);
    }
    assert_eq!(templates_in_use(&sandboxes), ["t1", "t2"]);
}

#[test]
fn template_of_a_running_sandbox() {
    let mut s = sandbox();
    s.id_generator = 9;
    let factory = FactorySettings {
        boot: BootSettings {
            image_path: "/img".to_string(),
            kernel_path: "/kernel".to_string(),
            vcpus: 2,
            memory_mb: 512,
        },
        kernel_params: String::new(),
        storage_backend: "virtio-blk".to_string(),
    };
    let key = factory.environment_key().key;
    let meta = SnapshotMeta {
        snapshot_dir: "/pool/t/snapshot".to_string(),
        original_task_vsock: "/run/sb/task.vsock".to_string(),
        original_console_path: "/tmp/sb-task.log".to_string(),
        disk_images: vec![DiskImageEntry {
            storage_id: "storage1".to_string(),
            device_id: "blk2".to_string(),
            filename: "storage1.img".to_string(),
        }],
    };
    let t = sandbox_template(factory, "t", &s, meta, 5);
    assert_eq!((t.id.as_str(), t.key.key), ("t", key));
    assert_eq!(t.snapshot_type, SnapshotType::Environment);
    assert!(t.ns_preinitialized);
    assert_eq!((t.id_generator, t.created_at_secs), (9, 5));
    assert_eq!(t.disk_images.len(), 1);
    assert_eq!(t.pmem_path, "/img");
    assert!(!template(SnapshotType::Environment).ns_preinitialized);
}

#[test]
fn ids_are_used_once() {
    let mut host = sandboxer();
    assert!(matches!(
        host.sandbox("sb"),
        Err(SandboxerError::NotFound(id)) if id == "sb"
    ));
    let steps = host.create("sb", true).ok().unwrap();
    assert_eq!(steps.last(), Some(&CreateStep::Insert));
    host.created("sb", "/run/sb", data(&[]));
    host.created("other", "/run/other", data(&[]));
    assert!(matches!(
        host.create("sb", true),
        Err(SandboxerError::AlreadyExist)
    ));
    assert_eq!(host.sandbox("sb").ok().unwrap().base_dir, "/run/sb");
    assert_eq!(
        host.delete("sb", false).steps.last(),
        Some(&DeleteStep::Forget)
    );
    host.deleted("sb");
    assert!(host.create("sb", true).is_ok());
    assert!(host.sandbox("other").is_ok());
    assert_eq!(host.delete("sb", false).steps, [DeleteStep::Forget]);
    assert_eq!(host.delete("sb", false).release, Release::Nothing);
}

#[test]
fn sandboxes_are_started_updated_and_stopped_by_id() {
    let mut host = sandboxer();
    assert!(matches!(host.start("sb"), Err(SandboxerError::NotFound(_))));
    assert!(matches!(
        host.update("sb", data(&[])),
        Err(SandboxerError::NotFound(_))
    ));
    assert!(host.stop("sb").is_empty());
    host.created("sb", "/run/sb", data(&[("kuasar.io/snapshot-type", "unheard-of")]));
    assert!(matches!(
        host.start("sb"),
        Err(SandboxerError::Start(StartError::Intent(
            IntentError::UnknownType
        )))
    ));
    assert!(host.update("sb", data(&[])).is_ok());
    let plan = host.start("sb").ok().unwrap();
    assert_eq!(plan.attempts.len(), 1);
    assert!(matches!(plan.attempts[0], Attempt::Environment));
    assert_eq!(
        host.stop("sb"),
        [
            StopRequestStep::PreStop,
            StopRequestStep::Stop,
            StopRequestStep::PostStop,
            StopRequestStep::Dump
        ]
    );
    host.ended("sb", 3, 9);
    host.ended("gone", 3, 9);
    assert!(matches!(
        host.sandbox("sb").ok().unwrap().status,
        SandboxStatus::Stopped(3, 9)
    ));
    assert!(host.sandbox("gone").is_err());
}

#[test]
fn sandboxes_of_an_earlier_run_are_found_again() {
    let mut host = sandboxer();
    let one = take_up(SandboxStatus::Running(7), false, "vsock://x").0;
    let r = recover(vec![attempt("a", one), attempt("b", Recovered::No)], true);
    host.adopt(r.names, r.sandboxes);
    assert!(host.sandbox("a").is_ok());
    assert!(host.sandbox("b").is_err());
}
