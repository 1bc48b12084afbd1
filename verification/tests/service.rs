use vmm_sandboxer::json::{parse, to_compact, Json, JsonNumber};
use vmm_sandboxer::sandbox::config::{MemoryRestoreMode, TemplateLeaseMode};
use vmm_sandboxer::sandbox::data::{PodSandboxConfig, SandboxData};
use vmm_sandboxer::sandbox::lifecycle::DeleteStep;
use vmm_sandboxer::sandbox::refs::Release;
use vmm_sandboxer::sandbox::state::{KuasarContainer, KuasarSandbox, SandboxStatus};
use vmm_sandboxer::sandbox::template_pool::TemplateFailure;
use vmm_sandboxer::service::admin::{
    dispatch, error_reply, read_request, refill_reply, removal_reply, reply_line,
    requested_template, snapshot_type_str, status_reply, target_depth, template_get, template_list,
    template_to_remove, validate_id, Action, IdFault, PoolStatus, Removal,
};
use vmm_sandboxer::service::grpc::{
    check_snapshot_name, delete_snapshot, describe_sandbox, get_snapshot, list_snapshots,
    order_snapshot, pause_identity, pause_sandbox, plugin_capabilities, sandbox_status_str,
    template_to_proto, FaultCode, PauseStep, RequestFault, SnapshotMode, SsiSnapshotMode,
};
use vmm_sandboxer::service::sandbox::{
    autonomous_params, check_wanted, create_sandbox_slot, destroy_sandbox, index_pod,
    restore_sandbox_continuation, restore_sandbox_warm_fork, resume_paused_sandbox,
    sandbox_pod_uid, service_rollback, service_steps, settle_resume, ContinuationLookup,
    RestoreRefusal, ServiceRestore, ServiceSituation, ServiceStep, ServiceUndo, Wanted,
};
use vmm_sandboxer::service::snapshot::{
    describe_snapshot, plan_snapshot_dir, preserved_netns, ready_targets, snapshot_containers,
    snapshot_from_sandbox, SnapshotPlaces, SnapshotRefusal, SnapshotRequest, TakeMove, TakeStep,
};
use vmm_sandboxer::storage::{image_storage, Mount, Storage};
use vmm_sandboxer::string_map::StringMap;
use vmm_sandboxer::template::{
    BootSettings, DiskImageEntry, PooledTemplate, ReadyTarget, SnapshotMeta, SnapshotType,
    TemplateKey, WorkloadIdentity,
};

fn value(j: &Json) -> serde_json::Value {
    serde_json::from_str(&to_compact(j)).unwrap()
}

fn want(text: &str) -> serde_json::Value {
    serde_json::from_str(text).unwrap()
}

fn template(id: &str, key: &str, kind: SnapshotType) -> PooledTemplate {
    let mut t = PooledTemplate::new(
        id,
        TemplateKey::user(key),
        SnapshotMeta {
            snapshot_dir: format!("/{}/snapshot", id),
            original_task_vsock: "/old/task.vsock".to_string(),
            original_console_path: "/tmp/old-task.log".to_string(),
            disk_images: vec![],
        },
        BootSettings {
            image_path: "/img".to_string(),
            kernel_path: "/kernel".to_string(),
            vcpus: 2,
            memory_mb: 512,
        },
        7,
    );
    t.snapshot_type = kind;
    t
}

fn continuation(id: &str, key: &str, pod: &str) -> PooledTemplate {
    let mut t = template(id, key, SnapshotType::Continuation);
    t.workload_identity = Some(WorkloadIdentity {
        pod_uid: pod.to_string(),
        generation: 3,
    });
    t
}

fn running(pairs: &[(&str, &str)]) -> KuasarSandbox {
    let mut notes = StringMap::new();
    for (k, v) in pairs {
        notes.insert(k.to_string(), v.to_string());
    }
    let mut s = KuasarSandbox::new(
        "sb",
        "/run/sb",
        SandboxData {
            id: "sb".to_string(),
            netns: "/run/netns/a".to_string(),
            task_address: String::new(),
            labels: StringMap::new(),
            config: Some(PodSandboxConfig {
                hostname: String::new(),
                annotations: notes,
                dns_config: None,
                resources: None,
                cgroup_parent: String::new(),
                pid_namespace: None,
            }),
        },
    );
    s.status = SandboxStatus::Running(7);
    s
}

fn container(id: &str, name: Option<&str>) -> KuasarContainer {
    KuasarContainer {
        id: id.to_string(),
        name: name.map(|n| n.to_string()),
        io_devices: vec![],
    }
}

// ── Looking after the pool ──────────────────────────────────────────────────

#[test]
fn ids_are_checked() {
    assert!(validate_id("abc-DEF_0123").is_ok());
    assert_eq!(validate_id("short"), Err(IdFault::BadLength(5)));
    assert_eq!(validate_id(&"x".repeat(65)), Err(IdFault::BadLength(65)));
    assert!(validate_id(&"x".repeat(64)).is_ok());
    assert_eq!(validate_id("abc/DEF_0123"), Err(IdFault::BadCharacter));
    // Six characters of two bytes each are long enough, and still no id.
    assert_eq!(validate_id("\u{e4}\u{e4}\u{e4}\u{e4}\u{e4}\u{e4}"), Err(IdFault::BadCharacter));
    assert_eq!(
        IdFault::BadLength(5).message("short"),
        "id must be 12-64 characters, got 5"
    );
    assert_eq!(
        IdFault::BadCharacter.message("a/b"),
        "id 'a/b' contains invalid characters (only [a-zA-Z0-9_-] allowed)"
    );
}

#[test]
fn actions_are_told_apart() {
    assert!(matches!(dispatch("template-list"), Action::TemplateList));
    assert!(matches!(dispatch("template-get"), Action::TemplateGet));
    assert!(matches!(dispatch("pool-status"), Action::PoolStatus));
    assert!(matches!(dispatch("pool-refill"), Action::PoolRefill));
    assert!(matches!(dispatch("pool-gc"), Action::PoolGc));
    let message = |a: &str| match dispatch(a) {
        Action::Unknown(m) => m,
        _ => panic!("expected a refusal"),
    };
    assert_eq!(message("template-x-y"), "unknown template action: template-x-y");
    assert_eq!(message("pool"), "unknown pool action: pool-");
    assert_eq!(message("dance"), "unknown action: dance");
    assert!(read_request("nonsense").is_none());
    let (_, action) = read_request("{}").unwrap();
    assert!(matches!(action, Action::Unknown(m) if m == "unknown action: "));
    let (_, action) = read_request(r#"{"action":"pool-gc"}"#).unwrap();
    assert!(matches!(action, Action::PoolGc));
}

#[test]
fn answers_are_lines() {
    let reply = error_reply("two\nlines");
    assert_eq!(reply_line(&reply), "{\"error\":\"two\\nlines\",\"ok\":false}\n");
}

#[test]
fn listing_is_sorted() {
    let pool = vec![
        template("b-template-id", "k", SnapshotType::Environment),
        template("a-template-id", "k", SnapshotType::WarmFork),
    ];
    let store = vec![continuation("aa-template-id", "u/g3", "u")];
    let list = value(&template_list(pool, store));
    assert_eq!(list["ok"], true);
    let ids: Vec<&str> = list["templates"]
        .as_array()
        .unwrap()
        .iter()
        .map(|t| t["template_id"].as_str().unwrap())
        .collect();
    assert_eq!(ids, ["a-template-id", "aa-template-id", "b-template-id"]);
    assert_eq!(list["templates"][0]["snapshot_type"], "warm_fork");
    assert_eq!(list["templates"][1]["pod_uid"], "u");
    assert_eq!(list["templates"][1]["generation"], 3);
    assert_eq!(list["templates"][2]["created_at_secs"], 7);
    assert!(list["templates"][2].get("pod_uid").is_none());
    assert_eq!(snapshot_type_str(&SnapshotType::Environment), "environment");
}

#[test]
fn single_templates() {
    let pool = vec![template("a-template-id", "k", SnapshotType::WarmFork)];
    let store = vec![continuation("b-template-id", "u/g3", "u")];
    let found = value(&template_get(&pool, &store, "b-template-id"));
    assert_eq!(found["template"]["snapshot_type"], "continuation");
    assert_eq!(
        value(&template_get(&pool, &store, "c-template-id")),
        want(r#"{"ok":false,"error":"template c-template-id not found"}"#)
    );
    let req = |t: &str| requested_template(&parse(t).unwrap());
    assert_eq!(req("{}").unwrap_err(), "missing template_id");
    assert_eq!(
        req(r#"{"template_id":"x"}"#).unwrap_err(),
        "invalid template_id: id must be 12-64 characters, got 1"
    );
    assert_eq!(
        req(r#"{"template_id":"a-template-id"}"#).unwrap(),
        "a-template-id"
    );
}

#[test]
fn filling_and_emptying_the_pool() {
    let depth = |t: &str| target_depth(&parse(t).unwrap());
    assert_eq!(
        depth(r#"{"kind":"environment","target_depth":3}"#),
        Ok(3)
    );
    assert_eq!(depth(r#"{"kind":"environment"}"#), Ok(1));
    assert_eq!(
        depth(r#"{"target_depth":3}"#).unwrap_err(),
        "missing required field 'kind'"
    );
    assert_eq!(
        depth(r#"{"kind":"warm_fork"}"#).unwrap_err(),
        "unsupported kind: warm_fork"
    );
    assert_eq!(
        value(&refill_reply(2, 3)),
        want(r#"{"ok":true,"queued":2,"in_flight":3}"#)
    );
    let remove = |t: &str| template_to_remove(&parse(t).unwrap());
    assert_eq!(
        remove("{}").err().unwrap(),
        "missing required field 'template_id'"
    );
    let removal = remove(r#"{"template_id":"t"}"#).ok().unwrap();
    assert_eq!(removal.id, "t");
    assert_eq!(removal.snapshot_type, SnapshotType::Environment);
    assert_eq!(
        value(&removal_reply(&Removal::Removed(4), "t")),
        want(r#"{"ok":true,"removed":1,"remaining":4}"#)
    );
    assert_eq!(
        value(&removal_reply(&Removal::NotFound, "t")),
        want(r#"{"ok":false,"error":"template t not found in pool"}"#)
    );
    assert_eq!(
        value(&removal_reply(&Removal::Failed("busy".to_string()), "t")),
        want(r#"{"ok":false,"error":"busy"}"#)
    );
}

fn number(text: &str) -> JsonNumber {
    match parse(text) {
        Some(Json::Number(n)) => n,
        _ => panic!("no number"),
    }
}

#[test]
fn state_of_the_pool() {
    let status = PoolStatus {
        total: 2,
        by_type: vec![("environment".to_string(), 2)],
        continuation: 1,
        keys: 1,
        in_flight: 0,
        by_key: vec![("k".to_string(), 2)],
        active_shared_refs: vec![],
        in_flight_restores: vec![("t".to_string(), 1)],
        gc_blocked: vec![("t".to_string(), "in use".to_string())],
        templates_created: 5,
        pool_hits: 3,
        pool_misses: 1,
        hit_rate: number("0.75"),
        avg_restore_ms: number("12.5"),
    };
    assert_eq!(
        value(&status_reply(status)),
        want(
            r#"{"ok":true,"total":2,"by_type":[{"type":"environment","count":2}],
                "continuation":1,"keys":1,"in_flight":0,
                "by_key":[{"key":"k","depth":2}],"active_shared_refs":[],
                "in_flight_restores":[{"template_id":"t","count":1}],
                "gc_blocked":[{"template_id":"t","reason":"in use"}],
                "templates_created":5,"pool_hits":3,"pool_misses":1,
                "hit_rate":0.75,"avg_restore_ms":12.5}"#
        )
    );
}

// ── The snapshot interface ──────────────────────────────────────────────────

#[test]
fn orders_for_snapshots() {
    let mut index = StringMap::new();
    index.insert("uid".to_string(), "sb".to_string());
    let mut params = StringMap::new();
    params.insert("generation".to_string(), "4".to_string());
    let none = StringMap::new();

    let o = order_snapshot("uid", "snap", SsiSnapshotMode::Fork, &params, &index)
        .ok()
        .unwrap();
    assert_eq!(o.sandbox_id, "sb");
    assert_eq!(o.key, "snap");
    assert!(matches!(o.snapshot_type, SnapshotType::WarmFork));
    assert!(o.identity.is_none());

    let o = order_snapshot("uid", "", SsiSnapshotMode::Resume, &params, &index)
        .ok()
        .unwrap();
    assert!(matches!(o.snapshot_type, SnapshotType::Continuation));
    assert_eq!(o.identity.unwrap().generation, 4);
    assert_eq!(o.key, TemplateKey::from_workload_identity("uid", 4).key);

    let fault = |uid: &str, name: &str| {
        order_snapshot(uid, name, SsiSnapshotMode::Unspecified, &none, &index)
            .err()
            .unwrap()
    };
    assert_eq!(fault("", "n"), RequestFault::NoPodUid);
    assert_eq!(fault("uid", "a/b"), RequestFault::SlashInName);
    assert_eq!(fault("other", "n"), RequestFault::PodNotFound);
    assert_eq!(fault("uid", ""), RequestFault::NoForkName);
    assert_eq!(
        RequestFault::PodNotFound.message("other"),
        "no running sandbox found for pod_uid=other"
    );
    assert_eq!(RequestFault::PodNotFound.code(), FaultCode::Internal);
    assert_eq!(RequestFault::NoForkName.code(), FaultCode::InvalidArgument);
    assert_eq!(RequestFault::SnapshotNotFound.code(), FaultCode::NotFound);
    assert_eq!(
        RequestFault::SnapshotNotFound.message("s"),
        "snapshot 's' not found"
    );
    assert_eq!(
        check_snapshot_name("").unwrap_err(),
        RequestFault::NoSnapshotName
    );
    assert_eq!(plugin_capabilities().len(), 2);
}

#[test]
fn pausing_a_sandbox() {
    let steps = pause_sandbox("sb", true).unwrap();
    assert_eq!(
        steps,
        [
            PauseStep::Snapshot,
            PauseStep::MarkPaused,
            PauseStep::StopVm,
            PauseStep::Remember,
            PauseStep::Dump
        ]
    );
    assert_eq!(
        pause_sandbox("", true).unwrap_err(),
        RequestFault::NoSandboxId
    );
    assert_eq!(
        pause_sandbox("sb", false).unwrap_err(),
        RequestFault::SandboxNotFound
    );
    let mut s = running(&[]);
    assert_eq!(pause_identity("sb", &s).pod_uid, "sb");
    s.data
        .labels
        .insert("kuasar.io/pod-uid".to_string(), "uid".to_string());
    assert_eq!(pause_identity("sb", &s).pod_uid, "uid");
    s.pause();
    s.terminated(0, 9);
    s.remember_pause("sb");
    assert_eq!(s.status, SandboxStatus::Paused);
    assert_eq!(s.template_key.as_deref(), Some("sb"));
    assert_eq!(
        resume_paused_sandbox("sb", Some(&s), true).unwrap(),
        "sb"
    );
    assert_eq!(
        resume_paused_sandbox("sb", Some(&s), false).unwrap_err(),
        RestoreRefusal::NoStore
    );
    assert_eq!(
        resume_paused_sandbox("sb", Some(&running(&[])), true).unwrap_err(),
        RestoreRefusal::WrongState
    );
    assert_eq!(
        resume_paused_sandbox("sb", None, true).unwrap_err(),
        RestoreRefusal::NotFound
    );
}

#[test]
fn what_is_told_of_sandboxes() {
    let mut s = running(&[]);
    let e = describe_sandbox(&s, None, Some("listed"));
    assert_eq!(e.pod_uid, "");
    assert_eq!(e.sandbox_id, "listed");
    assert_eq!(describe_sandbox(&s, None, None).sandbox_id, s.id);
    assert_eq!(e.status, "running");
    assert_eq!(e.created_at_secs, 0);
    assert_eq!(e.snapshot_mode, SnapshotMode::Unspecified);
    assert_eq!(
        describe_sandbox(&s, Some(5), None).snapshot_mode,
        SnapshotMode::WarmFork
    );
    s.template_snapshot_type = Some(SnapshotType::Continuation);
    s.template_key = Some("k".to_string());
    let e = describe_sandbox(&s, Some(5), None);
    assert_eq!(e.snapshot_mode, SnapshotMode::Continuation);
    assert_eq!(e.snapshot_name, "k");
    assert_eq!(e.created_at_secs, 5);
    assert_eq!(sandbox_status_str(&SandboxStatus::Created), "created");
    assert_eq!(sandbox_status_str(&SandboxStatus::Stopped(0, 0)), "stopped");
    assert_eq!(sandbox_status_str(&SandboxStatus::Paused), "paused");
}

#[test]
fn what_is_told_of_snapshots() {
    let pool = vec![
        template("t1", "fork", SnapshotType::WarmFork),
        template("t2", "env", SnapshotType::Environment),
    ];
    let store = vec![continuation("t3", "u/g3", "u")];
    let names = |filter| {
        list_snapshots(&pool, &store, filter)
            .into_iter()
            .map(|s| s.snapshot_name)
            .collect::<Vec<_>>()
    };
    assert_eq!(names(SsiSnapshotMode::Unspecified), ["fork", "u/g3"]);
    assert_eq!(names(SsiSnapshotMode::Fork), ["fork"]);
    assert_eq!(names(SsiSnapshotMode::Resume), ["u/g3"]);
    let s = get_snapshot(&pool, &store, "u/g3").unwrap();
    assert_eq!(s.pod_uid, "u");
    assert_eq!(s.mode, SsiSnapshotMode::Resume);
    assert_eq!(get_snapshot(&pool, &store, "fork").unwrap().pod_uid, "");
    assert!(get_snapshot(&pool, &store, "none").is_none());
    let deletion = delete_snapshot(&pool, &store, "fork");
    let removal = deletion.pool.unwrap();
    assert_eq!(removal.id, "t1");
    assert_eq!(removal.snapshot_type, SnapshotType::WarmFork);
    assert_eq!(deletion.store, None);
    let deletion = delete_snapshot(&pool, &store, "u/g3");
    assert!(deletion.pool.is_none());
    assert_eq!(deletion.store.as_deref(), Some("t3"));
    let deletion = delete_snapshot(&pool, &store, "none");
    assert!(deletion.pool.is_none() && deletion.store.is_none());
    assert_eq!(
        template_to_proto(&pool[1], "n", "p").mode,
        SsiSnapshotMode::Fork
    );
}

// ── Slots and restoring ─────────────────────────────────────────────────────

#[test]
fn slots_of_sandboxes() {
    assert!(create_sandbox_slot(true, "/run/sb", "s1", None, "").is_none());
    let s = create_sandbox_slot(false, "/run/sb", "s1", Some("uid"), "/ns").unwrap();
    assert_eq!(s.base_dir, "/run/sb/s1");
    assert_eq!(s.data.netns, "/ns");
    assert_eq!(sandbox_pod_uid(&s).unwrap(), "uid");
    let mut index = StringMap::new();
    assert_eq!(index_pod(&mut index, &s), None);
    assert_eq!(index_pod(&mut index, &s), None);
    let other = create_sandbox_slot(false, "/run/sb", "s2", Some("uid"), "").unwrap();
    assert_eq!(index_pod(&mut index, &other).as_deref(), Some("s1"));
    assert_eq!(index.get("uid").unwrap(), "s2");
    let alone = create_sandbox_slot(false, "/run/sb", "s3", None, "").unwrap();
    assert_eq!(index_pod(&mut index, &alone), None);
    assert_eq!(index.len(), 1);
}

#[test]
fn destroying_a_sandbox() {
    let mut s = running(&[]);
    s.template_id = Some("t".to_string());
    s.template_snapshot_type = Some(SnapshotType::WarmFork);
    s.lease_mode = Some(TemplateLeaseMode::Shared);
    let (steps, release) = destroy_sandbox(Some(&s), "", false, true).unwrap();
    assert_eq!(steps[0], DeleteStep::Stop);
    assert!(!steps.contains(&DeleteStep::RemoveCgroups));
    assert_eq!(release, Release::Deref);
    let (steps, release) = destroy_sandbox(Some(&s), "/kube", false, false).unwrap();
    assert!(steps.contains(&DeleteStep::RemoveCgroups));
    assert_eq!(release, Release::Nothing);
    assert!(destroy_sandbox(None, "", false, true).is_none());
}

#[test]
fn templates_that_are_wanted() {
    let waiting = create_sandbox_slot(false, "/run/sb", "s1", None, "").unwrap();
    let by_id = restore_sandbox_warm_fork(Some(&waiting), true, Some("k"), Some("t"))
        .ok()
        .unwrap();
    assert!(matches!(&by_id, Wanted::ById(id) if id == "t"));
    let by_key = restore_sandbox_warm_fork(Some(&waiting), true, Some("k"), None)
        .ok()
        .unwrap();
    assert!(matches!(&by_key, Wanted::ByKey(k) if k == "k"));
    let refused = |s: Option<&KuasarSandbox>, pool| {
        restore_sandbox_warm_fork(s, pool, None, None).err().unwrap()
    };
    assert_eq!(refused(None, true), RestoreRefusal::NotFound);
    assert_eq!(refused(Some(&running(&[])), true), RestoreRefusal::WrongState);
    assert_eq!(refused(Some(&waiting), false), RestoreRefusal::NoPool);
    assert_eq!(refused(Some(&waiting), true), RestoreRefusal::NoTemplateNamed);

    let fork = template("t", "k", SnapshotType::WarmFork);
    let env = template("t", "k", SnapshotType::Environment);
    assert!(check_wanted(&by_id, Some("k"), Some(&fork)).is_ok());
    assert!(matches!(
        check_wanted(&by_id, Some("other"), Some(&fork)),
        Err(TemplateFailure::KeyMismatch)
    ));
    assert!(matches!(
        check_wanted(&by_key, Some("k"), Some(&env)),
        Err(TemplateFailure::WrongType)
    ));
    assert!(matches!(
        check_wanted(&by_key, Some("k"), None),
        Err(TemplateFailure::NotAvailable)
    ));
}

#[test]
fn continuations_are_asked_for_by_name_or_by_workload() {
    let waiting = create_sandbox_slot(false, "/run/sb", "s1", None, "").unwrap();
    let by_workload = restore_sandbox_continuation(Some(&waiting), true, "uid", 4, None)
        .ok()
        .unwrap();
    assert_eq!(by_workload.key, "uid/g4");
    assert!(matches!(
        &by_workload.lookup,
        ContinuationLookup::ByWorkload(w) if w.pod_uid == "uid" && w.generation == 4
    ));
    assert_eq!(
        by_workload.lookup.settle(None).err().unwrap(),
        "no continuation snapshot available for pod_uid='uid' generation=4"
    );
    let by_name = restore_sandbox_continuation(Some(&waiting), true, "uid", 4, Some("n"))
        .ok()
        .unwrap();
    assert_eq!(by_name.key, "n");
    assert!(matches!(&by_name.lookup, ContinuationLookup::ByName(name) if name == "n"));
    assert_eq!(
        by_name.lookup.settle(None).err().unwrap(),
        "no continuation snapshot found for snapshot_name='n'"
    );
    let found = by_name.lookup.settle(Some(continuation("t", "n", "uid")));
    assert_eq!(found.ok().unwrap().id, "t");
    assert_eq!(
        settle_resume("s1", None).err().unwrap(),
        "no pause snapshot found for sandbox s1"
    );
    assert!(settle_resume("s1", Some(continuation("t", "s1", "uid"))).is_ok());
}

#[test]
fn what_a_restored_sandbox_remembers() {
    let mut s = create_sandbox_slot(false, "/run/sb", "s1", None, "").unwrap();
    let mut t = continuation("t", "u/g3", "u");
    t.netns = "/kept".to_string();
    t.id_generator = 9;
    assert!(!s.remember_continuation(ServiceRestore::Continuation, &t, "u/g3", false));
    assert_eq!(s.data.netns, "/kept");
    assert_eq!(s.id_generator, 9);
    assert_eq!(s.template_key.as_deref(), Some("u/g3"));
    s.data.netns = "/own".to_string();
    assert!(s.remember_continuation(ServiceRestore::Continuation, &t, "u/g3", false));
    assert_eq!(s.data.netns, "/own");
    assert!(s.remember_continuation(ServiceRestore::Resume, &t, "s1", false));
    assert_eq!(s.data.netns, "/kept");

    let mut f = template("f", "k", SnapshotType::WarmFork);
    f.warm_fork_targets = vec![ReadyTarget {
        container_name: "app".to_string(),
        container_id: "c".to_string(),
        socket_path: "/s".to_string(),
    }];
    s.remember_warm_fork(&f, TemplateLeaseMode::Shared, true);
    assert_eq!(s.template_key.as_deref(), Some("k"));
    let params = autonomous_params(&f.warm_fork_targets);
    assert!(params.task_id.is_none());
    assert_eq!(params.targets[0].container_id, "c");
    let source = s.service_source(
        "s1",
        f,
        SnapshotType::WarmFork,
        TemplateLeaseMode::Shared,
        MemoryRestoreMode::Copy,
        true,
        Some(params),
    );
    assert_eq!(source.work_dir, "/run/sb/s1/restore");
    assert_eq!(source.overrides.task_vsock, "/run/sb/s1/task.vsock");
    assert_eq!(source.overrides.console_path, "/tmp/s1-task.log");
    assert_eq!(source.snapshot_dir, "/f/snapshot");
}

#[test]
fn failed_service_restore_gives_back() {
    for way in [
        ServiceRestore::WarmFork,
        ServiceRestore::Continuation,
        ServiceRestore::Resume,
    ] {
        for bits in 0..8 {
            let s = ServiceSituation {
                way,
                has_netns: bits & 1 != 0,
                caller_netns: bits & 2 != 0,
                has_cgroup: bits & 4 != 0,
            };
            let steps = service_steps(s);
            for (i, step) in steps.iter().enumerate() {
                if matches!(
                    step,
                    ServiceStep::DropNetwork | ServiceStep::DropClient | ServiceStep::Monitor
                ) {
                    continue;
                }
                let undo = service_rollback(s, *step);
                let restored = steps[..i].contains(&ServiceStep::Restore);
                let stops =
                    undo.contains(&ServiceUndo::StopSandbox) || undo.contains(&ServiceUndo::StopVm);
                assert!(undo.contains(&ServiceUndo::FailLease));
                assert_eq!(stops, restored);
                if way == ServiceRestore::WarmFork {
                    assert!(undo.contains(&ServiceUndo::DestroyNetwork));
                }
            }
        }
    }
}

// ── Taking snapshots ────────────────────────────────────────────────────────

const PROTOCOL: (&str, &str) = ("kuasar.io/warm-fork-ready-protocol", "v1");

fn request(kind: SnapshotType) -> SnapshotRequest {
    SnapshotRequest {
        template_id: "t".to_string(),
        key: "k".to_string(),
        snapshot_type: kind,
        identity: None,
    }
}

fn places(pool: Option<&str>, entry: Option<&str>, exists: bool) -> SnapshotPlaces {
    SnapshotPlaces {
        pool_dir: pool.map(|d| d.to_string()),
        entry_dir: entry.map(|d| d.to_string()),
        exists,
    }
}

#[test]
fn only_waiting_workloads_are_captured() {
    let mut s = running(&[PROTOCOL]);
    s.put_container(container("c1", None));
    let plan = snapshot_from_sandbox(
        &request(SnapshotType::WarmFork),
        &places(Some("/p"), None, false),
        Some(&s),
        "virtio-blk",
    )
    .ok()
    .unwrap();
    assert_eq!(
        plan.steps,
        [
            TakeStep::CheckReady,
            TakeStep::MakeDir,
            TakeStep::Capture,
            TakeStep::KeepInPool
        ]
    );
    assert_eq!(plan.dir, "/p/warmfork/t/snapshot");
    assert_eq!(plan.next_move(0, false), TakeMove::Do(TakeStep::CheckReady));
    assert_eq!(plan.next_move(0, true), TakeMove::Fail);
    assert_eq!(plan.next_move(3, false), TakeMove::Do(TakeStep::KeepInPool));
    assert_eq!(plan.next_move(4, false), TakeMove::Done);
    let (version, targets) = plan.ready.unwrap();
    assert_eq!(version, "v1");
    assert_eq!(targets[0].container_id, "c1");
    assert_eq!(targets[0].socket_path, "/run/kuasar/warm-fork-ready.sock");
    let plan = snapshot_from_sandbox(
        &request(SnapshotType::Continuation),
        &places(None, Some("/c/e"), false),
        Some(&s),
        "virtio-blk",
    )
    .ok()
    .unwrap();
    assert_eq!(
        plan.steps,
        [
            TakeStep::MakeDir,
            TakeStep::Capture,
            TakeStep::PreserveNetns,
            TakeStep::KeepInStore
        ]
    );
    assert_eq!(plan.dir, "/c/e/snapshot");
    assert!(plan.ready.is_none());
}

#[test]
fn snapshots_that_are_refused() {
    let s = running(&[]);
    let mut stopped = running(&[]);
    stopped.status = SandboxStatus::Stopped(0, 0);
    let refusal = |kind, pool: bool, s: Option<&KuasarSandbox>, backend: &str| {
        let dir = if pool { Some("/p") } else { None };
        snapshot_from_sandbox(&request(kind), &places(dir, None, false), s, backend)
            .err()
            .unwrap()
    };
    let fork = SnapshotType::WarmFork;
    assert!(matches!(
        refusal(fork, false, Some(&s), "virtio-blk"),
        SnapshotRefusal::NoPool
    ));
    assert!(matches!(
        refusal(fork, true, None, "virtio-blk"),
        SnapshotRefusal::NotFound
    ));
    assert!(matches!(
        refusal(fork, true, Some(&stopped), "virtio-blk"),
        SnapshotRefusal::NotRunning
    ));
    assert!(matches!(
        refusal(fork, true, Some(&s), "virtiofs"),
        SnapshotRefusal::WrongBackend
    ));
    assert!(matches!(
        refusal(fork, true, Some(&s), "virtio-blk"),
        SnapshotRefusal::WrongProtocol(found) if found.is_empty()
    ));
    let waiting = running(&[PROTOCOL]);
    assert!(matches!(
        refusal(fork, true, Some(&waiting), "virtio-blk"),
        SnapshotRefusal::NoContainer
    ));
    // A continuation needs its store, and is never overwritten.
    assert!(matches!(
        refusal(SnapshotType::Continuation, true, Some(&s), "virtio-blk"),
        SnapshotRefusal::NoStore
    ));
    assert!(matches!(
        snapshot_from_sandbox(
            &request(SnapshotType::Continuation),
            &places(None, Some("/c/e"), true),
            Some(&s),
            "virtio-blk"
        ),
        Err(SnapshotRefusal::Exists)
    ));
}

#[test]
fn containers_that_wait() {
    let s = running(&[
        PROTOCOL,
        ("kuasar.io/warm-fork-containers", "a,b"),
        ("kuasar.io/warm-fork-readiness-socket", "/pod"),
        ("kuasar.io/container/b/warm-fork-readiness-socket", "/own"),
    ]);
    let listed = |list: Vec<KuasarContainer>| {
        let mut sandbox = running(&[]);
        for c in list {
            sandbox.put_container(c);
        }
        sandbox.containers
    };
    let both = listed(vec![container("c1", Some("a")), container("c2", Some("b"))]);
    let (_, targets) = ready_targets(&s.data, &both).ok().unwrap();
    assert_eq!(targets[0].container_id, "c1");
    assert_eq!(targets[0].socket_path, "/pod");
    assert_eq!(targets[1].container_name, "b");
    assert_eq!(targets[1].socket_path, "/own");
    assert!(matches!(
        ready_targets(&s.data, &listed(vec![container("c1", Some("a"))])),
        Err(SnapshotRefusal::ContainerNotFound(name)) if name == "b"
    ));
    let single = running(&[PROTOCOL]);
    assert!(matches!(
        ready_targets(&single.data, &both),
        Err(SnapshotRefusal::TooManyContainers(2))
    ));
    let twice = running(&[PROTOCOL, ("kuasar.io/warm-fork-containers", "a,a")]);
    assert!(matches!(
        ready_targets(&twice.data, &both),
        Err(SnapshotRefusal::BadNames(_))
    ));
}

#[test]
fn what_a_snapshot_keeps() {
    let m = Mount {
        mount_type: "overlay".to_string(),
        source: "/d".to_string(),
        destination: "/".to_string(),
        options: vec![],
    };
    let layer = || {
        let mut layer: Storage = image_storage("storage1", &m, "blk2", "addr", "blk", "/run/sb");
        layer.lower_dirs = Some(vec!["/l".to_string()]);
        layer.refer("c1");
        layer.refer("c1");
        layer
    };
    let mut s = running(&[]);
    s.put_container(container("c1", None));
    s.orphan_container_ids = vec!["c0".to_string(), "c1".to_string()];
    s.storages = vec![layer()];
    s.id_generator = 2;
    let metas = snapshot_containers(&s.storages);
    assert_eq!(metas.len(), 1);
    assert_eq!(metas[0].id, "c1");
    assert_eq!(metas[0].lower_dirs, ["/l"]);
    assert_eq!(metas[0].img_path, "/run/sb/storage1.img");
    let plan = snapshot_from_sandbox(
        &request(SnapshotType::Continuation),
        &places(None, Some("/entry"), false),
        Some(&s),
        "virtio-blk",
    )
    .ok()
    .unwrap();
    assert_eq!(plan.disks.len(), 1);
    assert_eq!(plan.disks[0].device_id, "blk2");
    let mut asked = request(SnapshotType::Continuation);
    asked.identity = Some(WorkloadIdentity {
        pod_uid: "u".to_string(),
        generation: 1,
    });
    let t = describe_snapshot(
        &s,
        asked,
        None,
        SnapshotMeta {
            snapshot_dir: "/entry/snapshot".to_string(),
            original_task_vsock: "/run/sb/task.vsock".to_string(),
            original_console_path: "/tmp/sb-task.log".to_string(),
            disk_images: vec![DiskImageEntry {
                storage_id: "storage1".to_string(),
                device_id: "blk2".to_string(),
                filename: "storage1.img".to_string(),
            }],
        },
        BootSettings {
            image_path: "/img".to_string(),
            kernel_path: "/kernel".to_string(),
            vcpus: 2,
            memory_mb: 512,
        },
        7,
        preserved_netns("/entry", "/run/netns/a"),
    );
    assert_eq!(t.id, "t");
    assert_eq!(t.key.key, "k");
    assert_eq!(t.pmem_path, "/img");
    assert_eq!(t.storages.len(), 1);
    assert_eq!(t.storages[0].ref_container, ["c1", "c1"]);
    assert_eq!(t.workload_identity.unwrap().pod_uid, "u");
    assert_eq!(t.netns, "/entry/preserved_netns");
    assert_eq!(t.orphan_container_ids, ["c1", "c0"]);
    assert_eq!(t.id_generator, 2);
    assert_eq!(t.snapshot_containers.len(), 1);
    assert_eq!(t.disk_images[0].filename, "storage1.img");
    assert!(t.ready_protocol_version.is_none());
    assert_eq!(preserved_netns("/entry", ""), None);
}

#[test]
fn directories_of_snapshots() {
    let dir = |kind, places| plan_snapshot_dir(&request(kind), &places);
    assert_eq!(
        dir(SnapshotType::Continuation, places(None, Some("/c/e"), false))
            .ok()
            .unwrap(),
        "/c/e/snapshot"
    );
    assert_eq!(
        dir(SnapshotType::WarmFork, places(Some("/p"), None, true))
            .ok()
            .unwrap(),
        "/p/warmfork/t/snapshot"
    );
    assert!(matches!(
        dir(SnapshotType::Continuation, places(Some("/p"), None, false)),
        Err(SnapshotRefusal::NoStore)
    ));
    assert!(matches!(
        dir(SnapshotType::Continuation, places(None, Some("/c/e"), true)),
        Err(SnapshotRefusal::Exists)
    ));
    assert!(matches!(
        dir(SnapshotType::WarmFork, places(None, Some("/c/e"), false)),
        Err(SnapshotRefusal::NoPool)
    ));
}
