use vmm_sandboxer::guest_runtime::appliance::{
    check_ready, on_forward_event, ApplianceRuntime, BootstrapPayload, ForwardAction, ForwardEvent,
    HandshakeError,
};
use vmm_sandboxer::guest_runtime::vmm_task::{
    build_setup_sandbox_request, AgentStep, VmmTaskRuntime,
};
use vmm_sandboxer::guest_runtime::RuntimeKind;
use vmm_sandboxer::json::parse;
use vmm_sandboxer::profile::{
    SandboxProfile, ANNOTATION_APPLIANCE_APP, ANNOTATION_APPLIANCE_ARGS,
    ANNOTATION_APPLIANCE_ENV_PREFIX, ANNOTATION_APPLIANCE_HEARTBEAT_MS,
    ANNOTATION_APPLIANCE_READY_CHECK, ANNOTATION_APPLIANCE_READY_TIMEOUT_MS,
};
use vmm_sandboxer::sandbox::data::{DnsConfig, PodSandboxConfig, SandboxData};
use vmm_sandboxer::string_map::StringMap;

fn pod(annotations: StringMap, hostname: &str) -> PodSandboxConfig {
    PodSandboxConfig {
        hostname: hostname.to_string(),
        annotations,
        dns_config: None,
        resources: None,
        cgroup_parent: String::new(),
        pid_namespace: None,
    }
}

fn data(id: &str, config: Option<PodSandboxConfig>) -> SandboxData {
    SandboxData {
        id: id.to_string(),
        netns: String::new(),
        task_address: String::new(),
        labels: StringMap::new(),
        config,
    }
}

fn read(line: &str) -> serde_json::Value {
    serde_json::from_str(line.trim_end()).unwrap()
}

// ── Runtime kinds ───────────────────────────────────────────────────────────

#[test]
fn test_default_runtime_kind_is_still_vmm_task() {
    assert!(matches!(RuntimeKind::default(), RuntimeKind::VmmTask));
}

#[test]
fn test_runtime_kind_default_is_vmm_task() {
    assert!(matches!(RuntimeKind::default(), RuntimeKind::VmmTask));
}

#[test]
fn test_runtime_kind_serializes_to_snake_case_json() {
    assert_eq!(RuntimeKind::VmmTask.name(), "vmm_task");
}

#[test]
fn test_runtime_kind_deserializes_from_json() {
    let kind = RuntimeKind::from_name("vmm_task").unwrap();
    assert!(matches!(kind, RuntimeKind::VmmTask));
    assert!(RuntimeKind::from_name("VmmTask").is_none());
}

#[test]
fn test_runtime_kind_defaults_when_field_absent_in_json() {
    let kept = parse("{}").unwrap();
    let kind = match kept.get_text("runtime_kind") {
        Some(name) => RuntimeKind::from_name(name).unwrap(),
        None => RuntimeKind::default(),
    };
    assert!(matches!(kind, RuntimeKind::VmmTask));
}

#[test]
fn test_appliance_runtime_kind_serializes_to_appliance() {
    assert_eq!(RuntimeKind::Appliance.name(), "appliance");
}

#[test]
fn test_appliance_runtime_kind_deserializes_from_appliance() {
    let kind = RuntimeKind::from_name("appliance").unwrap();
    assert!(matches!(kind, RuntimeKind::Appliance));
}

#[test]
fn profiles_choose_the_runtime() {
    assert!(matches!(SandboxProfile::Standard.runtime_kind(), RuntimeKind::VmmTask));
    assert!(matches!(SandboxProfile::Appliance.runtime_kind(), RuntimeKind::Appliance));
    assert!(SandboxProfile::Standard.needs_virtiofsd());
    assert!(!SandboxProfile::Appliance.needs_virtiofsd());
}

// ── Bootstrap messages ──────────────────────────────────────────────────────

#[test]
fn test_bootstrap_payload_serializes_to_json_line() {
    let mut env = StringMap::new();
    env.insert("MY_VAR".to_string(), "hello world".to_string());
    let payload = BootstrapPayload {
        message_type: "BOOTSTRAP",
        sandbox_id: "sb-001".to_string(),
        app: "/usr/bin/myapp".to_string(),
        args: vec!["--flag".to_string(), "arg with spaces".to_string()],
        env,
        hostname: Some("my-host".to_string()),
        dns_servers: vec!["8.8.8.8".to_string()],
        search_domains: vec!["example.com".to_string()],
        heartbeat_interval_ms: Some(5000),
        ready_check: None,
        ready_timeout_ms: None,
    };
    let line = payload.to_json_line();
    assert!(line.ends_with('\n'));
    let v = read(&line);
    assert_eq!(v["type"], "BOOTSTRAP");
    assert_eq!(v["sandbox_id"], "sb-001");
    assert_eq!(v["app"], "/usr/bin/myapp");
    assert_eq!(v["args"][1], "arg with spaces");
    assert_eq!(v["env"]["MY_VAR"], "hello world");
    assert_eq!(v["heartbeat_interval_ms"], 5000);
    assert!(v.get("ready_check").is_none());
    assert_eq!(line.matches('\n').count(), 1);
}

#[test]
fn test_bootstrap_payload_from_sandbox_data_uses_annotation() {
    let mut annotations = StringMap::new();
    annotations.insert(
        ANNOTATION_APPLIANCE_APP.to_string(),
        "/usr/bin/annotated-app".to_string(),
    );
    annotations.insert(
        ANNOTATION_APPLIANCE_ARGS.to_string(),
        r#"["--port","8080","arg with spaces"]"#.to_string(),
    );
    annotations.insert(
        format!("{}MY_VAR", ANNOTATION_APPLIANCE_ENV_PREFIX),
        "value with spaces".to_string(),
    );
    annotations.insert(
        ANNOTATION_APPLIANCE_HEARTBEAT_MS.to_string(),
        "5000".to_string(),
    );
    let data = data("sb-001", Some(pod(annotations, "my-vm")));
    let payload = BootstrapPayload::from_sandbox_data("sb-001", &data, "/usr/bin/default");
    assert_eq!(payload.app, "/usr/bin/annotated-app");
    assert_eq!(payload.args, ["--port", "8080", "arg with spaces"]);
    assert_eq!(
        payload.env.get("MY_VAR").map(String::as_str),
        Some("value with spaces")
    );
    assert_eq!(payload.hostname.as_deref(), Some("my-vm"));
    assert_eq!(payload.heartbeat_interval_ms, Some(5000));
}

#[test]
fn test_bootstrap_payload_from_sandbox_data_falls_back_to_default_app() {
    let data = data("sb-002", None);
    let payload = BootstrapPayload::from_sandbox_data("sb-002", &data, "/usr/bin/default-app");
    assert_eq!(payload.app, "/usr/bin/default-app");
    assert!(payload.args.is_empty());
    assert!(payload.env.is_empty());
}

#[test]
fn bootstrap_takes_name_service_and_readiness_from_the_pod() {
    let mut annotations = StringMap::new();
    annotations.insert(ANNOTATION_APPLIANCE_ARGS.to_string(), "no list".to_string());
    annotations.insert(
        ANNOTATION_APPLIANCE_READY_CHECK.to_string(),
        "/bin/ready".to_string(),
    );
    annotations.insert(
        ANNOTATION_APPLIANCE_READY_TIMEOUT_MS.to_string(),
        "70000".to_string(),
    );
    annotations.insert(
        ANNOTATION_APPLIANCE_HEARTBEAT_MS.to_string(),
        "soon".to_string(),
    );
    let mut config = pod(annotations, "");
    config.dns_config = Some(DnsConfig {
        servers: vec!["1.1.1.1".to_string()],
        searches: vec!["a.example".to_string(), "b.example".to_string()],
        options: vec![],
    });
    let data = data("sb-003", Some(config));
    let payload = BootstrapPayload::from_sandbox_data("sb-003", &data, "/app");
    assert!(payload.args.is_empty());
    assert_eq!(payload.hostname, None);
    assert_eq!(payload.dns_servers, ["1.1.1.1"]);
    assert_eq!(payload.search_domains, ["a.example", "b.example"]);
    assert_eq!(payload.heartbeat_interval_ms, None);
    assert_eq!(payload.ready_check.as_deref(), Some("/bin/ready"));
    assert_eq!(payload.ready_timeout_ms, Some(70000));
}

// ── The handshake ───────────────────────────────────────────────────────────

#[test]
fn test_appliance_runtime_new_stores_sandbox_id_and_default_app() {
    let rt = ApplianceRuntime::new("sb-001", "/usr/bin/default");
    assert_eq!(rt.sandbox_id, "sb-001");
    assert_eq!(rt.default_app, "/usr/bin/default");
}

#[test]
fn test_wait_ready_succeeds_on_valid_ready_message() {
    let sandbox_id = "sb-appliance-001";
    let mut runtime = ApplianceRuntime::new(sandbox_id, "/bin/app");
    let msg = format!(
        r#"{{"type":"READY","sandbox_id":"{}","version":"1","init":"kuasar-init"}}"#,
        sandbox_id
    );
    assert!(runtime.accept_line(&format!("{}\n", msg)).is_ok());
    assert!(runtime.connection.reader, "reader must be stored after READY");
    assert!(runtime.connection.writer, "writer must be stored after READY");
}

#[test]
fn test_wait_ready_bootstrap_contains_args_and_env() {
    let sandbox_id = "sb-appliance-bootstrap";
    let mut annotations = StringMap::new();
    annotations.insert(
        ANNOTATION_APPLIANCE_APP.to_string(),
        "/usr/bin/myapp".to_string(),
    );
    annotations.insert(
        ANNOTATION_APPLIANCE_ARGS.to_string(),
        r#"["--port","8080","arg with spaces"]"#.to_string(),
    );
    annotations.insert(
        format!("{}MY_SECRET", ANNOTATION_APPLIANCE_ENV_PREFIX),
        "value with = and spaces".to_string(),
    );
    let data = data(sandbox_id, Some(pod(annotations, "")));
    let runtime = ApplianceRuntime::new(sandbox_id, "");
    let v = read(&runtime.bootstrap(&data));
    assert_eq!(v["sandbox_id"], "sb-appliance-bootstrap");
    assert_eq!(v["app"], "/usr/bin/myapp");
    assert_eq!(v["args"][2], "arg with spaces");
    assert_eq!(v["env"]["MY_SECRET"], "value with = and spaces");
}

#[test]
fn test_wait_ready_fails_on_mismatched_sandbox_id() {
    let mut runtime = ApplianceRuntime::new("sb-expected", "");
    let result = runtime.accept_line(
        r#"{"type":"READY","sandbox_id":"wrong-id","version":"1","init":"kuasar-init"}"#,
    );
    match result {
        Err(HandshakeError::IdMismatch { expected, got }) => {
            assert_eq!(expected, "sb-expected");
            assert_eq!(got, "wrong-id");
        }
        _ => panic!("must fail on sandbox_id mismatch"),
    }
    assert!(!runtime.connection.reader && !runtime.connection.writer);
}

#[test]
fn test_wait_ready_fails_on_wrong_message_type() {
    let sandbox_id = "sb-appliance-002";
    let mut runtime = ApplianceRuntime::new(sandbox_id, "");
    let msg = format!(r#"{{"type":"HEARTBEAT","sandbox_id":"{}"}}"#, sandbox_id);
    match runtime.accept_line(&msg) {
        Err(HandshakeError::Unexpected(kind)) => assert_eq!(kind, "HEARTBEAT"),
        _ => panic!("must fail when first message is not READY"),
    }
}

#[test]
fn test_wait_ready_fails_on_fatal_message_and_propagates_reason() {
    let sandbox_id = "sb-appliance-003";
    let mut runtime = ApplianceRuntime::new(sandbox_id, "");
    let msg = format!(
        r#"{{"type":"FATAL","sandbox_id":"{}","exit_code":-1,"reason":"init.d hook failed: 10-env.sh (exit 1)"}}"#,
        sandbox_id
    );
    match runtime.accept_line(&msg) {
        Err(HandshakeError::Fatal(reason)) => assert!(
            reason.contains("init.d hook failed"),
            "error should include the FATAL reason; got: {}",
            reason
        ),
        _ => panic!("must return Err when guest sends FATAL"),
    }
    let bare = parse(r#"{"type":"FATAL"}"#).unwrap();
    match check_ready("sb", &bare) {
        Err(HandshakeError::Fatal(reason)) => assert_eq!(reason, "(no reason)"),
        _ => panic!("must return Err when guest sends FATAL"),
    }
}

#[test]
fn test_wait_ready_fails_on_invalid_json() {
    let mut runtime = ApplianceRuntime::new("sb-appliance-004", "");
    let result = runtime.accept_line("not-valid-json{{{{");
    assert!(
        matches!(result, Err(HandshakeError::InvalidJson)),
        "must return Err on malformed JSON"
    );
}

#[test]
fn addresses_other_than_unix_sockets_are_refused() {
    let runtime = ApplianceRuntime::new("sb-001", "");
    assert_eq!(
        runtime.socket_path("unix:///tmp/a.sock").ok().unwrap(),
        "/tmp/a.sock"
    );
    assert!(matches!(
        runtime.socket_path("hvsock:///tmp/a.sock"),
        Err(HandshakeError::UnsupportedAddress)
    ));
}

// ── A running guest ─────────────────────────────────────────────────────────

#[test]
fn test_appliance_start_forward_events_warns_when_no_stream() {
    let mut rt = ApplianceRuntime::new("sb-001", "");
    assert!(!rt.take_reader());
}

#[test]
fn test_start_forward_events_signals_on_fatal() {
    let fatal =
        r#"{"type":"FATAL","sandbox_id":"sb-appliance-fwd-001","reason":"oom","exit_code":-1}"#;
    let event = ForwardEvent::Line(format!("{}\n", fatal));
    assert_eq!(on_forward_event(&event), ForwardAction::SignalExit);
}

#[test]
fn test_start_forward_events_signals_on_eof() {
    let sandbox_id = "sb-appliance-fwd-002";
    let mut runtime = ApplianceRuntime::new(sandbox_id, "/bin/app");
    let ready = r#"{"type":"READY","sandbox_id":"sb-appliance-fwd-002","version":"1","init":"kuasar-init"}"#;
    assert!(runtime.accept_line(ready).is_ok());
    assert!(runtime.take_reader());
    assert!(!runtime.take_reader());
    assert_eq!(on_forward_event(&ForwardEvent::Closed), ForwardAction::SignalExit);
    assert_eq!(on_forward_event(&ForwardEvent::ReadError), ForwardAction::SignalExit);
}

#[test]
fn heartbeats_and_noise_are_passed_over() {
    let beat = ForwardEvent::Line(r#"{"type":"HEARTBEAT"}"#.to_string());
    let noise = ForwardEvent::Line("FATAL".to_string());
    let other = ForwardEvent::Line(r#"["FATAL"]"#.to_string());
    assert_eq!(on_forward_event(&beat), ForwardAction::Continue);
    assert_eq!(on_forward_event(&noise), ForwardAction::Continue);
    assert_eq!(on_forward_event(&other), ForwardAction::Continue);
    assert_eq!(on_forward_event(&ForwardEvent::Exit), ForwardAction::Stop);
}

#[test]
fn test_shutdown_writes_shutdown_message() {
    let sandbox_id = "sb-appliance-shutdown-001";
    let mut runtime = ApplianceRuntime::new(sandbox_id, "/bin/app");
    let ready = r#"{"type":"READY","sandbox_id":"sb-appliance-shutdown-001","version":"1","init":"kuasar-init"}"#;
    assert!(runtime.accept_line(ready).is_ok());
    let received = runtime.shutdown(5000).unwrap();
    assert!(received.ends_with('\n'));
    let v = read(&received);
    assert_eq!(v["type"], "SHUTDOWN");
    assert_eq!(v["deadline_ms"], 5000);
}

#[test]
fn test_shutdown_is_noop_without_prior_wait_ready() {
    let runtime = ApplianceRuntime::new("sb-001", "");
    assert!(runtime.shutdown(5000).is_none());
}

#[test]
fn test_reconnect_returns_ok_immediately_without_any_socket_activity() {
    let mut runtime = ApplianceRuntime::new("sb-001", "");
    assert!(runtime.reconnect().is_ok());
    assert!(!runtime.connection.reader && !runtime.connection.writer);
}

// ── The agent ───────────────────────────────────────────────────────────────

#[test]
fn test_vmm_task_runtime_new_has_no_client() {
    let rt = VmmTaskRuntime::new();
    assert!(rt.client.is_none());
}

#[test]
fn test_reconnect_does_not_call_setup_sandbox() {
    let mut runtime = VmmTaskRuntime::new();
    let steps = runtime.reconnect_steps();
    assert!(
        !steps.contains(&AgentStep::SetupSandbox),
        "reconnect must not call setup_sandbox"
    );
    runtime.settle("unix:///tmp/agent.sock", steps.len(), steps.len());
    assert!(
        runtime.client.is_some(),
        "reconnect should populate the ttrpc client"
    );
}

#[test]
fn test_wait_ready_calls_setup_sandbox() {
    let mut runtime = VmmTaskRuntime::new();
    let steps = runtime.wait_ready_steps();
    assert!(
        steps.contains(&AgentStep::SetupSandbox),
        "wait_ready must call setup_sandbox to configure the guest network"
    );
    runtime.settle("unix:///tmp/agent.sock", steps.len(), steps.len());
    assert!(
        runtime.client.is_some(),
        "wait_ready should populate the ttrpc client"
    );
}

#[test]
fn a_failed_request_leaves_the_agent_unconnected() {
    let mut runtime = VmmTaskRuntime::new();
    runtime.settle("unix:///tmp/agent.sock", 1, 3);
    assert!(!runtime.is_connected());
}

#[test]
fn setup_request_holds_pod_and_network() {
    let full = build_setup_sandbox_request(
        Some("{}".to_string()),
        Some((vec!["eth0"], vec!["default", "local"])),
    );
    assert_eq!(
        full.config,
        Some(("PodSandboxConfig".to_string(), "{}".to_string()))
    );
    assert_eq!(full.interfaces, vec!["eth0"]);
    assert_eq!(full.routes, vec!["default", "local"]);
    let none: Option<(Vec<u8>, Vec<u8>)> = None;
    let bare = build_setup_sandbox_request(None, none);
    assert!(bare.config.is_none() && bare.interfaces.is_empty() && bare.routes.is_empty());
}
