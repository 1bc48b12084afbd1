use vmm_sandboxer::sandbox::template_pool::{
    parse_warm_fork_container_names, parse_warm_fork_params, NameFault,
};
use vmm_sandboxer::string_map::StringMap;
use vmm_sandboxer::vm::{
    ANNOTATION_WARM_FORK_CONTAINERS, ANNOTATION_WARM_FORK_DEFAULT_READINESS_SOCKET,
    ANNOTATION_WARM_FORK_ENV_PREFIX, ANNOTATION_WARM_FORK_READINESS_SOCKET,
    ANNOTATION_WARM_FORK_TASK_CONTEXT, ANNOTATION_WARM_FORK_TASK_ID,
};

fn notes(pairs: &[(&str, &str)]) -> StringMap {
    let mut m = StringMap::new();
    for (k, v) in pairs {
        m.insert(k.to_string(), v.to_string());
    }
    m
}

#[test]
fn test_parse_warm_fork_params_missing_task_id_is_autonomous() {
    let annotations = notes(&[]);
    let params = parse_warm_fork_params(&annotations).ok().unwrap();
    assert!(
        params.task_id.is_none(),
        "absent task-id must yield autonomous mode"
    );
    assert_eq!(params.targets.len(), 1);
    assert_eq!(
        params.targets[0].socket_path,
        ANNOTATION_WARM_FORK_DEFAULT_READINESS_SOCKET
    );
}

#[test]
fn test_parse_warm_fork_params_minimal() {
    let annotations = notes(&[(ANNOTATION_WARM_FORK_TASK_ID, "task-42")]);

    let params = parse_warm_fork_params(&annotations).ok().unwrap();
    assert_eq!(params.task_id, Some("task-42".to_string()));
    assert_eq!(params.targets.len(), 1);
    // Single-container: socket defaults to DEFAULT_READINESS_SOCKET
    assert_eq!(
        params.targets[0].socket_path,
        ANNOTATION_WARM_FORK_DEFAULT_READINESS_SOCKET
    );
    assert!(params.targets[0].context.is_empty());
    assert!(params.targets[0].env_overrides.is_empty());
}

#[test]
fn test_parse_warm_fork_params_full() {
    let foo = format!("{}FOO", ANNOTATION_WARM_FORK_ENV_PREFIX);
    let model = format!("{}MODEL_PATH", ANNOTATION_WARM_FORK_ENV_PREFIX);
    let annotations = notes(&[
        (ANNOTATION_WARM_FORK_TASK_ID, "my-task"),
        (ANNOTATION_WARM_FORK_READINESS_SOCKET, "/run/my-readiness.sock"),
        (ANNOTATION_WARM_FORK_TASK_CONTEXT, "prod-ctx"),
        (&foo, "bar"),
        (&model, "/models/llm"),
    ]);

    let params = parse_warm_fork_params(&annotations).ok().unwrap();
    assert_eq!(params.task_id, Some("my-task".to_string()));
    assert_eq!(params.targets.len(), 1);
    assert_eq!(params.targets[0].socket_path, "/run/my-readiness.sock");
    assert_eq!(params.targets[0].context, "prod-ctx");
    assert_eq!(params.targets[0].env_overrides.get("FOO").unwrap(), "bar");
    assert_eq!(
        params.targets[0].env_overrides.get("MODEL_PATH").unwrap(),
        "/models/llm"
    );
    assert_eq!(params.targets[0].env_overrides.len(), 2);
    assert_eq!(params.prepare_timeout_ms, 10_000);
    assert_eq!(params.commit_timeout_ms, 5_000);
}

#[test]
fn test_parse_warm_fork_params_multi_container() {
    let pod_key = format!("{}POD_KEY", ANNOTATION_WARM_FORK_ENV_PREFIX);
    let annotations = notes(&[
        (ANNOTATION_WARM_FORK_TASK_ID, "t-mc"),
        (ANNOTATION_WARM_FORK_CONTAINERS, "app,sidecar"),
        // Per-container socket overrides
        ("kuasar.io/container/app/warm-fork-readiness-socket", "/run/app.sock"),
        // Per-container context for sidecar
        ("kuasar.io/container/sidecar/task-context", "sc-ctx"),
        // Pod-level env
        (&pod_key, "pod-val"),
        // Per-container env for app only
        ("kuasar.io/container/app/task-env/APP_KEY", "app-val"),
    ]);

    let params = parse_warm_fork_params(&annotations).ok().unwrap();
    assert_eq!(params.task_id, Some("t-mc".to_string()));
    assert_eq!(params.targets.len(), 2);

    let app = params.targets.iter().find(|t| t.container_name == "app").unwrap();
    assert_eq!(app.socket_path, "/run/app.sock");
    assert_eq!(app.env_overrides.get("POD_KEY").unwrap(), "pod-val");
    assert_eq!(app.env_overrides.get("APP_KEY").unwrap(), "app-val");
    assert!(
        app.container_id.is_empty(),
        "container_id must be empty (resolved at restore)"
    );

    let sc = params.targets.iter().find(|t| t.container_name == "sidecar").unwrap();
    assert_eq!(sc.context, "sc-ctx");
    assert_eq!(sc.env_overrides.get("POD_KEY").unwrap(), "pod-val");
    assert!(!sc.env_overrides.contains_key("APP_KEY"));
}

#[test]
fn test_parse_warm_fork_params_empty_task_id_is_autonomous() {
    let annotations = notes(&[(ANNOTATION_WARM_FORK_TASK_ID, "")]);
    let params = parse_warm_fork_params(&annotations).ok().unwrap();
    assert!(
        params.task_id.is_none(),
        "empty task-id must yield autonomous mode, same as absent"
    );
}

#[test]
fn test_parse_warm_fork_params_env_prefix_only_no_task_id_is_autonomous() {
    let foo = format!("{}FOO", ANNOTATION_WARM_FORK_ENV_PREFIX);
    let annotations = notes(&[(&foo, "bar")]);
    let params = parse_warm_fork_params(&annotations).ok().unwrap();
    assert!(params.task_id.is_none());
    // Env override is still carried even in autonomous mode.
    assert_eq!(params.targets[0].env_overrides.get("FOO").unwrap(), "bar");
}

#[test]
fn test_parse_warm_fork_params_default_socket_path() {
    let annotations = notes(&[(ANNOTATION_WARM_FORK_TASK_ID, "t1")]);
    let params = parse_warm_fork_params(&annotations).ok().unwrap();
    assert_eq!(
        params.targets[0].socket_path,
        ANNOTATION_WARM_FORK_DEFAULT_READINESS_SOCKET
    );
}

#[test]
fn test_parse_warm_fork_params_empty_containers_annotation_returns_none() {
    // Annotation present but contains only commas/whitespace: empty name list
    let annotations = notes(&[
        (ANNOTATION_WARM_FORK_TASK_ID, "t1"),
        (ANNOTATION_WARM_FORK_CONTAINERS, " , , "),
    ]);
    assert!(
        parse_warm_fork_params(&annotations).is_err(),
        "empty container list must be rejected"
    );
}

#[test]
fn test_parse_warm_fork_params_empty_container_item_returns_error() {
    let annotations = notes(&[
        (ANNOTATION_WARM_FORK_TASK_ID, "t1"),
        (ANNOTATION_WARM_FORK_CONTAINERS, "app,,sidecar"),
    ]);
    assert!(
        parse_warm_fork_params(&annotations).is_err(),
        "empty container name item must be rejected"
    );
}

#[test]
fn test_parse_warm_fork_params_duplicate_container_name_returns_none() {
    let annotations = notes(&[
        (ANNOTATION_WARM_FORK_TASK_ID, "t1"),
        (ANNOTATION_WARM_FORK_CONTAINERS, "app,sidecar,app"),
    ]);
    assert!(
        parse_warm_fork_params(&annotations).is_err(),
        "duplicate container name must be rejected"
    );
}

#[test]
fn test_parse_warm_fork_container_names_roundtrip() {
    let annotations = notes(&[(ANNOTATION_WARM_FORK_CONTAINERS, "a,b,c")]);
    let names = parse_warm_fork_container_names(&annotations)
        .ok()
        .unwrap()
        .unwrap();
    assert_eq!(names, vec!["a", "b", "c"]);
}

#[test]
fn name_faults_are_told_apart() {
    let empty = notes(&[(ANNOTATION_WARM_FORK_CONTAINERS, "app, ,sidecar")]);
    assert!(matches!(
        parse_warm_fork_container_names(&empty),
        Err(NameFault::Empty)
    ));
    let twice = notes(&[(ANNOTATION_WARM_FORK_CONTAINERS, " app ,sidecar, app")]);
    match parse_warm_fork_container_names(&twice) {
        Err(NameFault::Duplicate(name)) => assert_eq!(name, "app"),
        _ => panic!("a name that comes twice is refused"),
    }
    let none = notes(&[]);
    assert!(matches!(parse_warm_fork_container_names(&none), Ok(None)));
}

#[test]
fn container_settings_go_before_those_of_the_pod() {
    let pod = format!("{}KEY", ANNOTATION_WARM_FORK_ENV_PREFIX);
    let annotations = notes(&[
        (ANNOTATION_WARM_FORK_CONTAINERS, "app,other"),
        (ANNOTATION_WARM_FORK_TASK_CONTEXT, "pod-ctx"),
        (ANNOTATION_WARM_FORK_READINESS_SOCKET, "/run/pod.sock"),
        (&pod, "pod"),
        ("kuasar.io/container/app/task-env/KEY", "app"),
        ("kuasar.io/container/app/task-context", "app-ctx"),
    ]);
    let params = parse_warm_fork_params(&annotations).ok().unwrap();
    assert_eq!(params.targets[0].env_overrides.get("KEY").unwrap(), "app");
    assert_eq!(params.targets[0].context, "app-ctx");
    assert_eq!(params.targets[0].socket_path, "/run/pod.sock");
    assert_eq!(params.targets[1].env_overrides.get("KEY").unwrap(), "pod");
    assert_eq!(params.targets[1].context, "pod-ctx");
}
