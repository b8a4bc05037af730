use aldrava::environment::{urlencoding_light, EnvError, Environment, MockEnvironment, PullRequestInfo};
use aldrava::json::JsonValue;
use aldrava::spec::{InputMap, Permission};

#[test]
fn mock_records_relabel_as_remove_then_add() {
    let mut env = MockEnvironment::new();
    env.relabel(7, "ci/run-tests").unwrap();
    assert_eq!(env.labels_removed().as_slice(), &[(7, "ci/run-tests".to_string())]);
    assert_eq!(env.labels_added().as_slice(), &[(7, "ci/run-tests".to_string())]);
}

#[test]
fn mock_unknown_login_has_none_permission() {
    let mut env = MockEnvironment::new().with_permission("alice", Permission::Write);
    assert_eq!(env.collaborator_permission("alice"), Permission::Write);
    assert_eq!(env.collaborator_permission("mallory"), Permission::NoAccess);
}

#[test]
fn mock_pull_request_lookup() {
    let mut env = MockEnvironment::new().with_pull_request(
        42,
        PullRequestInfo {
            author: "alice".into(),
            head_sha: "sha1".into(),
            head_ref: "feature".into(),
            base_ref: "develop".into(),
        },
    );
    assert_eq!(env.get_pull_request(42).unwrap().author, "alice");
    assert!(env.get_pull_request(99).is_none());
}

#[test]
fn later_seed_overrides_earlier() {
    let mut env = MockEnvironment::new()
        .with_permission("bob", Permission::Read)
        .with_permission("bob", Permission::Admin);
    assert_eq!(env.collaborator_permission("bob"), Permission::Admin);
}

#[test]
fn mock_records_dispatches() {
    let mut env = MockEnvironment::default();
    let mut inputs = InputMap::new();
    inputs.insert("k".into(), "v".into());
    env.dispatch_workflow("ci.yml", "refs/heads/main", &inputs).unwrap();
    env.repository_dispatch("go", Some("o/r"), &JsonValue::Bool(true)).unwrap();
    env.repository_dispatch("stay", None, &JsonValue::Null).unwrap();
    let workflows = env.workflow_dispatches();
    let repository = env.repository_dispatches();
    assert_eq!(workflows.len(), 1);
    assert_eq!(workflows[0].0, "ci.yml");
    assert_eq!(workflows[0].1, "refs/heads/main");
    assert_eq!(workflows[0].2.get("k").map(String::as_str), Some("v"));
    assert_eq!(repository[0], ("go".to_string(), Some("o/r".to_string()), JsonValue::Bool(true)));
    assert_eq!(repository[1], ("stay".to_string(), None, JsonValue::Null));
}

#[test]
fn env_error_text() {
    let e = EnvError::Request("boom".into());
    assert_eq!(e.to_string(), "GitHub API request failed: boom");
}

#[test]
fn label_names_are_percent_encoded() {
    assert_eq!(urlencoding_light("ci/run-tests"), "ci%2Frun-tests");
    assert_eq!(urlencoding_light("A-z_0.9~"), "A-z_0.9~");
    assert_eq!(urlencoding_light("a b"), "a%20b");
    assert_eq!(urlencoding_light("é"), "%C3%A9");
    assert_eq!(urlencoding_light(""), "");
}

use aldrava::environment::{
    add_label_body, dispatch_repo, label_path, labels_path, permission_from_response, permission_path,
    pull_path, pull_request_from_response, repos_url, repository_dispatch_body, workflow_body, workflow_path,
};

fn s(v: &str) -> JsonValue {
    JsonValue::String(v.to_string())
}

fn obj(members: Vec<(&str, JsonValue)>) -> JsonValue {
    JsonValue::Object(members.into_iter().map(|(k, v)| (k.to_string(), v)).collect())
}

#[test]
fn api_urls() {
    assert_eq!(repos_url("https://api.github.com", "o", "r", "/pulls/7"), "https://api.github.com/repos/o/r/pulls/7");
    assert_eq!(permission_path("alice"), "/collaborators/alice/permission");
    assert_eq!(pull_path(42), "/pulls/42");
    assert_eq!(labels_path(7), "/issues/7/labels");
    assert_eq!(label_path(7, "ci/run tests"), "/issues/7/labels/ci%2Frun%20tests");
    assert_eq!(workflow_path("deploy.yml"), "/actions/workflows/deploy.yml/dispatches");
}

#[test]
fn dispatch_repo_defaults_and_splits() {
    assert_eq!(dispatch_repo("o", "r", None), ("o".to_string(), "r".to_string()));
    assert_eq!(dispatch_repo("o", "r", Some("x/y")), ("x".to_string(), "y".to_string()));
    assert_eq!(dispatch_repo("o", "r", Some("plain")), ("o".to_string(), "r".to_string()));
}

#[test]
fn api_bodies() {
    assert_eq!(add_label_body("ci"), obj(vec![("labels", JsonValue::Array(vec![s("ci")]))]));
    let mut inputs = InputMap::new();
    inputs.insert("env".into(), "prod".into());
    assert_eq!(
        workflow_body("refs/heads/main", &inputs),
        obj(vec![("inputs", obj(vec![("env", s("prod"))])), ("ref", s("refs/heads/main"))])
    );
    assert_eq!(
        repository_dispatch_body("go", &JsonValue::Null),
        obj(vec![("client_payload", JsonValue::Null), ("event_type", s("go"))])
    );
}

#[test]
fn api_responses() {
    assert_eq!(permission_from_response(&obj(vec![("permission", s("maintain"))])), Permission::Maintain);
    assert_eq!(permission_from_response(&obj(vec![("permission", JsonValue::Bool(true))])), Permission::NoAccess);
    assert_eq!(permission_from_response(&JsonValue::Null), Permission::NoAccess);
    let body = obj(vec![
        ("user", obj(vec![("login", s("alice"))])),
        ("head", obj(vec![("sha", s("abc")), ("ref", s("topic"))])),
        ("base", obj(vec![("ref", s("main"))])),
    ]);
    let pr = pull_request_from_response(&body).unwrap();
    assert_eq!(pr, PullRequestInfo { author: "alice".into(), head_sha: "abc".into(), head_ref: "topic".into(), base_ref: "main".into() });
    let partial = obj(vec![("user", obj(vec![("login", s("alice"))]))]);
    assert!(pull_request_from_response(&partial).is_none());
}

#[test]
fn workflow_body_lists_inputs_in_key_order() {
    let mut inputs = InputMap::new();
    inputs.insert("zone".into(), "eu".into());
    inputs.insert("app".into(), "web".into());
    assert_eq!(
        workflow_body("refs/heads/main", &inputs),
        obj(vec![("inputs", obj(vec![("app", s("web")), ("zone", s("eu"))])), ("ref", s("refs/heads/main"))])
    );
}
