use aldrava::event::{is_develop_ref, resolve, resolve_event_text, to_branch_ref, InboundEvent, RunContext};
use aldrava::json::JsonValue;

fn s(v: &str) -> JsonValue {
    JsonValue::String(v.to_string())
}

fn obj(members: Vec<(&str, JsonValue)>) -> JsonValue {
    JsonValue::Object(members.into_iter().map(|(k, v)| (k.to_string(), v)).collect())
}

fn labeled_payload(label: &str, head_ref: &str, base_ref: &str) -> JsonValue {
    obj(vec![
        ("action", s("labeled")),
        ("label", obj(vec![("name", s(label))])),
        (
            "pull_request",
            obj(vec![
                ("head", obj(vec![("sha", s("abc123")), ("ref", s(head_ref))])),
                ("base", obj(vec![("ref", s(base_ref))])),
                ("user", obj(vec![("login", s("alice"))])),
            ]),
        ),
    ])
}

#[test]
fn issue_comment_on_pr_resolves_with_body_and_author() {
    let payload = obj(vec![
        (
            "issue",
            obj(vec![("number", JsonValue::Number(Some(42))), ("pull_request", obj(vec![("url", s("x"))]))]),
        ),
        ("comment", obj(vec![("body", s("/test")), ("user", obj(vec![("login", s("alice"))]))])),
    ]);
    assert_eq!(
        resolve("issue_comment", &payload),
        InboundEvent::IssueComment {
            issue_number: 42,
            comment_body: "/test".into(),
            commenter_login: "alice".into(),
        }
    );
}

#[test]
fn issue_comment_on_plain_issue_is_not_a_pr() {
    let payload = obj(vec![
        ("issue", obj(vec![("number", JsonValue::Number(Some(1)))])),
        ("comment", obj(vec![("body", s("/test"))])),
    ]);
    assert_eq!(resolve("issue_comment", &payload), InboundEvent::IssueCommentNotOnPullRequest);
}

#[test]
fn pull_request_labeled_carries_full_context() {
    let payload = labeled_payload("ci/run-tests", "feature-x", "develop");
    let ev = resolve("pull_request", &payload);
    assert_eq!(
        ev,
        InboundEvent::PullRequestLabeled {
            label_name: "ci/run-tests".into(),
            head_sha: "abc123".into(),
            head_ref: "feature-x".into(),
            base_ref: "develop".into(),
            pr_author: "alice".into(),
        }
    );
    let ctx = RunContext::resolve(&ev, Some("ci/run-tests"), "", "");
    assert!(ctx.should_run);
    // is_develop tracks the PR's own HEAD ref ("feature-x"), not its base.
    assert!(!ctx.is_develop);
    assert_eq!(ctx.checkout_ref, "abc123");
}

#[test]
fn pull_request_labeled_head_ref_develop_is_develop_true() {
    let payload = labeled_payload("ci/run-tests", "develop", "main");
    let ev = resolve("pull_request", &payload);
    let ctx = RunContext::resolve(&ev, Some("ci/run-tests"), "", "");
    assert!(ctx.is_develop);
}

#[test]
fn pull_request_labeled_wrong_label_does_not_run() {
    let payload = labeled_payload("other-label", "feature-x", "main");
    let ev = resolve("pull_request", &payload);
    let ctx = RunContext::resolve(&ev, Some("ci/run-tests"), "", "");
    assert!(!ctx.should_run);
    assert_eq!(ctx.reason, "label `other-label` does not match expected `ci/run-tests`");
}

#[test]
fn always_run_events_resolve_should_run_true() {
    for name in ["workflow_dispatch", "repository_dispatch", "schedule", "workflow_call"] {
        let ev = resolve(name, &obj(vec![]));
        assert_eq!(ev, InboundEvent::AlwaysRun { event_name: name.into() });
        let ctx = RunContext::resolve(&ev, Some("ci/run-tests"), "deadbeef", "refs/heads/main");
        assert!(ctx.should_run);
        assert_eq!(ctx.checkout_ref, "deadbeef");
    }
}

#[test]
fn unsupported_event_name_is_named_not_panicking() {
    assert_eq!(
        resolve("pull_request_review", &obj(vec![])),
        InboundEvent::Unsupported { event_name: "pull_request_review".into() }
    );
}

#[test]
fn missing_fields_resolve_to_defaults() {
    let payload = obj(vec![("issue", obj(vec![("pull_request", JsonValue::Null)]))]);
    assert_eq!(
        resolve("issue_comment", &payload),
        InboundEvent::IssueComment { issue_number: 0, comment_body: String::new(), commenter_login: String::new() }
    );
    let negative = obj(vec![("issue", obj(vec![("number", JsonValue::Number(None)), ("pull_request", JsonValue::Null)]))]);
    assert!(matches!(resolve("issue_comment", &negative), InboundEvent::IssueComment { issue_number: 0, .. }));
}

#[test]
fn pull_request_target_other_action_resolves_context() {
    let payload = obj(vec![
        ("action", s("synchronize")),
        (
            "pull_request",
            obj(vec![
                ("head", obj(vec![("sha", s("f00")), ("ref", s("topic"))])),
                ("base", obj(vec![("ref", s("main"))])),
                ("user", obj(vec![("login", s("bob"))])),
            ]),
        ),
    ]);
    let ev = resolve("pull_request_target", &payload);
    assert_eq!(
        ev,
        InboundEvent::PullRequestOther {
            head_sha: "f00".into(),
            head_ref: "topic".into(),
            base_ref: "main".into(),
            pr_author: "bob".into(),
        }
    );
    let ctx = RunContext::resolve(&ev, None, "", "");
    assert!(ctx.should_run);
    assert_eq!(ctx.branch_ref, "refs/heads/topic");
    assert_eq!(ctx.base_ref, "refs/heads/main");
    assert_eq!(ctx.pr_author, "bob");
    assert_eq!(ctx.reason, "resolved");
    let wanted = RunContext::resolve(&ev, Some("ci"), "", "");
    assert!(!wanted.should_run);
    assert_eq!(wanted.reason, "pull_request action does not carry the requested label");
}

#[test]
fn unsupported_event_has_no_run_context() {
    let ev = InboundEvent::Unsupported { event_name: "push".into() };
    let ctx = RunContext::resolve(&ev, None, "sha", "refs/heads/main");
    assert_eq!(ctx, RunContext::not_running("event source has no resolvable run context".into()));
    assert!(ctx.branch_ref.is_empty());
}

#[test]
fn always_run_on_develop_fallback_is_develop() {
    let ev = InboundEvent::AlwaysRun { event_name: "schedule".into() };
    let ctx = RunContext::resolve(&ev, None, "sha", "refs/heads/develop");
    assert!(ctx.is_develop);
    assert_eq!(ctx.reason, "always-run event");
}

#[test]
fn branch_refs_are_normalized() {
    assert_eq!(to_branch_ref("feature-x"), "refs/heads/feature-x");
    assert!(is_develop_ref("refs/heads/develop"));
    assert!(!is_develop_ref("develop"));
}

#[test]
fn pull_request_event_without_a_pull_request_is_unsupported() {
    assert_eq!(resolve("pull_request", &obj(vec![])), InboundEvent::Unsupported { event_name: "pull_request".to_string() });
    assert_eq!(
        resolve("pull_request_target", &obj(vec![("action", s("labeled"))])),
        InboundEvent::Unsupported { event_name: "pull_request_target".to_string() }
    );
}

#[test]
fn event_text_is_parsed_then_resolved() {
    let text = r#"{"action":"labeled","label":{"name":"ci/run"},"pull_request":{"number":5,"head":{"sha":"s1","ref":"topic"},"base":{"ref":"main"},"user":{"login":"alice"}}}"#;
    let parsed = obj(vec![
        ("action", s("labeled")),
        ("label", obj(vec![("name", s("ci/run"))])),
        (
            "pull_request",
            obj(vec![
                ("number", JsonValue::Number(Some(5))),
                ("head", obj(vec![("sha", s("s1")), ("ref", s("topic"))])),
                ("base", obj(vec![("ref", s("main"))])),
                ("user", obj(vec![("login", s("alice"))])),
            ]),
        ),
    ]);
    let got = resolve_event_text("pull_request", text).expect("valid JSON");
    assert_eq!(got, resolve("pull_request", &parsed));
    assert!(matches!(got, InboundEvent::PullRequestLabeled { .. }));
    assert_eq!(resolve_event_text("pull_request", "{}"), Some(InboundEvent::Unsupported { event_name: "pull_request".to_string() }));
    assert_eq!(resolve_event_text("pull_request", "{not json"), None);
    assert_eq!(resolve_event_text("issue_comment", ""), None);
}
