use aldrava::environment::{EnvError, MockEnvironment, Mutation, PullRequestInfo};
use aldrava::event::InboundEvent;
use aldrava::interp::{apply, finish, ResolvedContext, judge, knock_of, mutations, trusted_before_permission, DispatchOutcome, SpecError};
use aldrava::json::JsonValue;
use aldrava::spec::{CatalogSpec, CommentCommandSpec, DispatchTarget, InputMap, Permission};

fn label_command(name: &str, trigger: &str) -> CommentCommandSpec {
    CommentCommandSpec {
        name: name.to_string(),
        trigger: trigger.to_string(),
        min_permission: Permission::Write,
        trust_pr_author: true,
        allowlist: Vec::new(),
        target: DispatchTarget::Label { name: "ci/run-tests".to_string() },
    }
}

fn pr(author: &str) -> PullRequestInfo {
    PullRequestInfo {
        author: author.to_string(),
        head_sha: "deadbeef".to_string(),
        head_ref: "feature-x".to_string(),
        base_ref: "develop".to_string(),
    }
}

fn comment(body: &str, commenter: &str) -> InboundEvent {
    InboundEvent::IssueComment {
        issue_number: 7,
        comment_body: body.to_string(),
        commenter_login: commenter.to_string(),
    }
}

#[test]
fn trusted_pr_author_dispatches_and_relabels() {
    let catalog = CatalogSpec::single(label_command("test", "/test"));
    let mut env = MockEnvironment::new().with_pull_request(7, pr("alice"));
    let outcome = apply(&catalog, &comment("/test", "alice"), &mut env).unwrap();
    assert!(outcome.dispatched());
    assert_eq!(env.labels_added().as_slice(), &[(7, "ci/run-tests".to_string())]);
    assert_eq!(env.labels_removed().as_slice(), &[(7, "ci/run-tests".to_string())]);
    let DispatchOutcome::Dispatched { context, .. } = outcome else { unreachable!() };
    // is_develop tracks the PR's own HEAD ref ("feature-x"), not its base.
    assert!(!context.is_develop);
    assert_eq!(context.checkout_ref, "deadbeef");
}

#[test]
fn untrusted_commenter_below_min_permission_is_rejected() {
    let catalog = CatalogSpec::single(label_command("test", "/test"));
    let mut env = MockEnvironment::new()
        .with_pull_request(7, pr("alice"))
        .with_permission("mallory", Permission::Read);
    let outcome = apply(&catalog, &comment("/test", "mallory"), &mut env).unwrap();
    assert!(matches!(outcome, DispatchOutcome::Rejected { .. }));
    assert!(env.labels_added().is_empty(), "must never mutate on an untrusted knock");
}

#[test]
fn write_permission_commenter_who_is_not_the_author_is_trusted() {
    let catalog = CatalogSpec::single(label_command("test", "/test"));
    let mut env = MockEnvironment::new()
        .with_pull_request(7, pr("alice"))
        .with_permission("bob", Permission::Write);
    let outcome = apply(&catalog, &comment("/test", "bob"), &mut env).unwrap();
    assert!(outcome.dispatched());
}

#[test]
fn allowlisted_login_is_trusted_regardless_of_permission() {
    let mut cmd = label_command("test", "/test");
    cmd.trust_pr_author = false;
    cmd.min_permission = Permission::Admin;
    cmd.allowlist = vec!["release-bot".to_string()];
    let catalog = CatalogSpec::single(cmd);
    let mut env = MockEnvironment::new().with_pull_request(7, pr("alice"));
    let outcome = apply(&catalog, &comment("/test", "release-bot"), &mut env).unwrap();
    assert!(outcome.dispatched());
}

#[test]
fn unknown_command_is_no_match() {
    let catalog = CatalogSpec::single(label_command("test", "/test"));
    let mut env = MockEnvironment::new().with_pull_request(7, pr("alice"));
    let outcome = apply(&catalog, &comment("/bogus", "alice"), &mut env).unwrap();
    assert!(matches!(outcome, DispatchOutcome::NoMatch { .. }));
}

#[test]
fn trigger_prefix_without_boundary_does_not_match() {
    // "/testing" must NOT match a "/test" trigger.
    let catalog = CatalogSpec::single(label_command("test", "/test"));
    let mut env = MockEnvironment::new().with_pull_request(7, pr("alice"));
    let outcome = apply(&catalog, &comment("/testing something", "alice"), &mut env).unwrap();
    assert!(matches!(outcome, DispatchOutcome::NoMatch { .. }));
}

#[test]
fn args_after_trigger_are_captured() {
    let catalog = CatalogSpec::single(label_command("deploy", "/deploy"));
    let mut env = MockEnvironment::new().with_pull_request(7, pr("alice"));
    let outcome = apply(&catalog, &comment("/deploy staging now", "alice"), &mut env).unwrap();
    let DispatchOutcome::Dispatched { args, .. } = outcome else { panic!("expected dispatch") };
    assert_eq!(args, vec!["staging".to_string(), "now".to_string()]);
}

#[test]
fn comment_on_plain_issue_is_not_on_pull_request() {
    let catalog = CatalogSpec::single(label_command("test", "/test"));
    let mut env = MockEnvironment::new();
    let outcome = apply(&catalog, &InboundEvent::IssueCommentNotOnPullRequest, &mut env).unwrap();
    assert_eq!(outcome, DispatchOutcome::NotOnPullRequest);
}

#[test]
fn unresolvable_pull_request_is_rejected_not_a_hard_error() {
    let catalog = CatalogSpec::single(label_command("test", "/test"));
    let mut env = MockEnvironment::new(); // no PR seeded for issue 7
    let outcome = apply(&catalog, &comment("/test", "alice"), &mut env).unwrap();
    assert!(matches!(outcome, DispatchOutcome::Rejected { .. }));
}

#[test]
fn workflow_dispatch_target_substitutes_placeholders() {
    let mut inputs = InputMap::new();
    inputs.insert("environment".to_string(), "$1".to_string());
    inputs.insert("sha".to_string(), "$checkout-ref".to_string());
    let cmd = CommentCommandSpec {
        name: "deploy".to_string(),
        trigger: "/deploy".to_string(),
        min_permission: Permission::Write,
        trust_pr_author: true,
        allowlist: Vec::new(),
        target: DispatchTarget::WorkflowDispatch {
            workflow: "deploy.yml".to_string(),
            git_ref: Some("$branch-ref".to_string()),
            inputs,
        },
    };
    let catalog = CatalogSpec::single(cmd);
    let mut env = MockEnvironment::new().with_pull_request(7, pr("alice"));
    let outcome = apply(&catalog, &comment("/deploy staging", "alice"), &mut env).unwrap();
    assert!(outcome.dispatched());
    let dispatches = &env.workflow_dispatches();
    let (workflow, git_ref, inputs) = &dispatches[0];
    assert_eq!(workflow, "deploy.yml");
    assert_eq!(git_ref, "refs/heads/feature-x");
    assert_eq!(inputs.get("environment").map(String::as_str), Some("staging"));
    assert_eq!(inputs.get("sha").map(String::as_str), Some("deadbeef"));
}

#[test]
fn leading_whitespace_before_trigger_still_matches() {
    let catalog = CatalogSpec::single(label_command("test", "/test"));
    let mut env = MockEnvironment::new().with_pull_request(7, pr("alice"));
    let outcome = apply(&catalog, &comment("   /test", "alice"), &mut env).unwrap();
    assert!(outcome.dispatched());
}

fn cmd_command(trust_pr_author: bool, min_permission: Permission, allowlist: Vec<String>) -> CommentCommandSpec {
    CommentCommandSpec {
        name: "cmd".to_string(),
        trigger: "/cmd".to_string(),
        min_permission,
        trust_pr_author,
        allowlist,
        target: DispatchTarget::Label { name: "lbl".to_string() },
    }
}

const ALL_PERMISSIONS: [Permission; 6] = [
    Permission::NoAccess,
    Permission::Read,
    Permission::Triage,
    Permission::Write,
    Permission::Maintain,
    Permission::Admin,
];

#[test]
fn args_round_trip_for_several_counts() {
    let cases: [&[&str]; 4] = [&[], &["a"], &["x-1", "y.2", "z_3"], &["A", "b", "C", "d", "E"]];
    for words in cases {
        let catalog = CatalogSpec::single(cmd_command(true, Permission::Write, vec![]));
        let body = if words.is_empty() { "/cmd".to_string() } else { format!("/cmd {}", words.join(" ")) };
        let mut env = MockEnvironment::new().with_pull_request(1, pr("alice"));
        let event = InboundEvent::IssueComment { issue_number: 1, comment_body: body, commenter_login: "alice".into() };
        match apply(&catalog, &event, &mut env).unwrap() {
            DispatchOutcome::Dispatched { args, .. } => assert_eq!(args, words.to_vec()),
            other => panic!("expected Dispatched, got {other:?}"),
        }
    }
}

#[test]
fn pr_author_trust_wins_for_every_tier() {
    for min in ALL_PERMISSIONS {
        let catalog = CatalogSpec::single(cmd_command(true, min, vec!["someone".into()]));
        let mut env = MockEnvironment::new().with_pull_request(1, pr("alice"));
        let event = InboundEvent::IssueComment { issue_number: 1, comment_body: "/cmd".into(), commenter_login: "alice".into() };
        assert!(apply(&catalog, &event, &mut env).unwrap().dispatched());
    }
}

#[test]
fn permission_threshold_for_every_pair_of_tiers() {
    for (min_idx, min) in ALL_PERMISSIONS.iter().enumerate() {
        for (held_idx, held) in ALL_PERMISSIONS.iter().enumerate() {
            let catalog = CatalogSpec::single(cmd_command(false, *min, vec![]));
            let mut env = MockEnvironment::new().with_pull_request(1, pr("alice")).with_permission("bob", *held);
            let event = InboundEvent::IssueComment { issue_number: 1, comment_body: "/cmd".into(), commenter_login: "bob".into() };
            let outcome = apply(&catalog, &event, &mut env).unwrap();
            assert_eq!(outcome.dispatched(), held_idx >= min_idx);
            if held_idx < min_idx {
                assert!(env.labels_added().is_empty() && env.labels_removed().is_empty());
            }
        }
    }
}

#[test]
fn untrusted_rejection_reason_names_the_tier() {
    let catalog = CatalogSpec::single(cmd_command(true, Permission::NoAccess, vec![]));
    let mut strict = cmd_command(true, Permission::Maintain, vec![]);
    strict.trigger = "/strict".into();
    let catalog2 = CatalogSpec::single(strict);
    let mut env = MockEnvironment::new().with_pull_request(1, pr("alice"));
    let event = InboundEvent::IssueComment { issue_number: 1, comment_body: "/strict".into(), commenter_login: "eve".into() };
    assert_eq!(
        apply(&catalog2, &event, &mut env).unwrap(),
        DispatchOutcome::Rejected {
            command: "cmd".into(),
            commenter: "eve".into(),
            reason: "commenter `eve` is not the PR author, not allowlisted, and does not hold `Maintain`+ permission".into(),
        }
    );
    // The lowest tier admits everyone.
    let event = InboundEvent::IssueComment { issue_number: 1, comment_body: "/cmd".into(), commenter_login: "eve".into() };
    assert!(apply(&catalog, &event, &mut env).unwrap().dispatched());
}

#[test]
fn trigger_without_word_boundary_never_matches() {
    for suffix in ["x", "X9", "0", "abcdefgh"] {
        let catalog = CatalogSpec::single(cmd_command(true, Permission::Write, vec![]));
        let mut env = MockEnvironment::new().with_pull_request(1, pr("alice"));
        let event = InboundEvent::IssueComment { issue_number: 1, comment_body: format!("/cmd{suffix}"), commenter_login: "alice".into() };
        assert_eq!(
            apply(&catalog, &event, &mut env).unwrap(),
            DispatchOutcome::NoMatch { reason: "comment does not match any registered command trigger".into() }
        );
    }
}

#[test]
fn unresolved_reason_names_the_issue() {
    let catalog = CatalogSpec::single(cmd_command(true, Permission::Write, vec![]));
    let mut env = MockEnvironment::new();
    let event = InboundEvent::IssueComment { issue_number: 1234, comment_body: "/cmd".into(), commenter_login: "alice".into() };
    assert_eq!(
        apply(&catalog, &event, &mut env).unwrap(),
        DispatchOutcome::Rejected {
            command: "cmd".into(),
            commenter: "alice".into(),
            reason: "could not resolve pull request #1234".into(),
        }
    );
}

#[test]
fn non_comment_events_are_no_match_with_their_debug_text() {
    let catalog = CatalogSpec::single(cmd_command(true, Permission::Write, vec![]));
    let mut env = MockEnvironment::new();
    let events = [
        InboundEvent::AlwaysRun { event_name: "schedule".into() },
        InboundEvent::Unsupported { event_name: "we\"ird".into() },
        InboundEvent::PullRequestLabeled {
            label_name: "l".into(),
            head_sha: "s".into(),
            head_ref: "h".into(),
            base_ref: "b".into(),
            pr_author: "a".into(),
        },
        InboundEvent::PullRequestOther { head_sha: "s".into(), head_ref: "h".into(), base_ref: "b".into(), pr_author: "a".into() },
    ];
    for ev in events {
        let want = format!("event is not an issue_comment on a pull request ({ev:?})");
        assert_eq!(apply(&catalog, &ev, &mut env).unwrap(), DispatchOutcome::NoMatch { reason: want });
    }
    assert!(env.labels_added().is_empty());
}

#[test]
fn first_matching_command_wins() {
    let mut first = cmd_command(true, Permission::Write, vec![]);
    first.name = "first".into();
    first.trigger = "/go".into();
    let mut second = cmd_command(true, Permission::Write, vec![]);
    second.name = "second".into();
    second.trigger = "/go".into();
    let catalog = CatalogSpec { commands: vec![first, second] };
    let mut env = MockEnvironment::new().with_pull_request(1, pr("alice"));
    let event = InboundEvent::IssueComment { issue_number: 1, comment_body: "/go".into(), commenter_login: "alice".into() };
    let DispatchOutcome::Dispatched { command, target_kind, target_detail, .. } = apply(&catalog, &event, &mut env).unwrap() else {
        panic!("expected dispatch")
    };
    assert_eq!(command, "first");
    assert_eq!(target_kind, "label");
    assert_eq!(target_detail, "lbl");
}

#[test]
fn positional_and_unknown_placeholders() {
    let mut inputs = InputMap::new();
    inputs.insert("second".into(), "$2".into());
    inputs.insert("missing".into(), "$9".into());
    inputs.insert("zero".into(), "$0".into());
    inputs.insert("plus".into(), "$+1".into());
    inputs.insert("typo".into(), "$checkout_ref".into());
    inputs.insert("author".into(), "$pr-author".into());
    inputs.insert("base".into(), "$base-ref".into());
    inputs.insert("huge".into(), "$99999999999999999999999".into());
    inputs.insert("ten".into(), "$10".into());
    inputs.insert("padded".into(), "$01".into());
    let cmd = CommentCommandSpec {
        name: "run".into(),
        trigger: "/run".into(),
        min_permission: Permission::Write,
        trust_pr_author: true,
        allowlist: vec![],
        target: DispatchTarget::WorkflowDispatch { workflow: "w.yml".into(), git_ref: None, inputs },
    };
    let catalog = CatalogSpec::single(cmd);
    let mut env = MockEnvironment::new().with_pull_request(3, pr("alice"));
    let event = InboundEvent::IssueComment { issue_number: 3, comment_body: " \t/run  a   b ".into(), commenter_login: "alice".into() };
    let outcome = apply(&catalog, &event, &mut env).unwrap();
    let DispatchOutcome::Dispatched { args, target_kind, target_detail, .. } = outcome else { panic!("expected dispatch") };
    assert_eq!(args, vec!["a".to_string(), "b".to_string()]);
    assert_eq!(target_kind, "workflow-dispatch");
    assert_eq!(target_detail, "w.yml");
    let workflows = env.workflow_dispatches();
    let (_, git_ref, got) = &workflows[0];
    assert_eq!(git_ref, "refs/heads/feature-x");
    assert_eq!(got.get("second").map(String::as_str), Some("b"));
    assert_eq!(got.get("missing").map(String::as_str), Some(""));
    assert_eq!(got.get("zero").map(String::as_str), Some("$0"));
    assert_eq!(got.get("plus").map(String::as_str), Some("$+1"));
    assert_eq!(got.get("ten").map(String::as_str), Some("$10"));
    assert_eq!(got.get("padded").map(String::as_str), Some("$01"));
    assert_eq!(got.get("typo").map(String::as_str), Some("$checkout_ref"));
    assert_eq!(got.get("author").map(String::as_str), Some("alice"));
    assert_eq!(got.get("base").map(String::as_str), Some("refs/heads/develop"));
    assert_eq!(got.get("huge").map(String::as_str), Some("$99999999999999999999999"));
}

#[test]
fn repository_dispatch_payload_carries_context_and_args() {
    let cmd = CommentCommandSpec {
        name: "sync".into(),
        trigger: "/sync".into(),
        min_permission: Permission::Write,
        trust_pr_author: true,
        allowlist: vec![],
        target: DispatchTarget::RepositoryDispatch { event_type: "sync-now".into(), repo: Some("org/other".into()) },
    };
    let catalog = CatalogSpec::single(cmd);
    let mut env = MockEnvironment::new().with_pull_request(5, pr("alice"));
    let event = InboundEvent::IssueComment { issue_number: 5, comment_body: "/sync x".into(), commenter_login: "alice".into() };
    let outcome = apply(&catalog, &event, &mut env).unwrap();
    assert!(outcome.dispatched());
    let s = |v: &str| JsonValue::String(v.to_string());
    let want = JsonValue::Object(vec![
        ("args".into(), JsonValue::Array(vec![s("x")])),
        ("base_ref".into(), s("refs/heads/develop")),
        ("branch_ref".into(), s("refs/heads/feature-x")),
        ("checkout_ref".into(), s("deadbeef")),
        ("pr_author".into(), s("alice")),
    ]);
    assert_eq!(env.repository_dispatches(), vec![("sync-now".to_string(), Some("org/other".to_string()), want)]);
}

#[test]
fn phases_compose_and_a_failed_mutation_names_its_phase() {
    let catalog = CatalogSpec::single(label_command("test", "/test"));
    let event = comment("/test a", "bob");
    let knock = knock_of(&catalog, &event).unwrap();
    assert_eq!(knock.args, vec!["a".to_string()]);
    assert_eq!(knock.commenter, "bob");
    assert!(!trusted_before_permission(&knock, "alice"));
    assert!(trusted_before_permission(&knock, "bob"));
    let rejected = judge(&knock, Some(pr("alice")), Permission::Read).unwrap_err();
    assert!(matches!(rejected, DispatchOutcome::Rejected { .. }));
    let ctx = judge(&knock, Some(pr("alice")), Permission::Admin).unwrap();
    assert_eq!(ctx.branch_ref, "refs/heads/feature-x");
    assert_eq!(ctx.base_ref, "refs/heads/develop");
    let planned = mutations(&knock, &ctx);
    assert_eq!(
        planned,
        vec![
            Mutation::RemoveLabel { issue_number: 7, label: "ci/run-tests".into() },
            Mutation::AddLabel { issue_number: 7, label: "ci/run-tests".into() },
        ]
    );
    let err = finish(&knock, ctx.clone(), Some(EnvError::Request("remove".into()))).unwrap_err();
    assert_eq!(err, SpecError::Interp { phase: "relabel", source: EnvError::Request("remove".into()) });
    assert_eq!(err.to_string(), "interpreter phase `relabel` failed: GitHub API request failed: remove");
    let done = finish(&knock, ctx, None).unwrap();
    assert!(done.dispatched());
}

#[test]
fn performing_a_plan_on_the_mock_records_it() {
    let mut env = MockEnvironment::new();
    let m = Mutation::DispatchWorkflow { workflow: "w".into(), git_ref: "r".into(), inputs: InputMap::new() };
    m.perform(&mut env).unwrap();
    assert_eq!(env.workflow_dispatches().len(), 1);
    assert!(env.labels_added().is_empty());
}

#[test]
fn trusted_author_gets_the_full_dispatched_outcome() {
    let catalog = CatalogSpec::single(label_command("test", "/test"));
    let mut env = MockEnvironment::new().with_pull_request(7, pr("alice"));
    let outcome = apply(&catalog, &comment("/test", "alice"), &mut env).unwrap();
    assert_eq!(
        outcome,
        DispatchOutcome::Dispatched {
            command: "test".to_string(),
            args: vec![],
            commenter: "alice".to_string(),
            context: ResolvedContext {
                checkout_ref: "deadbeef".to_string(),
                branch_ref: "refs/heads/feature-x".to_string(),
                base_ref: "refs/heads/develop".to_string(),
                pr_author: "alice".to_string(),
                is_develop: false,
            },
            target_kind: "label",
            target_detail: "ci/run-tests".to_string(),
        }
    );
    assert_eq!(env.labels_removed(), vec![(7, "ci/run-tests".to_string())]);
    assert_eq!(env.labels_added(), vec![(7, "ci/run-tests".to_string())]);
}
