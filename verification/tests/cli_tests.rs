use aldrava::cli::{
    error_report, lint_report, outcome_to_json, parse_permission, resolve_inline_catalog, resolve_target,
    split_allowlist, split_once_char, split_repo, CliError, InlineCommand,
};
use aldrava::interp::{DispatchOutcome, ResolvedContext};
use aldrava::json::JsonValue;
use aldrava::spec::{DispatchTarget, Permission};
use aldrava::spec_lisp::parse;

fn inline(command: Option<&str>) -> InlineCommand {
    InlineCommand {
        command: command.map(str::to_string),
        trigger: None,
        min_permission: "write".to_string(),
        trust_pr_author: true,
        allowlist: None,
        target_label: None,
        target_workflow: None,
        target_workflow_ref: None,
        inputs: Vec::new(),
        target_repository_dispatch_event: None,
        target_repository_dispatch_repo: None,
    }
}

fn s(v: &str) -> JsonValue {
    JsonValue::String(v.to_string())
}

#[test]
fn inline_label_command_with_default_trigger() {
    let mut a = inline(Some("test"));
    a.target_label = Some("ci/run-tests".into());
    a.allowlist = Some(" bot-a , ,bot-b,".into());
    let catalog = resolve_inline_catalog(&a).unwrap();
    let cmd = &catalog.commands[0];
    assert_eq!(cmd.name, "test");
    assert_eq!(cmd.trigger, "/test");
    assert_eq!(cmd.min_permission, Permission::Write);
    assert_eq!(cmd.allowlist, vec!["bot-a", "bot-b"]);
    assert_eq!(cmd.target, DispatchTarget::Label { name: "ci/run-tests".into() });
}

#[test]
fn inline_errors_in_order() {
    let a = inline(None);
    assert_eq!(resolve_inline_catalog(&a).unwrap_err(), CliError::MissingCommand);
    let mut b = inline(Some("x"));
    b.min_permission = "owner".into();
    let err = resolve_inline_catalog(&b).unwrap_err();
    assert_eq!(err, CliError::UnknownPermission("owner".into()));
    assert_eq!(
        err.to_string(),
        "unknown --min-permission `owner` — expected one of none|read|triage|write|maintain|admin"
    );
    let c = inline(Some("x"));
    let err = resolve_inline_catalog(&c).unwrap_err();
    assert_eq!(err, CliError::NoTarget);
    assert!(err.to_string().starts_with("no target given"));
    assert_eq!(CliError::MissingCommand.to_string(), "either --catalog or --command must be given");
}

#[test]
fn inline_workflow_inputs() {
    let mut a = inline(Some("deploy"));
    a.trigger = Some("!deploy".into());
    a.target_workflow = Some("deploy.yml".into());
    a.target_workflow_ref = Some("$branch-ref".into());
    a.inputs = vec!["env=$1".into(), "note=a=b".into(), "env=prod".into()];
    let target = resolve_target(&a).unwrap();
    let DispatchTarget::WorkflowDispatch { workflow, git_ref, inputs } = target else { panic!("expected workflow") };
    assert_eq!(workflow, "deploy.yml");
    assert_eq!(git_ref.as_deref(), Some("$branch-ref"));
    assert_eq!(inputs.len(), 2);
    assert_eq!(inputs.get("env").map(String::as_str), Some("prod"));
    assert_eq!(inputs.get("note").map(String::as_str), Some("a=b"));
    a.inputs.push("broken".into());
    let err = resolve_target(&a).unwrap_err();
    assert_eq!(err, CliError::BadInput("broken".into()));
    assert_eq!(err.to_string(), "--input must be KEY=VALUE, got `broken`");
    assert_eq!(resolve_inline_catalog(&a).unwrap_err(), CliError::BadInput("broken".into()));
}

#[test]
fn label_wins_over_other_targets() {
    let mut a = inline(Some("x"));
    a.target_label = Some("l".into());
    a.target_workflow = Some("w.yml".into());
    a.target_repository_dispatch_event = Some("e".into());
    assert_eq!(resolve_target(&a).unwrap(), DispatchTarget::Label { name: "l".into() });
    a.target_label = None;
    a.target_workflow = None;
    a.target_repository_dispatch_repo = Some("o/r".into());
    assert_eq!(
        resolve_target(&a).unwrap(),
        DispatchTarget::RepositoryDispatch { event_type: "e".into(), repo: Some("o/r".into()) }
    );
}

#[test]
fn permission_flag() {
    assert_eq!(parse_permission("none").unwrap(), Permission::NoAccess);
    assert_eq!(parse_permission("admin").unwrap(), Permission::Admin);
    assert!(parse_permission("Admin").is_err());
}

#[test]
fn repo_and_split_once() {
    assert_eq!(split_repo("org/repo").unwrap(), ("org".to_string(), "repo".to_string()));
    assert_eq!(split_repo("org/a/b").unwrap(), ("org".to_string(), "a/b".to_string()));
    let err = split_repo("norepo").unwrap_err();
    assert_eq!(err.to_string(), "--repo must be `owner/repo`, got `norepo`");
    assert_eq!(split_once_char("=x", '='), Some((String::new(), "x".to_string())));
    assert_eq!(split_once_char("abc", '='), None);
}

#[test]
fn allowlist_splitting() {
    assert_eq!(split_allowlist(""), Vec::<String>::new());
    assert_eq!(split_allowlist(",,"), Vec::<String>::new());
    assert_eq!(split_allowlist("a"), vec!["a"]);
    assert_eq!(split_allowlist(" a b ,c"), vec!["a b", "c"]);
}

#[test]
fn outcome_reports() {
    let none = outcome_to_json(&DispatchOutcome::NotOnPullRequest);
    assert_eq!(
        none,
        JsonValue::Object(vec![
            ("dispatched".into(), JsonValue::Bool(false)),
            ("outcome".into(), s("not-on-pull-request")),
        ])
    );
    let rejected = outcome_to_json(&DispatchOutcome::Rejected {
        command: "c".into(),
        commenter: "m".into(),
        reason: "r".into(),
    });
    assert_eq!(
        rejected,
        JsonValue::Object(vec![
            ("command".into(), s("c")),
            ("commenter".into(), s("m")),
            ("dispatched".into(), JsonValue::Bool(false)),
            ("outcome".into(), s("rejected")),
            ("reason".into(), s("r")),
        ])
    );
    let dispatched = outcome_to_json(&DispatchOutcome::Dispatched {
        command: "c".into(),
        args: vec!["a".into()],
        commenter: "m".into(),
        context: ResolvedContext {
            checkout_ref: "sha".into(),
            branch_ref: "refs/heads/develop".into(),
            base_ref: "refs/heads/main".into(),
            pr_author: "p".into(),
            is_develop: true,
        },
        target_kind: "label",
        target_detail: "l".into(),
    });
    assert_eq!(
        dispatched,
        JsonValue::Object(vec![
            ("args".into(), JsonValue::Array(vec![s("a")])),
            ("base_ref".into(), s("refs/heads/main")),
            ("branch_ref".into(), s("refs/heads/develop")),
            ("checkout_ref".into(), s("sha")),
            ("command".into(), s("c")),
            ("commenter".into(), s("m")),
            ("dispatched".into(), JsonValue::Bool(true)),
            ("is_develop".into(), JsonValue::Bool(true)),
            ("outcome".into(), s("dispatched")),
            ("pr_author".into(), s("p")),
            ("target_detail".into(), s("l")),
            ("target_kind".into(), s("label")),
        ])
    );
    let no_match = outcome_to_json(&DispatchOutcome::NoMatch { reason: "why".into() });
    assert_eq!(
        no_match,
        JsonValue::Object(vec![
            ("dispatched".into(), JsonValue::Bool(false)),
            ("outcome".into(), s("no-match")),
            ("reason".into(), s("why")),
        ])
    );
}

#[test]
fn lint_and_error_reports() {
    let catalog = parse("(defcommentcommand \"a\" :trigger \"/a\" :target (label \"x\")) (defcommentcommand \"b\" :trigger \"/b\" :target (label \"x\"))").unwrap();
    assert_eq!(
        lint_report(&catalog),
        JsonValue::Object(vec![
            ("commands".into(), JsonValue::Array(vec![s("a"), s("b")])),
            ("ok".into(), JsonValue::Bool(true)),
        ])
    );
    assert_eq!(
        error_report("bad"),
        JsonValue::Object(vec![("error".into(), s("bad")), ("ok".into(), JsonValue::Bool(false))])
    );
}
