use aldrava::spec::{DispatchTarget, Permission};
use aldrava::spec_lisp::{parse, LintError};

#[test]
fn parses_the_minimal_label_form() {
    let src = r#"
        (defcommentcommand "test"
          :trigger "/test"
          :min-permission write
          :trust-pr-author true
          :target (label "ci/run-tests"))
    "#;
    let catalog = parse(src).expect("parses");
    assert_eq!(catalog.commands.len(), 1);
    let cmd = &catalog.commands[0];
    assert_eq!(cmd.name, "test");
    assert_eq!(cmd.trigger, "/test");
    assert_eq!(cmd.min_permission, Permission::Write);
    assert!(cmd.trust_pr_author);
    assert_eq!(cmd.target, DispatchTarget::Label { name: "ci/run-tests".into() });
}

#[test]
fn parses_workflow_dispatch_with_inputs_and_allowlist() {
    let src = r#"
        (defcommentcommand "deploy"
          :trigger "/deploy"
          :min-permission admin
          :trust-pr-author false
          :allowlist ("release-bot" "ops-team-bot")
          :target (workflow-dispatch "deploy.yml"
                    :ref "$branch-ref"
                    :inputs ((environment "$1"))))
    "#;
    let catalog = parse(src).expect("parses");
    let cmd = &catalog.commands[0];
    assert_eq!(cmd.min_permission, Permission::Admin);
    assert!(!cmd.trust_pr_author);
    assert_eq!(cmd.allowlist, vec!["release-bot", "ops-team-bot"]);
    match &cmd.target {
        DispatchTarget::WorkflowDispatch { workflow, git_ref, inputs } => {
            assert_eq!(workflow, "deploy.yml");
            assert_eq!(git_ref.as_deref(), Some("$branch-ref"));
            assert_eq!(inputs.get("environment").map(String::as_str), Some("$1"));
        }
        other => panic!("expected WorkflowDispatch, got {other:?}"),
    }
}

#[test]
fn parses_multiple_commands_and_defaults() {
    let src = r#"
        (defcommentcommand "test" :trigger "/test" :target (label "ci/run-tests"))
        ; a comment between forms
        (defcommentcommand "retest" :trigger "/retest" :target (label "ci/run-tests"))
    "#;
    let catalog = parse(src).expect("parses");
    assert_eq!(catalog.commands.len(), 2);
    assert_eq!(catalog.commands[0].min_permission, Permission::Write);
    assert!(catalog.commands[0].trust_pr_author);
}

#[test]
fn missing_target_is_a_named_semantic_error() {
    let src = r#"(defcommentcommand "test" :trigger "/test")"#;
    let err = parse(src).unwrap_err();
    assert!(err.to_string().contains(":target"));
}

#[test]
fn unterminated_paren_is_a_named_syntax_error() {
    let src = r#"(defcommentcommand "test" :trigger "/test""#;
    let err = parse(src).unwrap_err();
    assert!(
        err.to_string().to_lowercase().contains("missing `)`")
            || err.to_string().to_lowercase().contains("end of input")
    );
}

#[test]
fn unknown_target_kind_is_named() {
    let src = r#"(defcommentcommand "x" :trigger "/x" :target (bogus-kind "y"))"#;
    let err = parse(src).unwrap_err();
    assert!(err.to_string().contains("unknown :target kind"));
}

#[test]
fn label_command_round_trips_with_defaults() {
    let src = "(defcommentcommand \"ship-it\" :trigger \"/ship it\" :target (label \"a b/c.d:e_f-g\"))";
    let catalog = parse(src).expect("parses");
    assert_eq!(catalog.commands.len(), 1);
    let cmd = &catalog.commands[0];
    assert_eq!(cmd.name, "ship-it");
    assert_eq!(cmd.trigger, "/ship it");
    assert_eq!(cmd.min_permission, Permission::Write);
    assert!(cmd.trust_pr_author);
    assert!(cmd.allowlist.is_empty());
    assert_eq!(cmd.target, DispatchTarget::Label { name: "a b/c.d:e_f-g".into() });
}

#[test]
fn allowlist_round_trips_in_order_without_dedup() {
    let src = "(defcommentcommand \"x\" :trigger \"/x\" :allowlist (\"b\" \"a\" \"b\") :target (label \"y\"))";
    let catalog = parse(src).expect("parses");
    assert_eq!(catalog.commands[0].allowlist, vec!["b", "a", "b"]);
    let empty = "(defcommentcommand \"x\" :trigger \"/x\" :allowlist () :target (label \"y\"))";
    assert!(parse(empty).expect("parses").commands[0].allowlist.is_empty());
}

#[test]
fn every_permission_keyword_round_trips() {
    let keywords = ["none", "read", "triage", "write", "maintain", "admin"];
    let expected = [
        Permission::NoAccess,
        Permission::Read,
        Permission::Triage,
        Permission::Write,
        Permission::Maintain,
        Permission::Admin,
    ];
    for (kw, want) in keywords.iter().zip(expected.iter()) {
        let src = format!("(defcommentcommand \"x\" :trigger \"/x\" :min-permission {kw} :target (label \"y\"))");
        assert_eq!(parse(&src).expect("parses").commands[0].min_permission, *want);
    }
}

#[test]
fn many_commands_keep_source_order() {
    let names = ["a", "b-2", "c", "d", "e"];
    let src = names
        .iter()
        .enumerate()
        .map(|(i, n)| format!("(defcommentcommand \"{n}\" :trigger \"/t{i}\" :target (label \"l\"))"))
        .collect::<Vec<_>>()
        .join("\n");
    let catalog = parse(&src).expect("parses");
    let got: Vec<&str> = catalog.commands.iter().map(|c| c.name.as_str()).collect();
    assert_eq!(got, names.to_vec());
    assert_eq!(catalog.commands[3].trigger, "/t3");
}

#[test]
fn empty_source_is_an_empty_catalog() {
    assert!(parse("").expect("parses").commands.is_empty());
    assert!(parse("  ; only a comment\n").expect("parses").commands.is_empty());
}

#[test]
fn repository_dispatch_target_with_repo() {
    let src = r#"(defcommentcommand "sync" :trigger "/sync" :trust-pr-author false
                  :target (repository-dispatch "sync-now" :repo "org/other"))"#;
    let cmd = &parse(src).expect("parses").commands[0];
    assert!(!cmd.trust_pr_author);
    assert_eq!(
        cmd.target,
        DispatchTarget::RepositoryDispatch { event_type: "sync-now".into(), repo: Some("org/other".into()) }
    );
}

#[test]
fn string_escapes_are_unescaped() {
    let src = r#"(defcommentcommand "q\"t" :trigger "/a\\b\nc" :target (label "x"))"#;
    let cmd = &parse(src).expect("parses").commands[0];
    assert_eq!(cmd.name, "q\"t");
    assert_eq!(cmd.trigger, "/a\\b\nc");
}

#[test]
fn syntax_errors_are_named() {
    let stray = parse(")").unwrap_err();
    assert_eq!(stray, LintError::Syntax("unexpected `)` with no matching `(`".into()));
    assert_eq!(stray.to_string(), "unexpected `)` with no matching `(`");
    let open = parse("(defcommentcommand \"x").unwrap_err();
    assert_eq!(open.to_string(), "unterminated string starting near byte 19");
    let dangling = parse("\"abc\\").unwrap_err();
    assert_eq!(dangling.to_string(), "unterminated string escape at end of input");
    let bare = parse("foo").unwrap_err();
    assert!(bare.to_string().contains("top-level form must be `(defcommentcommand ...)`, got `foo`"));
    let other = parse("(defthing \"x\")").unwrap_err();
    assert!(other.to_string().contains("unknown top-level form `defthing`"));
}

#[test]
fn semantic_errors_name_the_form() {
    let bad_perm = parse("(defcommentcommand \"x\" :trigger \"/x\" :min-permission owner :target (label \"y\"))")
        .unwrap_err();
    assert_eq!(
        bad_perm,
        LintError::Semantic {
            form: "defcommentcommand \"x\"".into(),
            message: "unknown :min-permission `owner` — expected one of none|read|triage|write|maintain|admin".into(),
        }
    );
    let no_trigger = parse("(defcommentcommand \"x\" :target (label \"y\"))").unwrap_err();
    assert!(no_trigger.to_string().contains("missing required `:trigger`"));
    let dangling_kw = parse("(defcommentcommand \"x\" :trigger)").unwrap_err();
    assert!(dangling_kw.to_string().contains("keyword `:trigger` has no value"));
    let bad_bool = parse("(defcommentcommand \"x\" :trigger \"/x\" :trust-pr-author yes :target (label \"y\"))")
        .unwrap_err();
    assert!(bad_bool.to_string().contains("expected `true` or `false`, got `yes`"));
}

#[test]
fn typo_in_a_keyword_is_a_semantic_error() {
    let src = r#"(defcommentcommand "x" :trigger "/x" :min-permision admin :target (label "y"))"#;
    let err = parse(src).err().expect("a typo'd keyword is refused");
    assert_eq!(
        err,
        LintError::Semantic {
            form: r#"defcommentcommand "x""#.to_string(),
            message: "unknown keyword `:min-permision` — expected one of :trigger|:min-permission|:trust-pr-author|:allowlist|:target"
                .to_string(),
        }
    );
}

#[test]
fn free_layout_keeps_form_order() {
    let src = "; two commands, laid out freely\n(defcommentcommand \"zeta\"\n   :target (label \"z\") :trigger \"/z\")\n\n  (defcommentcommand \"alpha\" :trigger \"/a\"\n :min-permission admin :target (workflow-dispatch \"w.yml\"))";
    let catalog = parse(src).expect("parses");
    assert_eq!(catalog.commands.len(), 2);
    assert_eq!(catalog.commands[0].name, "zeta");
    assert_eq!(catalog.commands[0].target, DispatchTarget::Label { name: "z".into() });
    assert_eq!(catalog.commands[1].name, "alpha");
    assert_eq!(catalog.commands[1].min_permission, Permission::Admin);
}
