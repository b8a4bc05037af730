use aldrava::environment::{EnvError, Environment, MockEnvironment, PullRequestInfo};
use aldrava::event::InboundEvent;
use aldrava::interp::{apply, DispatchOutcome, SpecError};
use aldrava::spec::{CatalogSpec, CommentCommandSpec, DispatchTarget, Permission};
use aldrava::steps::{begin, on_performed, on_permission, on_pull_request, Next};

fn label_command(name: &str, trigger: &str, trust_pr_author: bool, allowlist: Vec<String>) -> CommentCommandSpec {
    CommentCommandSpec {
        name: name.to_string(),
        trigger: trigger.to_string(),
        min_permission: Permission::Write,
        trust_pr_author,
        allowlist,
        target: DispatchTarget::Label { name: "ci/run-tests".to_string() },
    }
}

fn pr(author: &str) -> PullRequestInfo {
    PullRequestInfo {
        author: author.to_string(),
        head_sha: "deadbeef".to_string(),
        head_ref: "feature-x".to_string(),
        base_ref: "develop".to_string(),
    }
}

fn comment(body: &str, commenter: &str) -> InboundEvent {
    InboundEvent::IssueComment { issue_number: 7, comment_body: body.to_string(), commenter_login: commenter.to_string() }
}

/// Runs the steps against `env`, counting the permission reads.
fn drive(catalog: &CatalogSpec, event: &InboundEvent, env: &mut MockEnvironment) -> (Result<DispatchOutcome, SpecError>, usize) {
    let mut permission_reads = 0;
    let mut next = begin(catalog, event);
    loop {
        next = match next {
            Next::ReadPullRequest { knock } => {
                let found = env.get_pull_request(knock.issue_number);
                on_pull_request(knock, found)
            }
            Next::ReadPermission { knock, pr } => {
                permission_reads += 1;
                let held = env.collaborator_permission(&knock.commenter);
                on_permission(knock, pr, held)
            }
            Next::Perform { knock, ctx, mutation, remaining } => {
                let result = mutation.perform(env);
                on_performed(knock, ctx, remaining, result)
            }
            Next::Done(result) => return (result, permission_reads),
        };
    }
}

#[test]
fn steps_agree_with_apply() {
    let catalog = CatalogSpec::single(label_command("test", "/test", true, vec!["bot".to_string()]));
    let cases = [
        (comment("/test", "alice"), 0),
        (comment("/test", "bot"), 0),
        (comment("/test", "bob"), 1),
        (comment("/test", "mallory"), 1),
        (comment("/other", "alice"), 0),
        (InboundEvent::IssueCommentNotOnPullRequest, 0),
    ];
    for (event, reads) in cases {
        let seed = || {
            MockEnvironment::new()
                .with_pull_request(7, pr("alice"))
                .with_permission("bob", Permission::Write)
                .with_permission("mallory", Permission::Read)
        };
        let mut by_steps = seed();
        let mut by_apply = seed();
        let (stepped, permission_reads) = drive(&catalog, &event, &mut by_steps);
        let applied = apply(&catalog, &event, &mut by_apply);
        assert_eq!(stepped.unwrap(), applied.unwrap());
        assert_eq!(permission_reads, reads);
        assert_eq!(by_steps.labels_added(), by_apply.labels_added());
        assert_eq!(by_steps.labels_removed(), by_apply.labels_removed());
    }
}

#[test]
fn steps_stop_at_the_first_failure() {
    let catalog = CatalogSpec::single(label_command("test", "/test", true, vec![]));
    let Next::ReadPullRequest { knock } = begin(&catalog, &comment("/test", "alice")) else { panic!("expected a read") };
    assert_eq!(knock.issue_number, 7);
    let Next::Perform { knock, ctx, mutation, remaining } = on_pull_request(knock, Some(pr("alice"))) else {
        panic!("expected a mutation")
    };
    assert_eq!(remaining.len(), 1);
    assert_eq!(format!("{mutation:?}"), "RemoveLabel { issue_number: 7, label: \"ci/run-tests\" }");
    let next = on_performed(knock, ctx, remaining, Err(EnvError::Request("boom".into())));
    let Next::Done(Err(SpecError::Interp { phase, source })) = next else { panic!("expected the failure") };
    assert_eq!(phase, "relabel");
    assert_eq!(source, EnvError::Request("boom".into()));
}

#[test]
fn unresolved_pull_request_is_judged_without_a_permission_read() {
    let catalog = CatalogSpec::single(label_command("test", "/test", false, vec![]));
    let Next::ReadPullRequest { knock } = begin(&catalog, &comment("/test", "bob")) else { panic!("expected a read") };
    let Next::Done(Ok(DispatchOutcome::Rejected { reason, .. })) = on_pull_request(knock, None) else {
        panic!("expected a rejection")
    };
    assert_eq!(reason, "could not resolve pull request #7");
}
