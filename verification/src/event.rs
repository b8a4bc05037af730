//! The inbound-event border: the part of a GitHub Actions webhook payload
//! the library reads, resolved into one typed shape per trigger kind, and
//! the uniform run context a downstream pipeline resolves from it.

use vstd::prelude::*;

use crate::json::{json_get, json_path_str, json_text, json_u64, names_view, parse_json_text, JsonValue, JsonView};
use crate::text::{owned, push_str, push_string, str_eq};

verus! {

/// The view of an [`InboundEvent`].
pub enum EventView {
    IssueComment { issue_number: u64, comment_body: Seq<char>, commenter_login: Seq<char> },
    IssueCommentNotOnPullRequest,
    PullRequestLabeled {
        label_name: Seq<char>,
        head_sha: Seq<char>,
        head_ref: Seq<char>,
        base_ref: Seq<char>,
        pr_author: Seq<char>,
    },
    PullRequestOther { head_sha: Seq<char>, head_ref: Seq<char>, base_ref: Seq<char>, pr_author: Seq<char> },
    AlwaysRun { event_name: Seq<char> },
    Unsupported { event_name: Seq<char> },
}

/// One resolved inbound trigger, uniform across event sources.
#[derive(Debug, Clone, PartialEq, Eq)]
pub enum InboundEvent {
    /// `issue_comment` on a pull request: the only shape a knock (comment
    /// command) can arrive on.
    IssueComment { issue_number: u64, comment_body: String, commenter_login: String },
    /// `issue_comment` on a plain issue (no `pull_request` member): never a
    /// knock target, named so callers get an explicit reason.
    IssueCommentNotOnPullRequest,
    /// `pull_request: [labeled]`: used by a downstream pipeline to resolve its
    /// own run context when re-triggered by a relabel.
    PullRequestLabeled {
        label_name: String,
        head_sha: String,
        head_ref: String,
        base_ref: String,
        pr_author: String,
    },
    /// `pull_request` with any other action.
    PullRequestOther { head_sha: String, head_ref: String, base_ref: String, pr_author: String },
    /// `workflow_dispatch` / `repository_dispatch` / `schedule` /
    /// `workflow_call`: always eligible to run.
    AlwaysRun { event_name: String },
    /// An event source with no typed handling.
    Unsupported { event_name: String },
}

impl View for InboundEvent {
    type V = EventView;

    open spec fn view(&self) -> EventView {
        match self {
            InboundEvent::IssueComment { issue_number, comment_body, commenter_login } => EventView::IssueComment {
                issue_number: *issue_number,
                comment_body: comment_body@,
                commenter_login: commenter_login@,
            },
            InboundEvent::IssueCommentNotOnPullRequest => EventView::IssueCommentNotOnPullRequest,
            InboundEvent::PullRequestLabeled { label_name, head_sha, head_ref, base_ref, pr_author } => EventView::PullRequestLabeled {
                label_name: label_name@,
                head_sha: head_sha@,
                head_ref: head_ref@,
                base_ref: base_ref@,
                pr_author: pr_author@,
            },
            InboundEvent::PullRequestOther { head_sha, head_ref, base_ref, pr_author } => EventView::PullRequestOther {
                head_sha: head_sha@,
                head_ref: head_ref@,
                base_ref: base_ref@,
                pr_author: pr_author@,
            },
            InboundEvent::AlwaysRun { event_name } => EventView::AlwaysRun { event_name: event_name@ },
            InboundEvent::Unsupported { event_name } => EventView::Unsupported { event_name: event_name@ },
        }
    }
}

/// `"feature-x"` becomes `"refs/heads/feature-x"`.
pub open spec fn branch_ref_of(short_ref: Seq<char>) -> Seq<char> {
    "refs/heads/"@ + short_ref
}

/// Whether a normalized ref names `develop`.
pub open spec fn is_develop(branch_ref: Seq<char>) -> bool {
    branch_ref == "refs/heads/develop"@
}

/// `"feature-x"` -> `"refs/heads/feature-x"`. Shared by [`RunContext`] and
/// the interpreter so the two never drift on how a ref is normalized.
pub fn to_branch_ref(short_ref: &str) -> (r: String)
    ensures
        r@ == branch_ref_of(short_ref@),
{
    let mut r = owned("refs/heads/");
    push_str(&mut r, short_ref);
    r
}

/// Whether an (already normalized) `refs/heads/...` ref is `develop`.
pub fn is_develop_ref(branch_ref: &str) -> (b: bool)
    ensures
        b == is_develop(branch_ref@),
{
    str_eq(branch_ref, "refs/heads/develop")
}

/// The string at `path`, or the empty string.
pub open spec fn str_or_empty(v: JsonView, path: Seq<Seq<char>>) -> Seq<char> {
    match json_path_str(v, path) {
        Some(s) => s,
        None => Seq::<char>::empty(),
    }
}

/// The event sources that always run.
pub open spec fn is_always_run(name: Seq<char>) -> bool {
    name == "workflow_dispatch"@ || name == "repository_dispatch"@ || name == "schedule"@ || name == "workflow_call"@
}

/// What `(event_name, payload)` resolves to. A pull request event whose
/// payload carries no `pull_request` object, and an event name without
/// typed handling, are `Unsupported`; within a payload that is made sense
/// of, missing or malformed members read as the empty string (or issue
/// number 0).
pub open spec fn spec_resolve(name: Seq<char>, payload: JsonView) -> EventView {
    if name == "issue_comment"@ {
        let issue = json_get(payload, "issue"@);
        let is_pr = match issue {
            Some(i) => json_get(i, "pull_request"@) is Some,
            None => false,
        };
        if !is_pr {
            EventView::IssueCommentNotOnPullRequest
        } else {
            EventView::IssueComment {
                issue_number: match json_get(issue.unwrap(), "number"@) {
                    Some(n) => match json_u64(n) {
                        Some(x) => x,
                        None => 0,
                    },
                    None => 0,
                },
                comment_body: str_or_empty(payload, seq!["comment"@, "body"@]),
                commenter_login: str_or_empty(payload, seq!["comment"@, "user"@, "login"@]),
            }
        }
    } else if (name == "pull_request"@ || name == "pull_request_target"@) && !(json_get(payload, "pull_request"@) matches Some(
        JsonView::Object(_),
    )) {
        EventView::Unsupported { event_name: name }
    } else if name == "pull_request"@ || name == "pull_request_target"@ {
        let head_sha = str_or_empty(payload, seq!["pull_request"@, "head"@, "sha"@]);
        let head_ref = str_or_empty(payload, seq!["pull_request"@, "head"@, "ref"@]);
        let base_ref = str_or_empty(payload, seq!["pull_request"@, "base"@, "ref"@]);
        let pr_author = str_or_empty(payload, seq!["pull_request"@, "user"@, "login"@]);
        if json_path_str(payload, seq!["action"@]) == Some("labeled"@) {
            EventView::PullRequestLabeled {
                label_name: str_or_empty(payload, seq!["label"@, "name"@]),
                head_sha,
                head_ref,
                base_ref,
                pr_author,
            }
        } else {
            EventView::PullRequestOther { head_sha, head_ref, base_ref, pr_author }
        }
    } else if is_always_run(name) {
        EventView::AlwaysRun { event_name: name }
    } else {
        EventView::Unsupported { event_name: name }
    }
}

fn field_or_empty(payload: &JsonValue, path: &[&str]) -> (r: String)
    ensures
        r@ == str_or_empty(payload@, names_view(path@)),
{
    match payload.path_str(path) {
        Some(s) => s.clone(),
        None => String::new(),
    }
}

/// Resolve the raw `(event_name, payload)` pair a GitHub Actions job is
/// handed into one [`InboundEvent`]. Never fails: a payload that cannot be
/// made sense of resolves to `Unsupported` rather than an error.
pub fn resolve(event_name: &str, payload: &JsonValue) -> (ev: InboundEvent)
    ensures
        ev@ == spec_resolve(event_name@, payload@),
{
    if str_eq(event_name, "issue_comment") {
        let issue = payload.get("issue");
        let is_pr = match issue {
            Some(i) => i.get("pull_request").is_some(),
            None => false,
        };
        if !is_pr {
            return InboundEvent::IssueCommentNotOnPullRequest;
        }
        let issue_number = match issue {
            Some(i) => match i.get("number") {
                Some(n) => match n.as_u64() {
                    Some(x) => x,
                    None => 0,
                },
                None => 0,
            },
            None => 0,
        };
        let comment_body_path: [&str; 2] = ["comment", "body"];
        let comment_body = field_or_empty(payload, &comment_body_path);
        proof {
            assert(names_view(comment_body_path@) =~= seq!["comment"@, "body"@]);
        }
        let commenter_login_path: [&str; 3] = ["comment", "user", "login"];
        let commenter_login = field_or_empty(payload, &commenter_login_path);
        proof {
            assert(names_view(commenter_login_path@) =~= seq!["comment"@, "user"@, "login"@]);
        }
        InboundEvent::IssueComment { issue_number, comment_body, commenter_login }
    } else if str_eq(event_name, "pull_request") || str_eq(event_name, "pull_request_target") {
        match payload.get("pull_request") {
            Some(JsonValue::Object(_)) => {},
            _ => {
                return InboundEvent::Unsupported { event_name: owned(event_name) };
            },
        }
        let head_sha_path: [&str; 3] = ["pull_request", "head", "sha"];
        let head_sha = field_or_empty(payload, &head_sha_path);
        proof {
            assert(names_view(head_sha_path@) =~= seq!["pull_request"@, "head"@, "sha"@]);
        }
        let head_ref_path: [&str; 3] = ["pull_request", "head", "ref"];
        let head_ref = field_or_empty(payload, &head_ref_path);
        proof {
            assert(names_view(head_ref_path@) =~= seq!["pull_request"@, "head"@, "ref"@]);
        }
        let base_ref_path: [&str; 3] = ["pull_request", "base", "ref"];
        let base_ref = field_or_empty(payload, &base_ref_path);
        proof {
            assert(names_view(base_ref_path@) =~= seq!["pull_request"@, "base"@, "ref"@]);
        }
        let pr_author_path: [&str; 3] = ["pull_request", "user", "login"];
        let pr_author = field_or_empty(payload, &pr_author_path);
        proof {
            assert(names_view(pr_author_path@) =~= seq!["pull_request"@, "user"@, "login"@]);
        }
        let action_path: [&str; 1] = ["action"];
        proof {
            assert(names_view(action_path@) =~= seq!["action"@]);
        }
        let labeled = match payload.path_str(&action_path) {
            Some(a) => str_eq(a.as_str(), "labeled"),
            None => false,
        };
        if labeled {
            let label_name_path: [&str; 2] = ["label", "name"];
            let label_name = field_or_empty(payload, &label_name_path);
            proof {
                assert(names_view(label_name_path@) =~= seq!["label"@, "name"@]);
            }
            InboundEvent::PullRequestLabeled { label_name, head_sha, head_ref, base_ref, pr_author }
        } else {
            InboundEvent::PullRequestOther { head_sha, head_ref, base_ref, pr_author }
        }
    } else if str_eq(event_name, "workflow_dispatch") || str_eq(event_name, "repository_dispatch")
        || str_eq(event_name, "schedule") || str_eq(event_name, "workflow_call") {
        InboundEvent::AlwaysRun { event_name: owned(event_name) }
    } else {
        InboundEvent::Unsupported { event_name: owned(event_name) }
    }
}

/// Resolve an event whose payload is still JSON text, as a job reads it from
/// its event file: `None` when the text is not JSON, else what [`resolve`]
/// makes of the parsed payload.
pub fn resolve_event_text(event_name: &str, text: &str) -> (r: Option<InboundEvent>)
    ensures
        match json_text(text@) {
            Some(p) => r matches Some(ev) && ev@ == spec_resolve(event_name@, p),
            None => r is None,
        },
{
    match parse_json_text(text) {
        Some(payload) => Some(resolve(event_name, &payload)),
        None => None,
    }
}


/// The view of a [`RunContext`].
pub struct RunContextView {
    pub should_run: bool,
    pub checkout_ref: Seq<char>,
    pub branch_ref: Seq<char>,
    pub base_ref: Seq<char>,
    pub pr_author: Seq<char>,
    pub is_develop: bool,
    pub reason: Seq<char>,
}

/// The uniform context a downstream pipeline resolves regardless of trigger
/// source: whether to run, and with which refs.
#[derive(Debug, Clone, PartialEq, Eq)]
pub struct RunContext {
    pub should_run: bool,
    pub checkout_ref: String,
    pub branch_ref: String,
    pub base_ref: String,
    pub pr_author: String,
    pub is_develop: bool,
    pub reason: String,
}

impl View for RunContext {
    type V = RunContextView;

    open spec fn view(&self) -> RunContextView {
        RunContextView {
            should_run: self.should_run,
            checkout_ref: self.checkout_ref@,
            branch_ref: self.branch_ref@,
            base_ref: self.base_ref@,
            pr_author: self.pr_author@,
            is_develop: self.is_develop,
            reason: self.reason@,
        }
    }
}

/// A context that does not run: every ref empty, with the reason.
pub open spec fn not_running_view(reason: Seq<char>) -> RunContextView {
    RunContextView {
        should_run: false,
        checkout_ref: Seq::<char>::empty(),
        branch_ref: Seq::<char>::empty(),
        base_ref: Seq::<char>::empty(),
        pr_author: Seq::<char>::empty(),
        is_develop: false,
        reason,
    }
}

/// The context of a pull request: its head commit, its head and base
/// branches as `refs/heads/...`, and whether the head branch is `develop`.
pub open spec fn pr_context_view(head_sha: Seq<char>, head_ref: Seq<char>, base_ref: Seq<char>, pr_author: Seq<char>) -> RunContextView {
    RunContextView {
        should_run: true,
        checkout_ref: head_sha,
        branch_ref: branch_ref_of(head_ref),
        base_ref: branch_ref_of(base_ref),
        pr_author,
        is_develop: is_develop(branch_ref_of(head_ref)),
        reason: "resolved"@,
    }
}

/// The run context of `event`: a labeled pull request runs unless another
/// label is wanted; any other pull request action runs only when no label is
/// wanted; an always-run event runs on the fallback commit and ref; anything
/// else does not run.
pub open spec fn spec_run_context(event: EventView, wanted_label: Option<Seq<char>>, fallback_sha: Seq<char>, fallback_ref: Seq<char>) -> RunContextView {
    match event {
        EventView::PullRequestLabeled { label_name, head_sha, head_ref, base_ref, pr_author } => {
            if wanted_label is Some && wanted_label.unwrap() != label_name {
                not_running_view(
                    "label `"@ + label_name + "` does not match expected `"@ + wanted_label.unwrap() + "`"@,
                )
            } else {
                pr_context_view(head_sha, head_ref, base_ref, pr_author)
            }
        },
        EventView::PullRequestOther { head_sha, head_ref, base_ref, pr_author } => {
            if wanted_label is None {
                pr_context_view(head_sha, head_ref, base_ref, pr_author)
            } else {
                not_running_view("pull_request action does not carry the requested label"@)
            }
        },
        EventView::AlwaysRun { .. } => RunContextView {
            should_run: true,
            checkout_ref: fallback_sha,
            branch_ref: fallback_ref,
            base_ref: Seq::<char>::empty(),
            pr_author: Seq::<char>::empty(),
            is_develop: is_develop(fallback_ref),
            reason: "always-run event"@,
        },
        _ => not_running_view("event source has no resolvable run context"@),
    }
}

/// The view of an optional string slice.
pub open spec fn opt_str_view(o: Option<&str>) -> Option<Seq<char>> {
    match o {
        Some(s) => Some(s@),
        None => None,
    }
}

impl RunContext {
    /// A context that does not run, with every ref empty.
    pub fn not_running(reason: String) -> (c: RunContext)
        ensures
            c@ == not_running_view(reason@),
    {
        RunContext {
            should_run: false,
            checkout_ref: String::new(),
            branch_ref: String::new(),
            base_ref: String::new(),
            pr_author: String::new(),
            is_develop: false,
            reason,
        }
    }

    fn from_pr_fields(head_sha: &str, head_ref: &str, base_ref: &str, pr_author: &str) -> (c: RunContext)
        ensures
            c@ == pr_context_view(head_sha@, head_ref@, base_ref@, pr_author@),
    {
        let branch_ref = to_branch_ref(head_ref);
        let base = to_branch_ref(base_ref);
        let is_develop = is_develop_ref(branch_ref.as_str());
        RunContext {
            should_run: true,
            checkout_ref: owned(head_sha),
            branch_ref,
            base_ref: base,
            pr_author: owned(pr_author),
            is_develop,
            reason: owned("resolved"),
        }
    }

    /// Resolve the run context of a downstream pipeline. `wanted_label` is
    /// `None` for a pipeline that runs on every `pull_request` action and
    /// always-run trigger; `Some(name)` restricts a `pull_request: [labeled]`
    /// event to that label. `fallback_sha`/`fallback_ref` are used when the
    /// event carries no pull request.
    pub fn resolve(event: &InboundEvent, wanted_label: Option<&str>, fallback_sha: &str, fallback_ref: &str) -> (c: RunContext)
        ensures
            c@ == spec_run_context(event@, opt_str_view(wanted_label), fallback_sha@, fallback_ref@),
    {
        match event {
            InboundEvent::PullRequestLabeled { label_name, head_sha, head_ref, base_ref, pr_author } => {
                if let Some(w) = wanted_label {
                    if !str_eq(w, label_name.as_str()) {
                        let mut reason = owned("label `");
                        push_string(&mut reason, label_name);
                        push_str(&mut reason, "` does not match expected `");
                        push_str(&mut reason, w);
                        push_str(&mut reason, "`");
                        return RunContext::not_running(reason);
                    }
                }
                RunContext::from_pr_fields(head_sha.as_str(), head_ref.as_str(), base_ref.as_str(), pr_author.as_str())
            },
            InboundEvent::PullRequestOther { head_sha, head_ref, base_ref, pr_author } => {
                if wanted_label.is_none() {
                    RunContext::from_pr_fields(head_sha.as_str(), head_ref.as_str(), base_ref.as_str(), pr_author.as_str())
                } else {
                    RunContext::not_running(owned("pull_request action does not carry the requested label"))
                }
            },
            InboundEvent::AlwaysRun { .. } => {
                let branch_ref = owned(fallback_ref);
                let is_develop = is_develop_ref(fallback_ref);
                RunContext {
                    should_run: true,
                    checkout_ref: owned(fallback_sha),
                    branch_ref,
                    base_ref: String::new(),
                    pr_author: String::new(),
                    is_develop,
                    reason: owned("always-run event"),
                }
            },
            _ => RunContext::not_running(owned("event source has no resolvable run context")),
        }
    }
}


/// A labeled pull request keeps its label and its head: for either pull
/// request event, a payload with a `pull_request` object and action
/// `labeled` resolves to `PullRequestLabeled` carrying `label.name` and the
/// pull request's head commit, branch and author (each empty when missing).
pub proof fn law_labeled_pull_request_keeps_label(name: Seq<char>, payload: JsonView)
    requires
        name == "pull_request"@ || name == "pull_request_target"@,
        json_get(payload, "pull_request"@) matches Some(JsonView::Object(_)),
        json_path_str(payload, seq!["action"@]) == Some("labeled"@),
    ensures
        spec_resolve(name, payload) matches EventView::PullRequestLabeled { label_name, head_sha, head_ref, pr_author, .. }
            && (match json_path_str(payload, seq!["label"@, "name"@]) {
            Some(l) => label_name == l,
            None => label_name.len() == 0,
        }) && (match json_path_str(payload, seq!["pull_request"@, "head"@, "sha"@]) {
            Some(h) => head_sha == h,
            None => head_sha.len() == 0,
        }) && (match json_path_str(payload, seq!["pull_request"@, "head"@, "ref"@]) {
            Some(h) => head_ref == h,
            None => head_ref.len() == 0,
        }) && (match json_path_str(payload, seq!["pull_request"@, "user"@, "login"@]) {
            Some(a) => pr_author == a,
            None => pr_author.len() == 0,
        }),
{
    reveal_strlit("pull_request");
    reveal_strlit("pull_request_target");
    reveal_strlit("issue_comment");
    assert(name[0] == 'p' && "issue_comment"@[0] == 'i');
    assert(name != "issue_comment"@);
}

/// `pull_request_target` reads a payload exactly as `pull_request` does:
/// whenever the payload carries a `pull_request` object, both events
/// resolve to the same thing.
pub proof fn law_pull_request_target_reads_as_pull_request(payload: JsonView)
    requires
        json_get(payload, "pull_request"@) matches Some(JsonView::Object(_)),
    ensures
        spec_resolve("pull_request_target"@, payload) == spec_resolve("pull_request"@, payload),
        spec_resolve("pull_request"@, payload) is PullRequestLabeled || spec_resolve("pull_request"@, payload) is PullRequestOther,
{
    reveal_strlit("pull_request");
    reveal_strlit("pull_request_target");
    reveal_strlit("issue_comment");
    assert("pull_request"@[0] != "issue_comment"@[0]);
    assert("pull_request_target"@[0] != "issue_comment"@[0]);
    assert("pull_request"@ != "issue_comment"@);
    assert("pull_request_target"@ != "issue_comment"@);
}

/// A labeled pull request runs exactly when no label is wanted or the
/// wanted label is its own, and then in the pull request's context: its
/// head commit, its head and base branches as `refs/heads/...`, its author.
pub proof fn law_labeled_run_needs_only_a_matching_label(
    label_name: Seq<char>,
    head_sha: Seq<char>,
    head_ref: Seq<char>,
    base_ref: Seq<char>,
    pr_author: Seq<char>,
    wanted_label: Option<Seq<char>>,
    fallback_sha: Seq<char>,
    fallback_ref: Seq<char>,
)
    ensures
        ({
            let c = spec_run_context(
                EventView::PullRequestLabeled { label_name, head_sha, head_ref, base_ref, pr_author },
                wanted_label,
                fallback_sha,
                fallback_ref,
            );
            &&& c.should_run <==> (wanted_label is None || wanted_label == Some(label_name))
            &&& c.should_run ==> {
                &&& c.checkout_ref == head_sha
                &&& c.branch_ref == "refs/heads/"@ + head_ref
                &&& c.base_ref == "refs/heads/"@ + base_ref
                &&& c.pr_author == pr_author
            }
            &&& !c.should_run ==> c.checkout_ref.len() == 0
        }),
{
}
} // verus!
