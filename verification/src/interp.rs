//! The interpreter: `apply(catalog, event, env)`. Every phase is walked in
//! order and every branch ends at a named [`DispatchOutcome`]: an untrusted
//! knock, an unmatched command and a successful dispatch are three different,
//! equally explicit outcomes. Only a failed mutation of a trusted knock is an
//! error.
//!
//! `apply` walks the steps of [`crate::steps`]; a caller talking to a remote
//! repository walks the same steps itself, fetching the pull request and the
//! permission and making the mutations, with every decision still taken
//! here. The phases the steps are made of are public too ([`knock_of`],
//! [`judge`], [`mutations`], [`finish`]).

use vstd::prelude::*;

use crate::environment::{
    env_error_text, opt_pr_view, EnvCall, EnvError, EnvRead, Environment, Mutation, PullRequestInfo, PullRequestView,
};
use crate::event::{branch_ref_of, is_develop, is_develop_ref, to_branch_ref, EventView, InboundEvent};
use crate::json::{lemma_object_view, string_array, string_array_view, JsonValue, JsonView};
use crate::spec::{
    opt_view, strings_view, CatalogSpec, CommandView, CommentCommandSpec, DispatchTarget, InputMap, Permission,
    TargetView,
};
use crate::steps::{begin, on_performed, on_permission, on_pull_request, Next};
use crate::text::{
    chars_of, debug_quoted, decimal, has_prefix, is_whitespace, is_ws, owned, push_decimal, push_str,
    push_string, quote_debug, split_words, str_eq, trim_start, trim_start_chars, words_from,
};

verus! {

/// A trusted knock whose target mutation failed, with the phase it failed in.
#[derive(Debug, Clone, PartialEq, Eq)]
pub enum SpecError {
    Interp { phase: &'static str, source: EnvError },
}

/// The text of a [`SpecError`].
pub open spec fn spec_error_text(e: SpecError) -> Seq<char> {
    match e {
        SpecError::Interp { phase, source } => "interpreter phase `"@ + phase@ + "` failed: "@
            + env_error_text(source),
    }
}

impl SpecError {
    /// The error's text, as the CLI prints it.
    pub fn to_string(&self) -> (s: String)
        ensures
            s@ == spec_error_text(*self),
    {
        match self {
            SpecError::Interp { phase, source } => {
                let mut s = owned("interpreter phase `");
                push_str(&mut s, phase);
                push_str(&mut s, "` failed: ");
                let detail = source.to_string();
                push_string(&mut s, &detail);
                s
            },
        }
    }
}

/// The view of a [`ResolvedContext`].
pub struct ContextView {
    pub checkout_ref: Seq<char>,
    pub branch_ref: Seq<char>,
    pub base_ref: Seq<char>,
    pub pr_author: Seq<char>,
    pub is_develop: bool,
}

/// The trust and dispatch context resolved from the pull request a knock
/// landed on.
#[derive(Debug, Clone, PartialEq, Eq)]
pub struct ResolvedContext {
    pub checkout_ref: String,
    pub branch_ref: String,
    pub base_ref: String,
    pub pr_author: String,
    pub is_develop: bool,
}

impl View for ResolvedContext {
    type V = ContextView;

    open spec fn view(&self) -> ContextView {
        ContextView {
            checkout_ref: self.checkout_ref@,
            branch_ref: self.branch_ref@,
            base_ref: self.base_ref@,
            pr_author: self.pr_author@,
            is_develop: self.is_develop,
        }
    }
}

/// The view of a [`DispatchOutcome`].
pub enum OutcomeView {
    NotOnPullRequest,
    NoMatch { reason: Seq<char> },
    Rejected { command: Seq<char>, commenter: Seq<char>, reason: Seq<char> },
    Dispatched {
        command: Seq<char>,
        args: Seq<Seq<char>>,
        commenter: Seq<char>,
        context: ContextView,
        target_kind: Seq<char>,
        target_detail: Seq<char>,
    },
}

/// The interpreter's outcome: one variant per phase a run can end at.
#[derive(Debug, Clone, PartialEq, Eq)]
pub enum DispatchOutcome {
    /// The event was an `issue_comment` on a plain issue, not a pull request.
    NotOnPullRequest,
    /// The event carried no command the catalog recognizes (including: not an
    /// `issue_comment` event at all).
    NoMatch { reason: String },
    /// A command matched, but the commenter was not trusted to run it.
    Rejected { command: String, commenter: String, reason: String },
    /// A command matched, the commenter was trusted, and the target was
    /// dispatched.
    Dispatched {
        command: String,
        args: Vec<String>,
        commenter: String,
        context: ResolvedContext,
        target_kind: &'static str,
        target_detail: String,
    },
}

impl View for DispatchOutcome {
    type V = OutcomeView;

    open spec fn view(&self) -> OutcomeView {
        match self {
            DispatchOutcome::NotOnPullRequest => OutcomeView::NotOnPullRequest,
            DispatchOutcome::NoMatch { reason } => OutcomeView::NoMatch { reason: reason@ },
            DispatchOutcome::Rejected { command, commenter, reason } => OutcomeView::Rejected {
                command: command@,
                commenter: commenter@,
                reason: reason@,
            },
            DispatchOutcome::Dispatched { command, args, commenter, context, target_kind, target_detail } => {
                OutcomeView::Dispatched {
                    command: command@,
                    args: strings_view(args@),
                    commenter: commenter@,
                    context: context@,
                    target_kind: target_kind@,
                    target_detail: target_detail@,
                }
            },
        }
    }
}

impl DispatchOutcome {
    /// Whether the run ended in a dispatch.
    pub fn dispatched(&self) -> (b: bool)
        ensures
            b == (self is Dispatched),
    {
        match self {
            DispatchOutcome::Dispatched { .. } => true,
            _ => false,
        }
    }
}

/// The words captured after `trigger` when `body` starts with it and the
/// trigger is followed by whitespace or the end of the body (the pattern
/// `^trigger(\s|$)`); `None` when the body does not match.
pub open spec fn trigger_args(body: Seq<char>, trigger: Seq<char>) -> Option<Seq<Seq<char>>> {
    if !has_prefix(body, trigger) {
        None
    } else if body.len() == trigger.len() {
        Some(Seq::<Seq<char>>::empty())
    } else if is_ws(body[trigger.len() as int]) {
        Some(words_from(body, trigger.len() as int))
    } else {
        None
    }
}

/// The first command at or after `i` whose trigger matches `body`, with its
/// index and captured words.
pub open spec fn find_from(cmds: Seq<CommandView>, body: Seq<char>, i: int) -> Option<(int, Seq<Seq<char>>)>
    decreases cmds.len() - i,
{
    if i < 0 || i >= cmds.len() {
        None
    } else {
        match trigger_args(body, cmds[i].trigger) {
            Some(args) => Some((i, args)),
            None => find_from(cmds, body, i + 1),
        }
    }
}

/// The command a comment invokes: the first in catalog order whose trigger
/// matches the comment with its leading whitespace removed.
pub open spec fn command_match(cmds: Seq<CommandView>, comment_body: Seq<char>) -> Option<(int, Seq<Seq<char>>)> {
    find_from(cmds, trim_start(comment_body), 0)
}

/// The view of an optional list of strings.
pub open spec fn opt_strings_view(o: Option<Vec<String>>) -> Option<Seq<Seq<char>>> {
    match o {
        Some(v) => Some(strings_view(v@)),
        None => None,
    }
}

/// Match `body` against `trigger` as a prefix followed by whitespace or the
/// end of the body; on a match, the whitespace-split remainder.
fn match_trigger(body: &[char], trigger: &str) -> (r: Option<Vec<String>>)
    ensures
        opt_strings_view(r) == trigger_args(body@, trigger@),
{
    let t = chars_of(trigger);
    if t.len() > body.len() {
        return None;
    }
    let mut i: usize = 0;
    while i < t.len()
        invariant
            t@ == trigger@,
            t@.len() <= body@.len(),
            0 <= i <= t@.len(),
            forall|k: int| 0 <= k < i ==> body@[k] == t@[k],
        decreases t.len() - i,
    {
        if body[i] != t[i] {
            proof {
                assert(body@.take(t@.len() as int)[i as int] != t@[i as int]);
            }
            return None;
        }
        i = i + 1;
    }
    assert(body@.take(t@.len() as int) =~= t@);
    if t.len() == body.len() {
        let r: Vec<String> = Vec::new();
        assert(strings_view(r@) =~= Seq::<Seq<char>>::empty());
        Some(r)
    } else if is_whitespace(body[t.len()]) {
        let words = split_words(body, t.len());
        assert(strings_view(words@) == words@.map_values(|w: String| w@));
        Some(words)
    } else {
        None
    }
}

/// The first command whose trigger matches the comment, by index, with the
/// captured words.
fn find_command(catalog: &CatalogSpec, body: &str) -> (r: Option<(usize, Vec<String>)>)
    ensures
        match r {
            Some((i, args)) => i < catalog.commands@.len() && command_match(catalog@, body@) == Some(
                (i as int, strings_view(args@)),
            ),
            None => command_match(catalog@, body@) is None,
        },
{
    let trimmed = trim_start_chars(body);
    let ghost cmds = catalog@;
    let mut i: usize = 0;
    while i < catalog.commands.len()
        invariant
            0 <= i <= catalog.commands@.len(),
            cmds == catalog@,
            trimmed@ == trim_start(body@),
            find_from(cmds, trimmed@, 0) == find_from(cmds, trimmed@, i as int),
        decreases catalog.commands.len() - i,
    {
        match match_trigger(trimmed.as_slice(), catalog.commands[i].trigger.as_str()) {
            Some(args) => {
                return Some((i, args));
            },
            None => {},
        }
        i = i + 1;
    }
    None
}

/// Whether `commenter` may run `cmd` on a pull request by `pr_author`, when
/// the repo grants the commenter `held`: as the PR's author (when the
/// command trusts authors), as an allowlisted login, or by holding at least
/// the command's minimum permission.
pub open spec fn trusted(cmd: CommandView, commenter: Seq<char>, pr_author: Seq<char>, held: Permission) -> bool {
    ||| cmd.trust_pr_author && commenter == pr_author
    ||| cmd.allowlist.contains(commenter)
    ||| held.rank() >= cmd.min_permission.rank()
}

/// The position `N` a positional placeholder `$N` names: exactly `$1`
/// through `$9`; `None` for any other string.
pub open spec fn positional(template: Seq<char>) -> Option<int> {
    if template.len() == 2 && template[0] == '$' && '1' <= template[1] && template[1] <= '9' {
        Some((template[1] as int) - 48)
    } else {
        None
    }
}

/// A target template string with its placeholder resolved: `$checkout-ref`,
/// `$branch-ref`, `$base-ref` and `$pr-author` from the context, `$1` ..
/// `$9` as the `N`-th captured word or the empty string when fewer were
/// captured. Any other string (`$0`, `$10`, `env-$1`, a misspelled name)
/// stays verbatim.
pub open spec fn substituted(template: Seq<char>, ctx: ContextView, args: Seq<Seq<char>>) -> Seq<char> {
    if template == "$checkout-ref"@ {
        ctx.checkout_ref
    } else if template == "$branch-ref"@ {
        ctx.branch_ref
    } else if template == "$base-ref"@ {
        ctx.base_ref
    } else if template == "$pr-author"@ {
        ctx.pr_author
    } else {
        match positional(template) {
            Some(n) => if n - 1 < args.len() {
                args[n - 1]
            } else {
                Seq::<char>::empty()
            },
            None => template,
        }
    }
}

/// Substitute the placeholder a target template string names.
fn substitute(template: &str, ctx: &ResolvedContext, args: &Vec<String>) -> (r: String)
    ensures
        r@ == substituted(template@, ctx@, strings_view(args@)),
{
    if str_eq(template, "$checkout-ref") {
        return ctx.checkout_ref.clone();
    }
    if str_eq(template, "$branch-ref") {
        return ctx.branch_ref.clone();
    }
    if str_eq(template, "$base-ref") {
        return ctx.base_ref.clone();
    }
    if str_eq(template, "$pr-author") {
        return ctx.pr_author.clone();
    }
    let t = chars_of(template);
    if t.len() == 2 && t[0] == '$' && '1' <= t[1] && t[1] <= '9' {
        let n: usize = (t[1] as u32 - 48) as usize;
        if n - 1 < args.len() {
            return args[n - 1].clone();
        } else {
            return String::new();
        }
    }
    owned(template)
}

/// The workflow inputs with every value template substituted.
pub open spec fn substituted_inputs(inputs: Map<Seq<char>, Seq<char>>, ctx: ContextView, args: Seq<Seq<char>>) -> Map<Seq<char>, Seq<char>> {
    inputs.map_values(|v: Seq<char>| substituted(v, ctx, args))
}

/// Substitute every input value; the keys stay as they are.
fn substitute_inputs(inputs: &InputMap, ctx: &ResolvedContext, args: &Vec<String>) -> (r: InputMap)
    ensures
        r@ == substituted_inputs(inputs@, ctx@, strings_view(args@)),
{
    let pairs = inputs.pairs();
    let ghost pv = inputs.pair_views();
    let mut values: Vec<String> = Vec::new();
    let mut i: usize = 0;
    while i < pairs.len()
        invariant
            0 <= i <= pairs@.len(),
            pairs@.map_values(|p: (String, String)| (p.0@, p.1@)) == pv,
            values@.len() == i,
            forall|k: int| 0 <= k < i ==> #[trigger] values@[k]@ == substituted(
                pv[k].1,
                ctx@,
                strings_view(args@),
            ),
        decreases pairs.len() - i,
    {
        let v = substitute(pairs[i].1.as_str(), ctx, args);
        assert(pv[i as int].1 == pairs@[i as int].1@);
        values.push(v);
        i = i + 1;
    }
    let r = inputs.with_values(values);
    let _ = r.pairs();
    let ghost want = substituted_inputs(inputs@, ctx@, strings_view(args@));
    assert(r@ =~= want) by {
        assert forall|k: Seq<char>| #[trigger] r@.contains_key(k) implies r@[k] == want[k] by {
            assert(inputs@.contains_key(k));
            let j = choose|j: int| 0 <= j < pv.len() && pv[j].0 == k;
            assert(r.pair_views()[j] == (pv[j].0, values@[j]@));
        }
    }
    r
}

/// The `repository_dispatch` client payload: the resolved context and the
/// captured words, under keys in the order a JSON object map writes them.
pub open spec fn payload_view(ctx: ContextView, args: Seq<Seq<char>>) -> JsonView {
    JsonView::Object(
        seq![
            ("args"@, string_array_view(args)),
            ("base_ref"@, JsonView::Str(ctx.base_ref)),
            ("branch_ref"@, JsonView::Str(ctx.branch_ref)),
            ("checkout_ref"@, JsonView::Str(ctx.checkout_ref)),
            ("pr_author"@, JsonView::Str(ctx.pr_author)),
        ],
    )
}

/// Builds the `repository_dispatch` client payload.
fn dispatch_payload(ctx: &ResolvedContext, args: &Vec<String>) -> (p: JsonValue)
    ensures
        p@ == payload_view(ctx@, strings_view(args@)),
{
    let array = string_array(args);
    let mut entries: Vec<(String, JsonValue)> = Vec::new();
    entries.push((owned("args"), array));
    entries.push((owned("base_ref"), JsonValue::String(ctx.base_ref.clone())));
    entries.push((owned("branch_ref"), JsonValue::String(ctx.branch_ref.clone())));
    entries.push((owned("checkout_ref"), JsonValue::String(ctx.checkout_ref.clone())));
    entries.push((owned("pr_author"), JsonValue::String(ctx.pr_author.clone())));
    let ghost want = payload_view(ctx@, strings_view(args@));
    proof {
        lemma_object_view(entries);
    }
    let p = JsonValue::Object(entries);
    assert(p@ == want) by {
        assert(p@->Object_0 =~= want->Object_0);
    }
    p
}

/// The workflow ref a target dispatches on: its template substituted, or the
/// pull request's branch when it names none.
pub open spec fn resolved_ref(git_ref: Option<Seq<char>>, ctx: ContextView, args: Seq<Seq<char>>) -> Seq<char> {
    match git_ref {
        Some(r) => substituted(r, ctx, args),
        None => ctx.branch_ref,
    }
}

/// What dispatching a target does: the environment calls it makes, in
/// order; the phase a failure is reported in; and the kind and detail a
/// dispatched outcome reports.
pub struct TargetPlan {
    pub calls: Seq<EnvCall>,
    pub phase: Seq<char>,
    pub kind: Seq<char>,
    pub detail: Seq<char>,
}

/// The kind of target a dispatched outcome reports.
pub open spec fn target_kind(target: TargetView) -> Seq<char> {
    match target {
        TargetView::Label { .. } => "label"@,
        TargetView::WorkflowDispatch { .. } => "workflow-dispatch"@,
        TargetView::RepositoryDispatch { .. } => "repository-dispatch"@,
    }
}

/// The phase a failed dispatch of a target is reported in.
pub open spec fn target_phase(target: TargetView) -> Seq<char> {
    match target {
        TargetView::Label { .. } => "relabel"@,
        TargetView::WorkflowDispatch { .. } => "workflow-dispatch"@,
        TargetView::RepositoryDispatch { .. } => "repository-dispatch"@,
    }
}

/// The plan for dispatching `target` on issue `issue_number`.
pub open spec fn target_plan(target: TargetView, issue_number: u64, ctx: ContextView, args: Seq<Seq<char>>) -> TargetPlan {
    match target {
        TargetView::Label { name } => TargetPlan {
            calls: seq![
                EnvCall::RemoveLabel { issue_number, label: name },
                EnvCall::AddLabel { issue_number, label: name },
            ],
            phase: target_phase(target),
            kind: target_kind(target),
            detail: name,
        },
        TargetView::WorkflowDispatch { workflow, git_ref, inputs } => TargetPlan {
            calls: seq![
                EnvCall::DispatchWorkflow {
                    workflow,
                    git_ref: resolved_ref(git_ref, ctx, args),
                    inputs: substituted_inputs(inputs, ctx, args),
                },
            ],
            phase: target_phase(target),
            kind: target_kind(target),
            detail: workflow,
        },
        TargetView::RepositoryDispatch { event_type, repo } => TargetPlan {
            calls: seq![EnvCall::RepositoryDispatch { event_type, repo, payload: payload_view(ctx, args) }],
            phase: target_phase(target),
            kind: target_kind(target),
            detail: event_type,
        },
    }
}

/// The phase an interpreter error was raised in.
pub open spec fn error_phase(e: SpecError) -> Seq<char> {
    match e {
        SpecError::Interp { phase, .. } => phase@,
    }
}

/// Whether the calls going from `before` to `after` are the plan `planned`
/// made in order up to its first failure: at least one call was made, each
/// was the next planned call, every call but the last succeeded, and the
/// calls stopped short of the plan only at a failure.
pub open spec fn ran_plan(before: Seq<(EnvCall, Result<(), EnvError>)>, after: Seq<(EnvCall, Result<(), EnvError>)>, planned: Seq<EnvCall>) -> bool {
    let made = after.subrange(before.len() as int, after.len() as int);
    &&& before.len() < after.len() <= before.len() + planned.len()
    &&& after.subrange(0, before.len() as int) == before
    &&& forall|j: int| 0 <= j < made.len() ==> #[trigger] made[j].0 == planned[j]
    &&& forall|j: int| 0 <= j < made.len() - 1 ==> (#[trigger] made[j]).1 is Ok
    &&& made.last().1 is Ok ==> made.len() == planned.len()
}

/// The `Debug` rendering of an inbound event, as `format!("{:?}")` writes a
/// derived `Debug`: the variant's name, then its fields in braces.
pub open spec fn event_debug(event: EventView) -> Seq<char> {
    match event {
        EventView::IssueComment { issue_number, comment_body, commenter_login } => "IssueComment { issue_number: "@
            + decimal(issue_number as nat) + ", comment_body: "@ + debug_quoted(comment_body)
            + ", commenter_login: "@ + debug_quoted(commenter_login) + " }"@,
        EventView::IssueCommentNotOnPullRequest => "IssueCommentNotOnPullRequest"@,
        EventView::PullRequestLabeled { label_name, head_sha, head_ref, base_ref, pr_author } => {
            "PullRequestLabeled { label_name: "@ + debug_quoted(label_name) + ", head_sha: "@ + debug_quoted(
                head_sha,
            ) + ", head_ref: "@ + debug_quoted(head_ref) + ", base_ref: "@ + debug_quoted(base_ref)
                + ", pr_author: "@ + debug_quoted(pr_author) + " }"@
        },
        EventView::PullRequestOther { head_sha, head_ref, base_ref, pr_author } => "PullRequestOther { head_sha: "@
            + debug_quoted(head_sha) + ", head_ref: "@ + debug_quoted(head_ref) + ", base_ref: "@
            + debug_quoted(base_ref) + ", pr_author: "@ + debug_quoted(pr_author) + " }"@,
        EventView::AlwaysRun { event_name } => "AlwaysRun { event_name: "@ + debug_quoted(event_name) + " }"@,
        EventView::Unsupported { event_name } => "Unsupported { event_name: "@ + debug_quoted(event_name)
            + " }"@,
    }
}

/// Appends `name`, then the quoted rendering of `value`.
fn push_field(s: &mut String, name: &str, value: &String)
    ensures
        final(s)@ == old(s)@ + name@ + debug_quoted(value@),
{
    push_str(s, name);
    let q = quote_debug(value.as_str());
    push_string(s, &q);
}

/// The `Debug` rendering of an inbound event.
fn event_debug_text(event: &InboundEvent) -> (r: String)
    ensures
        r@ == event_debug(event@),
{
    match event {
        InboundEvent::IssueComment { issue_number, comment_body, commenter_login } => {
            let mut s = owned("IssueComment { issue_number: ");
            push_decimal(&mut s, *issue_number as u128);
            push_field(&mut s, ", comment_body: ", comment_body);
            push_field(&mut s, ", commenter_login: ", commenter_login);
            push_str(&mut s, " }");
            s
        },
        InboundEvent::IssueCommentNotOnPullRequest => owned("IssueCommentNotOnPullRequest"),
        InboundEvent::PullRequestLabeled { label_name, head_sha, head_ref, base_ref, pr_author } => {
            let mut s = owned("PullRequestLabeled");
            push_field(&mut s, " { label_name: ", label_name);
            push_field(&mut s, ", head_sha: ", head_sha);
            push_field(&mut s, ", head_ref: ", head_ref);
            push_field(&mut s, ", base_ref: ", base_ref);
            push_field(&mut s, ", pr_author: ", pr_author);
            push_str(&mut s, " }");
            proof {
                reveal_strlit("PullRequestLabeled");
                reveal_strlit(" { label_name: ");
                reveal_strlit("PullRequestLabeled { label_name: ");
            }
            s
        },
        InboundEvent::PullRequestOther { head_sha, head_ref, base_ref, pr_author } => {
            let mut s = owned("PullRequestOther");
            push_field(&mut s, " { head_sha: ", head_sha);
            push_field(&mut s, ", head_ref: ", head_ref);
            push_field(&mut s, ", base_ref: ", base_ref);
            push_field(&mut s, ", pr_author: ", pr_author);
            push_str(&mut s, " }");
            proof {
                reveal_strlit("PullRequestOther");
                reveal_strlit(" { head_sha: ");
                reveal_strlit("PullRequestOther { head_sha: ");
            }
            s
        },
        InboundEvent::AlwaysRun { event_name } => {
            let mut s = owned("AlwaysRun");
            push_field(&mut s, " { event_name: ", event_name);
            push_str(&mut s, " }");
            proof {
                reveal_strlit("AlwaysRun");
                reveal_strlit(" { event_name: ");
                reveal_strlit("AlwaysRun { event_name: ");
            }
            s
        },
        InboundEvent::Unsupported { event_name } => {
            let mut s = owned("Unsupported");
            push_field(&mut s, " { event_name: ", event_name);
            push_str(&mut s, " }");
            proof {
                reveal_strlit("Unsupported");
                reveal_strlit(" { event_name: ");
                reveal_strlit("Unsupported { event_name: ");
            }
            s
        },
    }
}

/// The name a permission tier's message uses: its variant name, with the
/// lowest tier spelled `None`.
pub open spec fn permission_name(p: Permission) -> Seq<char> {
    match p {
        Permission::NoAccess => "None"@,
        Permission::Read => "Read"@,
        Permission::Triage => "Triage"@,
        Permission::Write => "Write"@,
        Permission::Maintain => "Maintain"@,
        Permission::Admin => "Admin"@,
    }
}

fn permission_name_text(p: Permission) -> (r: &'static str)
    ensures
        r@ == permission_name(p),
{
    match p {
        Permission::NoAccess => "None",
        Permission::Read => "Read",
        Permission::Triage => "Triage",
        Permission::Write => "Write",
        Permission::Maintain => "Maintain",
        Permission::Admin => "Admin",
    }
}

/// Why a knock by `commenter` was not trusted for a command requiring `min`.
pub open spec fn untrusted_reason(commenter: Seq<char>, min: Permission) -> Seq<char> {
    "commenter `"@ + commenter + "` is not the PR author, not allowlisted, and does not hold `"@
        + permission_name(min) + "`+ permission"@
}

/// Why a knock on an issue whose pull request cannot be resolved is
/// rejected.
pub open spec fn unresolved_reason(issue_number: u64) -> Seq<char> {
    "could not resolve pull request #"@ + decimal(issue_number as nat)
}

/// Why a comment that matches no trigger ends the run.
pub open spec fn unmatched_reason() -> Seq<char> {
    "comment does not match any registered command trigger"@
}

/// Why an event that is not a comment on a pull request ends the run.
pub open spec fn not_a_comment_reason(event: EventView) -> Seq<char> {
    "event is not an issue_comment on a pull request ("@ + event_debug(event) + ")"@
}

/// The dispatch context of a pull request: its head commit, its head and
/// base branches as `refs/heads/...`, its author, and whether its head
/// branch is `develop`.
pub open spec fn context_of(pr: PullRequestView) -> ContextView {
    ContextView {
        checkout_ref: pr.head_sha,
        branch_ref: branch_ref_of(pr.head_ref),
        base_ref: branch_ref_of(pr.base_ref),
        pr_author: pr.author,
        is_develop: is_develop(branch_ref_of(pr.head_ref)),
    }
}

/// What the interpreter decides before any mutation.
pub enum Decision {
    /// The run ends with this outcome and the environment is not mutated.
    Settle(OutcomeView),
    /// A trusted knock: `command`'s target is dispatched.
    Dispatch {
        command: CommandView,
        args: Seq<Seq<char>>,
        commenter: Seq<char>,
        issue_number: u64,
        context: ContextView,
    },
}

/// The login a comment event carries; empty for any other event.
pub open spec fn commenter_of(event: EventView) -> Seq<char> {
    match event {
        EventView::IssueComment { commenter_login, .. } => commenter_login,
        _ => Seq::<char>::empty(),
    }
}

/// A comment that invokes a command: the command, the words it captured,
/// who commented, and on which issue.
pub struct KnockView {
    pub command: CommandView,
    pub args: Seq<Seq<char>>,
    pub commenter: Seq<char>,
    pub issue_number: u64,
}

/// A comment that invokes a command of a catalog.
#[derive(Debug)]
pub struct Knock<'a> {
    pub command: &'a CommentCommandSpec,
    pub args: Vec<String>,
    pub commenter: String,
    pub issue_number: u64,
}

impl<'a> View for Knock<'a> {
    type V = KnockView;

    open spec fn view(&self) -> KnockView {
        KnockView {
            command: self.command@,
            args: strings_view(self.args@),
            commenter: self.commenter@,
            issue_number: self.issue_number,
        }
    }
}

/// The first phase: the knock an event carries against the catalog `cmds`,
/// or the outcome of an event that carries none.
pub open spec fn spec_knock(cmds: Seq<CommandView>, event: EventView) -> Result<KnockView, OutcomeView> {
    match event {
        EventView::IssueComment { issue_number, comment_body, commenter_login } => {
            match command_match(cmds, comment_body) {
                None => Err(OutcomeView::NoMatch { reason: unmatched_reason() }),
                Some((i, args)) => Ok(KnockView { command: cmds[i], args, commenter: commenter_login, issue_number }),
            }
        },
        EventView::IssueCommentNotOnPullRequest => Err(OutcomeView::NotOnPullRequest),
        _ => Err(OutcomeView::NoMatch { reason: not_a_comment_reason(event) }),
    }
}

/// The second phase: whether a knock is let in, when the pull request it is
/// on resolves to `pr` and the commenter holds `held`. A trusted knock gets
/// the pull request's dispatch context; any other is rejected with the
/// reason.
pub open spec fn spec_judge(k: KnockView, pr: Option<PullRequestView>, held: Permission) -> Result<ContextView, OutcomeView> {
    match pr {
        None => Err(
            OutcomeView::Rejected {
                command: k.command.name,
                commenter: k.commenter,
                reason: unresolved_reason(k.issue_number),
            },
        ),
        Some(p) => if trusted(k.command, k.commenter, p.author, held) {
            Ok(context_of(p))
        } else {
            Err(
                OutcomeView::Rejected {
                    command: k.command.name,
                    commenter: k.commenter,
                    reason: untrusted_reason(k.commenter, k.command.min_permission),
                },
            )
        },
    }
}

/// The decision for `event` against the catalog `cmds`, when the pull
/// request the comment is on resolves to `pr` and the commenter holds
/// `held`.
pub open spec fn decide(cmds: Seq<CommandView>, event: EventView, pr: Option<PullRequestView>, held: Permission) -> Decision {
    match spec_knock(cmds, event) {
        Err(o) => Decision::Settle(o),
        Ok(k) => match spec_judge(k, pr, held) {
            Err(o) => Decision::Settle(o),
            Ok(context) => Decision::Dispatch {
                command: k.command,
                args: k.args,
                commenter: k.commenter,
                issue_number: k.issue_number,
                context,
            },
        },
    }
}

/// The decision `apply` reaches for `event` on `env` as it stands.
pub open spec fn decision_on<E: Environment>(cmds: Seq<CommandView>, event: EventView, env: E) -> Decision {
    let pr = match event {
        EventView::IssueComment { issue_number, .. } => env.pull_request_of(issue_number),
        _ => None,
    };
    decide(cmds, event, pr, env.permission_of(commenter_of(event)))
}

/// Whether `r` is what `apply` answers, with the environment's calls going
/// from `before` to `after`, when it decided `d`: a settled decision returns
/// its outcome and mutates nothing; a dispatch makes the target's calls in
/// order, stopping at the first that fails. It is reported dispatched
/// exactly when no call failed, and otherwise fails in the target's phase
/// with the error that call returned.
pub open spec fn answers(
    d: Decision,
    r: Result<DispatchOutcome, SpecError>,
    before: Seq<(EnvCall, Result<(), EnvError>)>,
    after: Seq<(EnvCall, Result<(), EnvError>)>,
) -> bool {
    match d {
        Decision::Settle(o) => r matches Ok(out) && out@ == o && after == before,
        Decision::Dispatch { command, args, commenter, issue_number, context } => {
            let plan = target_plan(command.target, issue_number, context, args);
            &&& ran_plan(before, after, plan.calls)
            &&& match r {
                Ok(out) => {
                    &&& after.last().1 is Ok
                    &&& out@ == OutcomeView::Dispatched {
                        command: command.name,
                        args,
                        commenter,
                        context,
                        target_kind: plan.kind,
                        target_detail: plan.detail,
                    }
                },
                Err(e) => {
                    &&& e matches SpecError::Interp { source, .. } && after.last().1 == Err::<(), EnvError>(source)
                    &&& error_phase(e) == plan.phase
                },
            }
        },
    }
}

/// The reads `apply` makes for `event` on `env` as it stands: none for an
/// event that invokes no command; otherwise the pull request, then the
/// commenter's permission only when the pull request resolved and neither
/// author trust nor the allowlist lets the commenter in.
pub open spec fn reads_made<E: Environment>(cmds: Seq<CommandView>, event: EventView, env: E) -> Seq<EnvRead> {
    match spec_knock(cmds, event) {
        Err(_) => Seq::<EnvRead>::empty(),
        Ok(k) => {
            let pr_read = EnvRead::PullRequest { issue_number: k.issue_number };
            match env.pull_request_of(k.issue_number) {
                Some(p) => if trusted_without_permission(k.command, k.commenter, p.author) {
                    seq![pr_read]
                } else {
                    seq![pr_read, EnvRead::Permission { login: k.commenter }]
                },
                None => seq![pr_read],
            }
        },
    }
}

/// The knock an event carries: the first command of the catalog whose
/// trigger the comment matches, with the captured words; or the outcome of
/// an event that is not a comment on a pull request or matches no command.
pub fn knock_of<'a>(catalog: &'a CatalogSpec, event: &InboundEvent) -> (r: Result<Knock<'a>, DispatchOutcome>)
    ensures
        match spec_knock(catalog@, event@) {
            Ok(k) => r matches Ok(x) && x@ == k,
            Err(o) => r matches Err(out) && out@ == o,
        },
{
    let (issue_number, comment_body, commenter_login) = match event {
        InboundEvent::IssueComment { issue_number, comment_body, commenter_login } => (
            *issue_number,
            comment_body,
            commenter_login,
        ),
        InboundEvent::IssueCommentNotOnPullRequest => {
            return Err(DispatchOutcome::NotOnPullRequest);
        },
        _ => {
            let mut reason = owned("event is not an issue_comment on a pull request (");
            let detail = event_debug_text(event);
            push_string(&mut reason, &detail);
            push_str(&mut reason, ")");
            return Err(DispatchOutcome::NoMatch { reason });
        },
    };
    match find_command(catalog, comment_body.as_str()) {
        Some((index, args)) => Ok(
            Knock { command: &catalog.commands[index], args, commenter: commenter_login.clone(), issue_number },
        ),
        None => Err(DispatchOutcome::NoMatch { reason: owned("comment does not match any registered command trigger") }),
    }
}

/// Whether a knock is trusted without asking for the commenter's
/// permission: as the PR's author, when the command trusts authors, or as an
/// allowlisted login.
pub open spec fn trusted_without_permission(cmd: CommandView, commenter: Seq<char>, pr_author: Seq<char>) -> bool {
    (cmd.trust_pr_author && commenter == pr_author) || cmd.allowlist.contains(commenter)
}

/// Whether the knock is trusted on a pull request by `pr_author` before
/// the commenter's permission is looked up; when it is not, the permission
/// decides.
pub fn trusted_before_permission(knock: &Knock, pr_author: &str) -> (b: bool)
    ensures
        b == trusted_without_permission(knock@.command, knock@.commenter, pr_author@),
{
    if knock.command.trust_pr_author && str_eq(knock.commenter.as_str(), pr_author) {
        return true;
    }
    let ghost allow = knock@.command.allowlist;
    let mut i: usize = 0;
    while i < knock.command.allowlist.len()
        invariant
            0 <= i <= knock.command.allowlist@.len(),
            allow == strings_view(knock.command.allowlist@),
            forall|k: int| 0 <= k < i ==> allow[k] != knock.commenter@,
        decreases knock.command.allowlist.len() - i,
    {
        if str_eq(knock.command.allowlist[i].as_str(), knock.commenter.as_str()) {
            assert(allow[i as int] == knock.commenter@);
            return true;
        }
        i = i + 1;
    }
    false
}

/// Judges a knock on the pull request it resolved to, `None` when it did
/// not resolve. `held` is the commenter's permission; it is read only when
/// the knock is not trusted before permission.
pub fn judge(knock: &Knock, pr: Option<PullRequestInfo>, held: Permission) -> (r: Result<ResolvedContext, DispatchOutcome>)
    ensures
        match spec_judge(knock@, opt_pr_view(pr), held) {
            Ok(ctx) => r matches Ok(c) && c@ == ctx,
            Err(o) => r matches Err(out) && out@ == o,
        },
{
    let cmd = knock.command;
    let pr = match pr {
        Some(pr) => pr,
        None => {
            let mut reason = owned("could not resolve pull request #");
            push_decimal(&mut reason, knock.issue_number as u128);
            return Err(
                DispatchOutcome::Rejected { command: cmd.name.clone(), commenter: knock.commenter.clone(), reason },
            );
        },
    };
    if !trusted_before_permission(knock, pr.author.as_str()) && !held.at_least(cmd.min_permission) {
        let mut reason = owned("commenter `");
        push_string(&mut reason, &knock.commenter);
        push_str(&mut reason, "` is not the PR author, not allowlisted, and does not hold `");
        push_str(&mut reason, permission_name_text(cmd.min_permission));
        push_str(&mut reason, "`+ permission");
        return Err(
            DispatchOutcome::Rejected { command: cmd.name.clone(), commenter: knock.commenter.clone(), reason },
        );
    }
    let branch_ref = to_branch_ref(pr.head_ref.as_str());
    let is_develop = is_develop_ref(branch_ref.as_str());
    Ok(
        ResolvedContext {
            checkout_ref: pr.head_sha,
            branch_ref,
            base_ref: to_branch_ref(pr.base_ref.as_str()),
            pr_author: pr.author,
            is_develop,
        },
    )
}

/// The views of a list of mutations.
pub open spec fn mutations_view(ms: Seq<Mutation>) -> Seq<EnvCall> {
    ms.map_values(|m: Mutation| m@)
}

/// The mutations that dispatch a trusted knock's target, in order.
pub fn mutations(knock: &Knock, ctx: &ResolvedContext) -> (r: Vec<Mutation>)
    ensures
        mutations_view(r@) == target_plan(knock@.command.target, knock.issue_number, ctx@, knock@.args).calls,
{
    let ghost plan = target_plan(knock@.command.target, knock.issue_number, ctx@, knock@.args);
    let issue_number = knock.issue_number;
    let mut r: Vec<Mutation> = Vec::new();
    match &knock.command.target {
        DispatchTarget::Label { name } => {
            r.push(Mutation::RemoveLabel { issue_number, label: name.clone() });
            r.push(Mutation::AddLabel { issue_number, label: name.clone() });
        },
        DispatchTarget::WorkflowDispatch { workflow, git_ref, inputs } => {
            let resolved_ref = match git_ref {
                Some(t) => substitute(t.as_str(), ctx, &knock.args),
                None => ctx.branch_ref.clone(),
            };
            let resolved_inputs = substitute_inputs(inputs, ctx, &knock.args);
            r.push(Mutation::DispatchWorkflow { workflow: workflow.clone(), git_ref: resolved_ref, inputs: resolved_inputs });
        },
        DispatchTarget::RepositoryDispatch { event_type, repo } => {
            let payload = dispatch_payload(ctx, &knock.args);
            r.push(Mutation::RepositoryDispatch { event_type: event_type.clone(), repo: repo.clone(), payload });
        },
    }
    assert(mutations_view(r@) =~= plan.calls);
    r
}

/// The kind of target a dispatched outcome reports, and the phase a failed
/// dispatch of it is reported in.
fn target_kind_text(target: &DispatchTarget) -> (r: (&'static str, &'static str))
    ensures
        r.0@ == target_kind(target@),
        r.1@ == target_phase(target@),
{
    match target {
        DispatchTarget::Label { .. } => ("label", "relabel"),
        DispatchTarget::WorkflowDispatch { .. } => ("workflow-dispatch", "workflow-dispatch"),
        DispatchTarget::RepositoryDispatch { .. } => ("repository-dispatch", "repository-dispatch"),
    }
}

/// The last phase: a trusted knock whose mutations all succeeded is
/// dispatched; one whose mutation failed with `failure` is an error in the
/// target's phase.
pub fn finish(knock: &Knock, ctx: ResolvedContext, failure: Option<EnvError>) -> (r: Result<DispatchOutcome, SpecError>)
    ensures
        ({
            let plan = target_plan(knock@.command.target, knock.issue_number, ctx@, knock@.args);
            match failure {
                None => r matches Ok(out) && out@ == OutcomeView::Dispatched {
                    command: knock@.command.name,
                    args: knock@.args,
                    commenter: knock@.commenter,
                    context: ctx@,
                    target_kind: plan.kind,
                    target_detail: plan.detail,
                },
                Some(e) => r matches Err(SpecError::Interp { phase, source }) && source == e && phase@ == plan.phase,
            }
        }),
{
    let cmd = knock.command;
    let (kind, phase) = target_kind_text(&cmd.target);
    match failure {
        Some(source) => Err(SpecError::Interp { phase, source }),
        None => {
            let detail = match &cmd.target {
                DispatchTarget::Label { name } => name.clone(),
                DispatchTarget::WorkflowDispatch { workflow, .. } => workflow.clone(),
                DispatchTarget::RepositoryDispatch { event_type, .. } => event_type.clone(),
            };
            Ok(
                DispatchOutcome::Dispatched {
                    command: cmd.name.clone(),
                    args: knock.args.clone(),
                    commenter: knock.commenter.clone(),
                    context: ctx,
                    target_kind: kind,
                    target_detail: detail,
                },
            )
        },
    }
}

/// Walk the catalog against one resolved [`InboundEvent`]: match a command,
/// resolve trust, and, only when both succeed, dispatch the target. Every
/// branch but a failed mutation ends at a [`DispatchOutcome`]; a failed
/// mutation of a trusted knock is a [`SpecError::Interp`] naming its phase,
/// and the mutations after it are not made.
pub fn apply<E: Environment>(catalog: &CatalogSpec, event: &InboundEvent, env: &mut E) -> (r: Result<DispatchOutcome, SpecError>)
    ensures
        answers(decision_on(catalog@, event@, *old(env)), r, old(env).calls(), final(env).calls()),
        final(env).reads() == old(env).reads() + reads_made(catalog@, event@, *old(env)),
{
    let ghost start = *env;
    let ghost d = decision_on(catalog@, event@, start);
    let mut next = begin(catalog, event);
    next = match next {
        Next::ReadPullRequest { knock } => {
            let pr = env.get_pull_request(knock.issue_number);
            on_pull_request(knock, pr)
        },
        other => other,
    };
    next = match next {
        Next::ReadPermission { knock, pr } => {
            let held = env.collaborator_permission(knock.commenter.as_str());
            on_permission(knock, pr, held)
        },
        other => other,
    };
    if let Next::Done(r) = next {
        return r;
    }
    let ghost before = env.calls();
    let ghost reads_before = env.reads();
    let ghost command = d->Dispatch_command;
    let ghost args = d->Dispatch_args;
    let ghost issue_number = d->Dispatch_issue_number;
    let ghost context = d->Dispatch_context;
    let ghost plan = target_plan(command.target, issue_number, context, args).calls;
    let ghost mut made: Seq<(EnvCall, Result<(), EnvError>)> = Seq::empty();
    proof {
        assert(d is Dispatch);
        assert(before + made == before);
    }
    loop
        invariant
            d == decision_on(catalog@, event@, start),
            start == *old(env),
            d is Dispatch,
            command == d->Dispatch_command,
            args == d->Dispatch_args,
            issue_number == d->Dispatch_issue_number,
            context == d->Dispatch_context,
            plan == target_plan(command.target, issue_number, context, args).calls,
            plan.len() > 0,
            env.reads() == reads_before,
            reads_before == start.reads() + reads_made(catalog@, event@, start),
            before == start.calls(),
            env.calls() == before + made,
            made.len() <= plan.len(),
            forall|j: int| 0 <= j < made.len() ==> #[trigger] made[j].0 == plan[j],
            next is Perform || next is Done,
            next is Perform ==> {
                &&& made.len() < plan.len()
                &&& forall|j: int| 0 <= j < made.len() ==> (#[trigger] made[j]).1 is Ok
                &&& next->Perform_knock@ == (KnockView { command, args, commenter: d->Dispatch_commenter, issue_number })
                &&& next->Perform_ctx@ == context
                &&& next->Perform_mutation@ == plan[made.len() as int]
                &&& mutations_view(next->Perform_remaining@) == plan.skip(made.len() as int + 1)
            },
            next matches Next::Done(r) ==> answers(d, r, before, env.calls()),
        decreases
            if next is Perform { plan.len() - made.len() + 1 } else { 0 },
    {
        next = match next {
            Next::Perform { knock, ctx, mutation, remaining } => {
                let ghost n: int = made.len() as int;
                let ghost rest_view = mutations_view(remaining@);
                let result = mutation.perform(env);
                proof {
                    made = made.push((plan[made.len() as int], result));
                }
                let following = on_performed(knock, ctx, remaining, result);
                proof {
                    let after = env.calls();
                    assert(after.subrange(before.len() as int, after.len() as int) == made);
                    assert(after.subrange(0, before.len() as int) == before);
                    assert(after.last() == made.last());
                    assert(rest_view == plan.skip(n + 1));
                    if following is Perform {
                        assert(rest_view[0] == plan[n + 1]);
                        assert(rest_view.drop_first() =~= plan.skip(n + 2));
                        assert forall|j: int| 0 <= j < made.len() implies (#[trigger] made[j]).1 is Ok by {
                            if j < n {
                                assert(made[j] == made.drop_last()[j]);
                            }
                        }
                    }
                }
                following
            },
            Next::Done(r) => {
                return r;
            },
            other => other,
        };
    }
}

/// The words `ws`, each preceded by one space: what follows the trigger in
/// a comment that passes `ws` as arguments.
pub open spec fn spaced(ws: Seq<Seq<char>>) -> Seq<char>
    decreases ws.len(),
{
    if ws.len() == 0 {
        Seq::<char>::empty()
    } else {
        seq![' '] + ws[0] + spaced(ws.drop_first())
    }
}

/// Whether `w` is a non-empty word without whitespace.
pub open spec fn is_word(w: Seq<char>) -> bool {
    w.len() > 0 && forall|k: int| 0 <= k < w.len() ==> !is_ws(#[trigger] w[k])
}

proof fn lemma_word_end_at(s: Seq<char>, i: int, j: int)
    requires
        0 <= i <= j <= s.len(),
        forall|k: int| i <= k < j ==> !is_ws(#[trigger] s[k]),
        j == s.len() || is_ws(s[j]),
    ensures
        crate::text::word_end(s, i) == j,
    decreases j - i,
{
    if i < j {
        lemma_word_end_at(s, i + 1, j);
    }
}

proof fn lemma_words_after(p: Seq<char>, ws: Seq<Seq<char>>)
    requires
        forall|k: int| 0 <= k < ws.len() ==> is_word(#[trigger] ws[k]),
    ensures
        words_from(p + spaced(ws), p.len() as int) == ws,
    decreases ws.len(),
{
    let s = p + spaced(ws);
    let i = p.len() as int;
    if ws.len() == 0 {
        assert(s == p);
        assert(ws == Seq::<Seq<char>>::empty());
    } else {
        let w = ws[0];
        let tail = ws.drop_first();
        assert(is_word(w));
        let q = p + seq![' '] + w;
        assert(s == q + spaced(tail));
        assert(s[i] == ' ');
        assert(s[i + 1] == w[0]);
        let j = q.len() as int;
        assert forall|k: int| i + 1 <= k < j implies !is_ws(#[trigger] s[k]) by {
            assert(s[k] == w[k - i - 1]);
        }
        if j < s.len() {
            assert(tail.len() > 0);
            assert(s[j] == ' ');
        }
        lemma_word_end_at(s, i + 2, j);
        assert(s.subrange(i + 1, j) == w);
        assert forall|k: int| 0 <= k < tail.len() implies is_word(#[trigger] tail[k]) by {
            assert(tail[k] == ws[k + 1]);
        }
        lemma_words_after(q, tail);
        assert(words_from(s, j) == tail);
        assert(words_from(s, i) == words_from(s, i + 1));
        assert(words_from(s, i + 1) == seq![s.subrange(i + 1, j)] + words_from(s, j));
        assert(seq![w] + tail == ws);
    }
}

proof fn lemma_trim_start_unchanged(s: Seq<char>)
    requires
        s.len() == 0 || !is_ws(s[0]),
    ensures
        trim_start(s) == s,
{
    assert(s.subrange(0, s.len() as int) == s);
}

/// Arguments round-trip: a comment made of a trigger that does not start
/// with whitespace, followed by words each preceded by one space, invokes a
/// command with that trigger and captures exactly those words, in order.
pub proof fn law_args_round_trip(cmd: CommandView, words: Seq<Seq<char>>)
    requires
        cmd.trigger.len() > 0,
        !is_ws(cmd.trigger[0]),
        forall|k: int| 0 <= k < words.len() ==> is_word(#[trigger] words[k]),
    ensures
        trigger_args(cmd.trigger + spaced(words), cmd.trigger) == Some(words),
        command_match(seq![cmd], cmd.trigger + spaced(words)) == Some((0int, words)),
{
    let body = cmd.trigger + spaced(words);
    lemma_words_after(cmd.trigger, words);
    assert(body.take(cmd.trigger.len() as int) == cmd.trigger);
    if words.len() > 0 {
        assert(body[cmd.trigger.len() as int] == ' ');
    } else {
        assert(body == cmd.trigger);
    }
    assert(body[0] == cmd.trigger[0]);
    lemma_trim_start_unchanged(body);
    assert(seq![cmd][0] == cmd);
}

/// Word boundary: a trigger immediately followed by a character that is not
/// whitespace never matches (`/testing` does not invoke `/test`).
pub proof fn law_trigger_needs_boundary(trigger: Seq<char>, suffix: Seq<char>)
    requires
        suffix.len() > 0,
        !is_ws(suffix[0]),
    ensures
        trigger_args(trigger + suffix, trigger) is None,
{
    let body = trigger + suffix;
    assert(body.take(trigger.len() as int) == trigger);
    assert(body[trigger.len() as int] == suffix[0]);
}

/// Any whitespace ends a trigger: a trigger followed by a whitespace
/// character (a space, a tab, a newline, ...) matches, and captures the
/// words after it; so `/test` followed by a newline invokes `/test`.
pub proof fn law_whitespace_ends_trigger(trigger: Seq<char>, c: char, rest: Seq<char>)
    requires
        is_ws(c),
    ensures
        trigger_args(trigger + seq![c] + rest, trigger) == Some(
            words_from(trigger + seq![c] + rest, trigger.len() as int),
        ),
        trigger_args(trigger + seq!['\n'] + rest, trigger) is Some,
        trigger_args(trigger + seq!['\t'] + rest, trigger) is Some,
{
    let body = trigger + seq![c] + rest;
    assert(body.take(trigger.len() as int) == trigger);
    assert(body[trigger.len() as int] == c);
    let nl = trigger + seq!['\n'] + rest;
    assert(nl.take(trigger.len() as int) == trigger);
    assert(nl[trigger.len() as int] == '\n');
    let tab = trigger + seq!['\t'] + rest;
    assert(tab.take(trigger.len() as int) == trigger);
    assert(tab[trigger.len() as int] == '\t');
}

proof fn lemma_find_from_first(cmds: Seq<CommandView>, body: Seq<char>, start: int)
    requires
        0 <= start,
    ensures
        match find_from(cmds, body, start) {
            Some((i, args)) => {
                &&& start <= i < cmds.len()
                &&& trigger_args(body, cmds[i].trigger) == Some(args)
                &&& forall|j: int| start <= j < i ==> #[trigger] trigger_args(body, cmds[j].trigger) is None
            },
            None => forall|j: int| start <= j < cmds.len() ==> #[trigger] trigger_args(body, cmds[j].trigger) is None,
        },
    decreases cmds.len() - start,
{
    if start < cmds.len() {
        lemma_find_from_first(cmds, body, start + 1);
    }
}

/// The first matching command wins: the command a comment invokes is the
/// earliest in catalog order whose trigger matches, and no command matches
/// when none is reported.
pub proof fn law_first_match_wins(cmds: Seq<CommandView>, comment_body: Seq<char>)
    ensures
        match command_match(cmds, comment_body) {
            Some((i, args)) => {
                &&& 0 <= i < cmds.len()
                &&& trigger_args(trim_start(comment_body), cmds[i].trigger) == Some(args)
                &&& forall|j: int| 0 <= j < i ==> #[trigger] trigger_args(trim_start(comment_body), cmds[j].trigger) is None
            },
            None => forall|j: int| 0 <= j < cmds.len() ==> #[trigger] trigger_args(trim_start(comment_body), cmds[j].trigger) is None,
        },
{
    lemma_find_from_first(cmds, trim_start(comment_body), 0);
}

/// Author trust wins: when a command trusts PR authors and the author
/// comments, the knock is trusted whatever permission the author holds and
/// whatever the allowlist says.
pub proof fn law_author_trust_wins(cmd: CommandView, author: Seq<char>, held: Permission)
    requires
        cmd.trust_pr_author,
    ensures
        trusted(cmd, author, author, held),
{
}

/// An allowlisted login is trusted regardless of its permission or of
/// authorship.
pub proof fn law_allowlisted_is_trusted(cmd: CommandView, commenter: Seq<char>, pr_author: Seq<char>, held: Permission)
    requires
        cmd.allowlist.contains(commenter),
    ensures
        trusted(cmd, commenter, pr_author, held),
{
}

/// Holding at least the command's minimum permission is always trusted;
/// holding less, without author trust or the allowlist, never is.
pub proof fn law_permission_threshold(cmd: CommandView, commenter: Seq<char>, pr_author: Seq<char>, held: Permission)
    ensures
        held.rank() >= cmd.min_permission.rank() ==> trusted(cmd, commenter, pr_author, held),
        held.rank() < cmd.min_permission.rank() && !(cmd.trust_pr_author && commenter == pr_author)
            && !cmd.allowlist.contains(commenter) ==> !trusted(cmd, commenter, pr_author, held),
{
}

/// Trust is monotone in permission: whoever is trusted holding `lower` is
/// trusted holding any tier at least as high.
pub proof fn law_trust_monotone(cmd: CommandView, commenter: Seq<char>, pr_author: Seq<char>, lower: Permission, higher: Permission)
    requires
        lower.rank() <= higher.rank(),
        trusted(cmd, commenter, pr_author, lower),
    ensures
        trusted(cmd, commenter, pr_author, higher),
{
}

/// An untrusted knock never mutates: when a command matches a comment on a
/// resolved pull request but the commenter is not trusted, the run is
/// rejected, and whatever `apply` answers under that decision leaves the
/// environment's calls as they were and reports no dispatch.
pub proof fn law_untrusted_never_mutates(
    cmds: Seq<CommandView>,
    issue_number: u64,
    comment_body: Seq<char>,
    commenter: Seq<char>,
    pr: PullRequestView,
    held: Permission,
    r: Result<DispatchOutcome, SpecError>,
    before: Seq<(EnvCall, Result<(), EnvError>)>,
    after: Seq<(EnvCall, Result<(), EnvError>)>,
)
    requires
        command_match(cmds, comment_body) matches Some((i, _)) && !trusted(cmds[i], commenter, pr.author, held),
        answers(
            decide(cmds, EventView::IssueComment { issue_number, comment_body, commenter_login: commenter }, Some(pr), held),
            r,
            before,
            after,
        ),
    ensures
        after == before,
        r matches Ok(out) && out@ is Rejected,
{
}

/// A trusted knock dispatches: when a command matches a comment on a
/// resolved pull request and the commenter is trusted, the decision is to
/// dispatch that command with the captured words in the pull request's
/// context.
pub proof fn law_trusted_knock_dispatches(
    cmds: Seq<CommandView>,
    issue_number: u64,
    comment_body: Seq<char>,
    commenter: Seq<char>,
    pr: PullRequestView,
    held: Permission,
)
    requires
        command_match(cmds, comment_body) matches Some((i, _)) && trusted(cmds[i], commenter, pr.author, held),
    ensures
        ({
            let (i, args) = command_match(cmds, comment_body).unwrap();
            decide(cmds, EventView::IssueComment { issue_number, comment_body, commenter_login: commenter }, Some(pr), held)
                == Decision::Dispatch { command: cmds[i], args, commenter, issue_number, context: context_of(pr) }
        }),
{
}

/// A run fails only because the environment failed: whatever `apply`
/// answers, it is an error exactly when one of the calls it made failed,
/// and a dispatch that comes back `Ok` made every planned call, each of
/// which succeeded.
pub proof fn law_error_iff_a_call_failed(
    d: Decision,
    r: Result<DispatchOutcome, SpecError>,
    before: Seq<(EnvCall, Result<(), EnvError>)>,
    after: Seq<(EnvCall, Result<(), EnvError>)>,
)
    requires
        answers(d, r, before, after),
    ensures
        r is Err <==> exists|j: int| before.len() <= j < after.len() && (#[trigger] after[j]).1 is Err,
        d matches Decision::Dispatch { command, args, issue_number, context, .. } ==> (r is Ok ==> {
            let plan = target_plan(command.target, issue_number, context, args);
            &&& after.len() == before.len() + plan.calls.len()
            &&& forall|j: int| before.len() <= j < after.len() ==> (#[trigger] after[j]).1 is Ok && after[j].0 == plan.calls[j - before.len()]
        }),
{
    match d {
        Decision::Settle(_) => {},
        Decision::Dispatch { command, args, commenter, issue_number, context } => {
            let plan = target_plan(command.target, issue_number, context, args);
            let made = after.subrange(before.len() as int, after.len() as int);
            assert forall|j: int| before.len() <= j < after.len() implies after[j] == made[j - before.len()] by {}
            if r is Err {
                assert(after[after.len() - 1].1 is Err);
            }
        },
    }
}

/// An unrecognized `$...` token is left verbatim, never dropped: a
/// template that names none of the four context values and is not one of
/// `$1` .. `$9` substitutes to itself.
pub proof fn law_unknown_placeholder_is_verbatim(template: Seq<char>, ctx: ContextView, args: Seq<Seq<char>>)
    requires
        template != "$checkout-ref"@,
        template != "$branch-ref"@,
        template != "$base-ref"@,
        template != "$pr-author"@,
        positional(template) is None,
    ensures
        substituted(template, ctx, args) == template,
{
}

/// `is_develop` follows the pull request's own head branch, not its base:
/// it holds exactly when the head branch is `develop`.
pub proof fn law_develop_follows_head_branch(pr: PullRequestView)
    ensures
        context_of(pr).is_develop <==> pr.head_ref == "develop"@,
        context_of(pr).branch_ref == "refs/heads/"@ + pr.head_ref,
        context_of(pr).base_ref == "refs/heads/"@ + pr.base_ref,
{
    reveal_strlit("refs/heads/");
    reveal_strlit("develop");
    reveal_strlit("refs/heads/develop");
    let prefix = "refs/heads/"@;
    assert("refs/heads/develop"@ == prefix + "develop"@);
    if context_of(pr).is_develop {
        let whole = prefix + pr.head_ref;
        assert(pr.head_ref == whole.subrange(prefix.len() as int, whole.len() as int));
        assert(("refs/heads/develop"@).subrange(prefix.len() as int, ("refs/heads/develop"@).len() as int)
            == "develop"@);
    }
}

} // verus!
