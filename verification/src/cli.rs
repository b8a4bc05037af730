//! The command line's own logic: the single-command catalog built from
//! flags, the permission flag, `KEY=VALUE` inputs, `owner/repo`, and the
//! JSON reports the commands print. Reading files and the environment is
//! left to the binary.

use vstd::prelude::*;

use crate::interp::{DispatchOutcome, OutcomeView};
use crate::json::{lemma_object_view, string_array, string_array_view, JsonValue, JsonView};
use crate::spec::{
    opt_view, permission_keyword, parse_permission_keyword, strings_view, CatalogSpec, CommandView,
    CommentCommandSpec, DispatchTarget, InputMap, Permission, TargetView,
};
use crate::text::{chars_of, owned, push_str, push_string, string_of, trim, trim_chars};

verus! {

/// The view of a [`CliError`].
pub enum CliErrorView {
    MissingCommand,
    UnknownPermission(Seq<char>),
    BadInput(Seq<char>),
    NoTarget,
    BadRepo(Seq<char>),
}

/// Why the command line's arguments do not describe a command.
#[derive(Debug, Clone, PartialEq, Eq)]
pub enum CliError {
    /// Neither a catalog file nor an inline `--command` was given.
    MissingCommand,
    /// `--min-permission` names no permission tier.
    UnknownPermission(String),
    /// An `--input` is not `KEY=VALUE`.
    BadInput(String),
    /// No `--target-*` flag was given.
    NoTarget,
    /// `--repo` is not `owner/repo`.
    BadRepo(String),
}

impl View for CliError {
    type V = CliErrorView;

    open spec fn view(&self) -> CliErrorView {
        match self {
            CliError::MissingCommand => CliErrorView::MissingCommand,
            CliError::UnknownPermission(s) => CliErrorView::UnknownPermission(s@),
            CliError::BadInput(s) => CliErrorView::BadInput(s@),
            CliError::NoTarget => CliErrorView::NoTarget,
            CliError::BadRepo(s) => CliErrorView::BadRepo(s@),
        }
    }
}

/// The text of a [`CliError`].
pub open spec fn cli_error_text(e: CliErrorView) -> Seq<char> {
    match e {
        CliErrorView::MissingCommand => "either --catalog or --command must be given"@,
        CliErrorView::UnknownPermission(s) => "unknown --min-permission `"@ + s
            + "` — expected one of none|read|triage|write|maintain|admin"@,
        CliErrorView::BadInput(s) => "--input must be KEY=VALUE, got `"@ + s + "`"@,
        CliErrorView::NoTarget =>
            "no target given: one of --target-label / --target-workflow / --target-repository-dispatch-event is required"@,
        CliErrorView::BadRepo(s) => "--repo must be `owner/repo`, got `"@ + s + "`"@,
    }
}

impl CliError {
    /// The error's text, as the CLI prints it.
    pub fn to_string(&self) -> (s: String)
        ensures
            s@ == cli_error_text(self@),
    {
        match self {
            CliError::MissingCommand => owned("either --catalog or --command must be given"),
            CliError::UnknownPermission(p) => {
                let mut s = owned("unknown --min-permission `");
                push_string(&mut s, p);
                push_str(&mut s, "` — expected one of none|read|triage|write|maintain|admin");
                s
            },
            CliError::BadInput(kv) => {
                let mut s = owned("--input must be KEY=VALUE, got `");
                push_string(&mut s, kv);
                push_str(&mut s, "`");
                s
            },
            CliError::NoTarget => owned(
                "no target given: one of --target-label / --target-workflow / --target-repository-dispatch-event is required",
            ),
            CliError::BadRepo(r) => {
                let mut s = owned("--repo must be `owner/repo`, got `");
                push_string(&mut s, r);
                push_str(&mut s, "`");
                s
            },
        }
    }
}

/// Parses `--min-permission`: one of the catalog's permission keywords.
pub fn parse_permission(s: &str) -> (r: Result<Permission, CliError>)
    ensures
        match permission_keyword(s@) {
            Some(p) => r == Ok::<Permission, CliError>(p),
            None => r matches Err(e) && e@ == CliErrorView::UnknownPermission(s@),
        },
{
    match parse_permission_keyword(s) {
        Some(p) => Ok(p),
        None => Err(CliError::UnknownPermission(owned(s))),
    }
}

/// The index of the first `c` in `s` at or after `i`, or `s.len()` when
/// there is none.
pub open spec fn find_char(s: Seq<char>, c: char, i: int) -> int
    decreases s.len() - i,
{
    if i < 0 || i >= s.len() {
        s.len() as int
    } else if s[i] == c {
        i
    } else {
        find_char(s, c, i + 1)
    }
}

proof fn lemma_find_char(s: Seq<char>, c: char, i: int)
    requires
        0 <= i <= s.len(),
    ensures
        i <= find_char(s, c, i) <= s.len(),
        find_char(s, c, i) < s.len() ==> s[find_char(s, c, i)] == c,
        forall|k: int| i <= k < find_char(s, c, i) ==> #[trigger] s[k] != c,
    decreases s.len() - i,
{
    if i < s.len() && s[i] != c {
        lemma_find_char(s, c, i + 1);
    }
}

/// What `str::split_once(c)` returns: the text before the first `c` and
/// the text after it, or `None` when `s` holds no `c`.
pub open spec fn split_once(s: Seq<char>, c: char) -> Option<(Seq<char>, Seq<char>)> {
    let i = find_char(s, c, 0);
    if i < s.len() {
        Some((s.take(i), s.skip(i + 1)))
    } else {
        None
    }
}

/// The view of an optional pair of strings.
pub open spec fn opt_pair_view(o: Option<(String, String)>) -> Option<(Seq<char>, Seq<char>)> {
    match o {
        Some((a, b)) => Some((a@, b@)),
        None => None,
    }
}

/// Splits `s` at its first `c`.
pub fn split_once_char(s: &str, c: char) -> (r: Option<(String, String)>)
    ensures
        opt_pair_view(r) == split_once(s@, c),
{
    let v = chars_of(s);
    proof {
        lemma_find_char(v@, c, 0);
    }
    let mut i: usize = 0;
    while i < v.len()
        invariant
            0 <= i <= v@.len(),
            v@ == s@,
            find_char(v@, c, 0) == find_char(v@, c, i as int),
        decreases v.len() - i,
    {
        if v[i] == c {
            let before = string_of(v.as_slice(), 0, i);
            let after = string_of(v.as_slice(), i + 1, v.len());
            return Some((before, after));
        }
        i = i + 1;
    }
    None
}

/// Splits `--repo` into owner and repository name at its first `/`.
pub fn split_repo(full: &str) -> (r: Result<(String, String), CliError>)
    ensures
        match split_once(full@, '/') {
            Some((owner, name)) => r matches Ok((o, n)) && o@ == owner && n@ == name,
            None => r matches Err(e) && e@ == CliErrorView::BadRepo(full@),
        },
{
    match split_once_char(full, '/') {
        Some(parts) => Ok(parts),
        None => Err(CliError::BadRepo(owned(full))),
    }
}

/// The pieces of `s` between occurrences of `sep`, in order (what
/// `str::split(sep)` yields); an empty string is one empty piece.
pub open spec fn split_on(s: Seq<char>, sep: char) -> Seq<Seq<char>>
    decreases s.len(),
{
    if s.len() == 0 {
        seq![Seq::<char>::empty()]
    } else {
        let p = split_on(s.drop_last(), sep);
        if s.last() == sep {
            p.push(Seq::<char>::empty())
        } else {
            p.update(p.len() - 1, p.last().push(s.last()))
        }
    }
}

proof fn lemma_split_on_len(s: Seq<char>, sep: char)
    ensures
        split_on(s, sep).len() >= 1,
    decreases s.len(),
{
    if s.len() > 0 {
        lemma_split_on_len(s.drop_last(), sep);
    }
}

/// The non-empty strings of `ps`, in order.
pub open spec fn non_empty_only(ps: Seq<Seq<char>>) -> Seq<Seq<char>>
    decreases ps.len(),
{
    if ps.len() == 0 {
        ps
    } else if ps.last().len() > 0 {
        non_empty_only(ps.drop_last()).push(ps.last())
    } else {
        non_empty_only(ps.drop_last())
    }
}

/// The logins of a comma-separated `--allowlist`: each piece trimmed, the
/// empty ones dropped, in order.
pub open spec fn allowlist_of(s: Seq<char>) -> Seq<Seq<char>> {
    non_empty_only(split_on(s, ',').map_values(|p: Seq<char>| trim(p)))
}

/// Splits a comma-separated `--allowlist` into its logins.
pub fn split_allowlist(s: &str) -> (r: Vec<String>)
    ensures
        strings_view(r@) == allowlist_of(s@),
{
    let v = chars_of(s);
    let mut out: Vec<String> = Vec::new();
    let mut cur: Vec<char> = Vec::new();
    let mut i: usize = 0;
    proof {
        assert(v@.take(0) == Seq::<char>::empty());
        assert(strings_view(out@) =~= Seq::<Seq<char>>::empty());
        assert(split_on(v@.take(0), ',').drop_last() =~= Seq::<Seq<char>>::empty());
        assert(split_on(v@.take(0), ',').drop_last().map_values(|p: Seq<char>| trim(p))
            =~= Seq::<Seq<char>>::empty());
    }
    while i < v.len()
        invariant
            0 <= i <= v@.len(),
            v@ == s@,
            split_on(v@.take(i as int), ',').len() >= 1,
            cur@ == split_on(v@.take(i as int), ',').last(),
            strings_view(out@) == non_empty_only(
                split_on(v@.take(i as int), ',').drop_last().map_values(|p: Seq<char>| trim(p)),
            ),
        decreases v.len() - i,
    {
        let ghost p = split_on(v@.take(i as int), ',');
        let ghost done = p.drop_last().map_values(|p: Seq<char>| trim(p));
        let ghost before = out@;
        assert(v@.take(i + 1).drop_last() == v@.take(i as int));
        assert(v@.take(i + 1).last() == v@[i as int]);
        if v[i] == ',' {
            let piece = trim_chars(cur.as_slice());
            let ghost q = split_on(v@.take(i + 1), ',');
            assert(q == p.push(Seq::<char>::empty()));
            assert(q.drop_last() == p);
            assert(p == p.drop_last().push(p.last()));
            assert(p.map_values(|p: Seq<char>| trim(p)) =~= done.push(trim(cur@)));
            assert(q.drop_last().map_values(|p: Seq<char>| trim(p)).drop_last() == done);
            if !piece.as_str().is_empty() {
                out.push(piece);
                assert(strings_view(out@) =~= strings_view(before).push(piece@));
            }
            cur = Vec::new();
        } else {
            let ghost q = split_on(v@.take(i + 1), ',');
            assert(q == p.update(p.len() - 1, p.last().push(v@[i as int])));
            assert(q.drop_last() =~= p.drop_last());
            cur.push(v[i]);
        }
        i = i + 1;
    }
    let ghost p = split_on(v@.take(i as int), ',');
    let ghost done = p.drop_last().map_values(|p: Seq<char>| trim(p));
    let ghost before = out@;
    let piece = trim_chars(cur.as_slice());
    assert(v@.take(i as int) == v@);
    assert(p == p.drop_last().push(p.last()));
    assert(p.map_values(|p: Seq<char>| trim(p)) =~= done.push(trim(cur@)));
    assert(p.map_values(|p: Seq<char>| trim(p)).drop_last() == done);
    if !piece.as_str().is_empty() {
        out.push(piece);
        assert(strings_view(out@) =~= strings_view(before).push(piece@));
    }
    out
}

/// The workflow inputs named by `KEY=VALUE` strings, each split at its first
/// `=`, a later key overriding an earlier one; the first string without `=`
/// is the error.
pub open spec fn inputs_of(kvs: Seq<Seq<char>>) -> Result<Map<Seq<char>, Seq<char>>, CliErrorView>
    decreases kvs.len(),
{
    if kvs.len() == 0 {
        Ok(Map::<Seq<char>, Seq<char>>::empty())
    } else {
        match inputs_of(kvs.drop_last()) {
            Err(e) => Err(e),
            Ok(m) => match split_once(kvs.last(), '=') {
                Some((k, v)) => Ok(m.insert(k, v)),
                None => Err(CliErrorView::BadInput(kvs.last())),
            },
        }
    }
}

/// The view of an [`InlineCommand`].
pub struct InlineView {
    pub command: Option<Seq<char>>,
    pub trigger: Option<Seq<char>>,
    pub min_permission: Seq<char>,
    pub trust_pr_author: bool,
    pub allowlist: Option<Seq<char>>,
    pub target_label: Option<Seq<char>>,
    pub target_workflow: Option<Seq<char>>,
    pub target_workflow_ref: Option<Seq<char>>,
    pub inputs: Seq<Seq<char>>,
    pub target_repository_dispatch_event: Option<Seq<char>>,
    pub target_repository_dispatch_repo: Option<Seq<char>>,
}

/// The flags of the inline single-command mode, as given.
pub struct InlineCommand {
    /// The command's name (e.g. `test`).
    pub command: Option<String>,
    /// The trigger; `/<command>` when absent.
    pub trigger: Option<String>,
    /// A permission keyword (`write` unless given).
    pub min_permission: String,
    pub trust_pr_author: bool,
    /// Comma-separated logins trusted regardless of permission.
    pub allowlist: Option<String>,
    pub target_label: Option<String>,
    pub target_workflow: Option<String>,
    pub target_workflow_ref: Option<String>,
    /// Repeatable `KEY=VALUE` `workflow_dispatch` inputs.
    pub inputs: Vec<String>,
    pub target_repository_dispatch_event: Option<String>,
    pub target_repository_dispatch_repo: Option<String>,
}

impl View for InlineCommand {
    type V = InlineView;

    open spec fn view(&self) -> InlineView {
        InlineView {
            command: opt_view(self.command),
            trigger: opt_view(self.trigger),
            min_permission: self.min_permission@,
            trust_pr_author: self.trust_pr_author,
            allowlist: opt_view(self.allowlist),
            target_label: opt_view(self.target_label),
            target_workflow: opt_view(self.target_workflow),
            target_workflow_ref: opt_view(self.target_workflow_ref),
            inputs: strings_view(self.inputs@),
            target_repository_dispatch_event: opt_view(self.target_repository_dispatch_event),
            target_repository_dispatch_repo: opt_view(self.target_repository_dispatch_repo),
        }
    }
}

/// The target the inline flags name: a label, else a workflow with its
/// inputs, else a `repository_dispatch` event.
pub open spec fn inline_target(a: InlineView) -> Result<TargetView, CliErrorView> {
    match a.target_label {
        Some(name) => Ok(TargetView::Label { name }),
        None => match a.target_workflow {
            Some(workflow) => match inputs_of(a.inputs) {
                Ok(inputs) => Ok(TargetView::WorkflowDispatch { workflow, git_ref: a.target_workflow_ref, inputs }),
                Err(e) => Err(e),
            },
            None => match a.target_repository_dispatch_event {
                Some(event_type) => Ok(
                    TargetView::RepositoryDispatch { event_type, repo: a.target_repository_dispatch_repo },
                ),
                None => Err(CliErrorView::NoTarget),
            },
        },
    }
}

/// The command the inline flags describe. The name is checked first, then
/// the permission keyword, then the target.
pub open spec fn inline_command(a: InlineView) -> Result<CommandView, CliErrorView> {
    match a.command {
        None => Err(CliErrorView::MissingCommand),
        Some(name) => match permission_keyword(a.min_permission) {
            None => Err(CliErrorView::UnknownPermission(a.min_permission)),
            Some(min_permission) => match inline_target(a) {
                Err(e) => Err(e),
                Ok(target) => Ok(
                    CommandView {
                        name,
                        trigger: match a.trigger {
                            Some(t) => t,
                            None => "/"@ + name,
                        },
                        min_permission,
                        trust_pr_author: a.trust_pr_author,
                        allowlist: match a.allowlist {
                            Some(s) => allowlist_of(s),
                            None => Seq::<Seq<char>>::empty(),
                        },
                        target,
                    },
                ),
            },
        },
    }
}

/// The workflow inputs of the `KEY=VALUE` strings.
fn parse_inputs(kvs: &Vec<String>) -> (r: Result<InputMap, CliError>)
    ensures
        match inputs_of(strings_view(kvs@)) {
            Ok(m) => r matches Ok(inputs) && inputs@ == m,
            Err(e) => r matches Err(err) && err@ == e,
        },
{
    let ghost all = strings_view(kvs@);
    let mut inputs = InputMap::new();
    let mut i: usize = 0;
    assert(all.take(0) =~= Seq::<Seq<char>>::empty());
    while i < kvs.len()
        invariant
            0 <= i <= kvs@.len(),
            all == strings_view(kvs@),
            inputs_of(all.take(i as int)) == Ok::<Map<Seq<char>, Seq<char>>, CliErrorView>(inputs@),
        decreases kvs.len() - i,
    {
        assert(all.take(i + 1).drop_last() == all.take(i as int));
        assert(all.take(i + 1).last() == kvs@[i as int]@);
        match split_once_char(kvs[i].as_str(), '=') {
            Some((k, v)) => {
                inputs.insert(k, v);
            },
            None => {
                proof {
                    lemma_inputs_error_stays(all, i as int + 1);
                }
                return Err(CliError::BadInput(kvs[i].clone()));
            },
        }
        i = i + 1;
    }
    assert(all.take(i as int) == all);
    Ok(inputs)
}

proof fn lemma_inputs_error_stays(kvs: Seq<Seq<char>>, j: int)
    requires
        0 <= j <= kvs.len(),
        inputs_of(kvs.take(j)) is Err,
    ensures
        inputs_of(kvs) == inputs_of(kvs.take(j)),
    decreases kvs.len() - j,
{
    if j < kvs.len() {
        assert(kvs.take(j + 1).drop_last() == kvs.take(j));
        lemma_inputs_error_stays(kvs, j + 1);
    } else {
        assert(kvs.take(j) == kvs);
    }
}

/// The target the inline flags name.
pub fn resolve_target(a: &InlineCommand) -> (r: Result<DispatchTarget, CliError>)
    ensures
        match inline_target(a@) {
            Ok(t) => r matches Ok(target) && target@ == t,
            Err(e) => r matches Err(err) && err@ == e,
        },
{
    if let Some(name) = &a.target_label {
        return Ok(DispatchTarget::Label { name: name.clone() });
    }
    if let Some(workflow) = &a.target_workflow {
        let inputs = match parse_inputs(&a.inputs) {
            Ok(inputs) => inputs,
            Err(e) => {
                return Err(e);
            },
        };
        return Ok(
            DispatchTarget::WorkflowDispatch {
                workflow: workflow.clone(),
                git_ref: a.target_workflow_ref.clone(),
                inputs,
            },
        );
    }
    if let Some(event_type) = &a.target_repository_dispatch_event {
        return Ok(
            DispatchTarget::RepositoryDispatch {
                event_type: event_type.clone(),
                repo: a.target_repository_dispatch_repo.clone(),
            },
        );
    }
    Err(CliError::NoTarget)
}

/// The single-command catalog the inline flags describe.
pub fn resolve_inline_catalog(a: &InlineCommand) -> (r: Result<CatalogSpec, CliError>)
    ensures
        match inline_command(a@) {
            Ok(c) => r matches Ok(catalog) && catalog@ == seq![c],
            Err(e) => r matches Err(err) && err@ == e,
        },
{
    let name = match &a.command {
        Some(name) => name.clone(),
        None => {
            return Err(CliError::MissingCommand);
        },
    };
    let trigger = match &a.trigger {
        Some(t) => t.clone(),
        None => {
            let mut t = owned("/");
            push_string(&mut t, &name);
            t
        },
    };
    let min_permission = match parse_permission(a.min_permission.as_str()) {
        Ok(p) => p,
        Err(e) => {
            return Err(e);
        },
    };
    let allowlist = match &a.allowlist {
        Some(s) => split_allowlist(s.as_str()),
        None => {
            let v: Vec<String> = Vec::new();
            assert(strings_view(v@) =~= Seq::<Seq<char>>::empty());
            v
        },
    };
    let target = match resolve_target(a) {
        Ok(t) => t,
        Err(e) => {
            return Err(e);
        },
    };
    Ok(
        CatalogSpec::single(
            CommentCommandSpec {
                name,
                trigger,
                min_permission,
                trust_pr_author: a.trust_pr_author,
                allowlist,
                target,
            },
        ),
    )
}

/// The JSON report of a dispatch run: whether it dispatched, the outcome's
/// name, and its fields, under keys in the order a JSON object map writes
/// them.
pub open spec fn outcome_json(o: OutcomeView) -> JsonView {
    match o {
        OutcomeView::NotOnPullRequest => JsonView::Object(
            seq![("dispatched"@, JsonView::Bool(false)), ("outcome"@, JsonView::Str("not-on-pull-request"@))],
        ),
        OutcomeView::NoMatch { reason } => JsonView::Object(
            seq![
                ("dispatched"@, JsonView::Bool(false)),
                ("outcome"@, JsonView::Str("no-match"@)),
                ("reason"@, JsonView::Str(reason)),
            ],
        ),
        OutcomeView::Rejected { command, commenter, reason } => JsonView::Object(
            seq![
                ("command"@, JsonView::Str(command)),
                ("commenter"@, JsonView::Str(commenter)),
                ("dispatched"@, JsonView::Bool(false)),
                ("outcome"@, JsonView::Str("rejected"@)),
                ("reason"@, JsonView::Str(reason)),
            ],
        ),
        OutcomeView::Dispatched { command, args, commenter, context, target_kind, target_detail } => JsonView::Object(
            seq![
                ("args"@, string_array_view(args)),
                ("base_ref"@, JsonView::Str(context.base_ref)),
                ("branch_ref"@, JsonView::Str(context.branch_ref)),
                ("checkout_ref"@, JsonView::Str(context.checkout_ref)),
                ("command"@, JsonView::Str(command)),
                ("commenter"@, JsonView::Str(commenter)),
                ("dispatched"@, JsonView::Bool(true)),
                ("is_develop"@, JsonView::Bool(context.is_develop)),
                ("outcome"@, JsonView::Str("dispatched"@)),
                ("pr_author"@, JsonView::Str(context.pr_author)),
                ("target_detail"@, JsonView::Str(target_detail)),
                ("target_kind"@, JsonView::Str(target_kind)),
            ],
        ),
    }
}

/// A JSON string member.
fn str_member(name: &str, value: &String) -> (r: (String, JsonValue))
    ensures
        r.0@ == name@,
        r.1@ == JsonView::Str(value@),
{
    (owned(name), JsonValue::String(value.clone()))
}

/// A JSON boolean member.
fn bool_member(name: &str, value: bool) -> (r: (String, JsonValue))
    ensures
        r.0@ == name@,
        r.1@ == JsonView::Bool(value),
{
    (owned(name), JsonValue::Bool(value))
}

/// The JSON report of a dispatch run.
pub fn outcome_to_json(outcome: &DispatchOutcome) -> (r: JsonValue)
    ensures
        r@ == outcome_json(outcome@),
{
    let mut entries: Vec<(String, JsonValue)> = Vec::new();
    match outcome {
        DispatchOutcome::NotOnPullRequest => {
            entries.push(bool_member("dispatched", false));
            entries.push(str_member("outcome", &owned("not-on-pull-request")));
        },
        DispatchOutcome::NoMatch { reason } => {
            entries.push(bool_member("dispatched", false));
            entries.push(str_member("outcome", &owned("no-match")));
            entries.push(str_member("reason", reason));
        },
        DispatchOutcome::Rejected { command, commenter, reason } => {
            entries.push(str_member("command", command));
            entries.push(str_member("commenter", commenter));
            entries.push(bool_member("dispatched", false));
            entries.push(str_member("outcome", &owned("rejected")));
            entries.push(str_member("reason", reason));
        },
        DispatchOutcome::Dispatched { command, args, commenter, context, target_kind, target_detail } => {
            entries.push((owned("args"), string_array(args)));
            entries.push(str_member("base_ref", &context.base_ref));
            entries.push(str_member("branch_ref", &context.branch_ref));
            entries.push(str_member("checkout_ref", &context.checkout_ref));
            entries.push(str_member("command", command));
            entries.push(str_member("commenter", commenter));
            entries.push(bool_member("dispatched", true));
            entries.push(bool_member("is_develop", context.is_develop));
            entries.push(str_member("outcome", &owned("dispatched")));
            entries.push(str_member("pr_author", &context.pr_author));
            entries.push(str_member("target_detail", target_detail));
            entries.push(str_member("target_kind", &owned(target_kind)));
        },
    }
    let ghost want = outcome_json(outcome@);
    proof {
        lemma_object_view(entries);
    }
    let r = JsonValue::Object(entries);
    assert(r@ == want) by {
        assert(r@->Object_0 =~= want->Object_0);
    }
    r
}

/// The JSON report of a catalog that parsed: the command names, in order.
pub open spec fn lint_json(cmds: Seq<CommandView>) -> JsonView {
    JsonView::Object(
        seq![
            ("commands"@, string_array_view(cmds.map_values(|c: CommandView| c.name))),
            ("ok"@, JsonView::Bool(true)),
        ],
    )
}

/// The JSON report of a catalog that parsed.
pub fn lint_report(catalog: &CatalogSpec) -> (r: JsonValue)
    ensures
        r@ == lint_json(catalog@),
{
    let mut names: Vec<String> = Vec::new();
    let mut i: usize = 0;
    while i < catalog.commands.len()
        invariant
            0 <= i <= catalog.commands@.len(),
            names@.len() == i,
            forall|k: int| 0 <= k < i ==> #[trigger] names@[k]@ == catalog.commands@[k].name@,
        decreases catalog.commands.len() - i,
    {
        names.push(catalog.commands[i].name.clone());
        i = i + 1;
    }
    let array = string_array(&names);
    assert(strings_view(names@) =~= catalog@.map_values(|c: CommandView| c.name));
    let mut entries: Vec<(String, JsonValue)> = Vec::new();
    entries.push((owned("commands"), array));
    entries.push(bool_member("ok", true));
    let ghost want = lint_json(catalog@);
    proof {
        lemma_object_view(entries);
    }
    let r = JsonValue::Object(entries);
    assert(r@ == want) by {
        assert(r@->Object_0 =~= want->Object_0);
    }
    r
}

/// The JSON report of a failed command.
pub open spec fn error_json(message: Seq<char>) -> JsonView {
    JsonView::Object(seq![("error"@, JsonView::Str(message)), ("ok"@, JsonView::Bool(false))])
}

/// The JSON report of a failed command, with its message.
pub fn error_report(message: &str) -> (r: JsonValue)
    ensures
        r@ == error_json(message@),
{
    let mut entries: Vec<(String, JsonValue)> = Vec::new();
    entries.push(str_member("error", &owned(message)));
    entries.push(bool_member("ok", false));
    let ghost want = error_json(message@);
    proof {
        lemma_object_view(entries);
    }
    let r = JsonValue::Object(entries);
    assert(r@ == want) by {
        assert(r@->Object_0 =~= want->Object_0);
    }
    r
}


/// The inline flags are taken as given: a command built from them has the
/// permission tier the `--min-permission` keyword names (so `admin` gives
/// `Admin`, not a default), the `--command` name, the author-trust flag, and
/// the trigger `--trigger` or else `/` and the name.
pub proof fn law_inline_command_keeps_flags(a: InlineView)
    requires
        inline_command(a) is Ok,
    ensures
        ({
            let c = inline_command(a)->Ok_0;
            &&& permission_keyword(a.min_permission) == Some(c.min_permission)
            &&& a.command == Some(c.name)
            &&& c.trust_pr_author == a.trust_pr_author
            &&& c.trigger == match a.trigger {
                Some(t) => t,
                None => "/"@ + c.name,
            }
        }),
        a.min_permission == "admin"@ ==> inline_command(a)->Ok_0.min_permission == Permission::Admin,
        a.min_permission == "read"@ ==> inline_command(a)->Ok_0.min_permission == Permission::Read,
{
    reveal_strlit("admin");
    reveal_strlit("read");
    reveal_strlit("none");
    reveal_strlit("triage");
    reveal_strlit("write");
    reveal_strlit("maintain");
    if a.min_permission == "admin"@ {
        assert(a.min_permission[0] == 'a');
        assert(a.min_permission != "none"@ && a.min_permission != "read"@ && a.min_permission != "triage"@);
        assert(a.min_permission != "write"@ && a.min_permission != "maintain"@);
    }
    if a.min_permission == "read"@ {
        assert(a.min_permission[0] == 'r');
        assert(a.min_permission != "none"@);
    }
}
} // verus!
