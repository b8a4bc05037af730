//! The observation and mutation seam: [`Environment`]. The interpreter never
//! reaches the network itself; it asks an environment for the commenter's
//! permission and the pull request, and asks it to relabel or dispatch. The
//! in-memory [`MockEnvironment`] records every call.

use vstd::prelude::*;

use crate::cli::{split_once, split_once_char};
use crate::json::{json_path_str, json_str, json_get, lemma_object_view, names_view, JsonValue, JsonView};
use crate::spec::{github_permission, InputMap, Permission};
use crate::text::{decimal, owned, push_char, push_decimal, push_str, push_string, str_eq};

verus! {

/// The view of a [`PullRequestInfo`].
pub struct PullRequestView {
    pub author: Seq<char>,
    pub head_sha: Seq<char>,
    pub head_ref: Seq<char>,
    pub base_ref: Seq<char>,
}

/// A resolved pull request: the fields trust resolution (`author`) and the
/// dispatch context (`head_sha`, `head_ref`, `base_ref`) need.
#[derive(Debug, PartialEq, Eq)]
pub struct PullRequestInfo {
    pub author: String,
    pub head_sha: String,
    pub head_ref: String,
    pub base_ref: String,
}

impl View for PullRequestInfo {
    type V = PullRequestView;

    open spec fn view(&self) -> PullRequestView {
        PullRequestView {
            author: self.author@,
            head_sha: self.head_sha@,
            head_ref: self.head_ref@,
            base_ref: self.base_ref@,
        }
    }
}

impl Clone for PullRequestInfo {
    fn clone(&self) -> (r: PullRequestInfo)
        ensures
            r@ == self@,
    {
        PullRequestInfo {
            author: self.author.clone(),
            head_sha: self.head_sha.clone(),
            head_ref: self.head_ref.clone(),
            base_ref: self.base_ref.clone(),
        }
    }
}

/// The view of an optional pull request.
pub open spec fn opt_pr_view(o: Option<PullRequestInfo>) -> Option<PullRequestView> {
    match o {
        Some(p) => Some(p@),
        None => None,
    }
}

/// A failed mutation of the environment.
#[derive(Debug, Clone, PartialEq, Eq)]
pub enum EnvError {
    Request(String),
}

/// The text of an [`EnvError`].
pub open spec fn env_error_text(e: EnvError) -> Seq<char> {
    match e {
        EnvError::Request(m) => "GitHub API request failed: "@ + m@,
    }
}

impl EnvError {
    /// The error's text, as the CLI prints it.
    pub fn to_string(&self) -> (s: String)
        ensures
            s@ == env_error_text(*self),
    {
        match self {
            EnvError::Request(m) => {
                let mut s = owned("GitHub API request failed: ");
                push_string(&mut s, m);
                s
            },
        }
    }
}

/// A mutating call made on an environment, as its arguments' views.
pub enum EnvCall {
    AddLabel { issue_number: u64, label: Seq<char> },
    RemoveLabel { issue_number: u64, label: Seq<char> },
    DispatchWorkflow { workflow: Seq<char>, git_ref: Seq<char>, inputs: Map<Seq<char>, Seq<char>> },
    RepositoryDispatch { event_type: Seq<char>, repo: Option<Seq<char>>, payload: JsonView },
}

/// A mutation the interpreter asks an environment to make.
#[derive(Debug, PartialEq, Eq)]
pub enum Mutation {
    RemoveLabel { issue_number: u64, label: String },
    AddLabel { issue_number: u64, label: String },
    DispatchWorkflow { workflow: String, git_ref: String, inputs: InputMap },
    RepositoryDispatch { event_type: String, repo: Option<String>, payload: JsonValue },
}

impl View for Mutation {
    type V = EnvCall;

    open spec fn view(&self) -> EnvCall {
        match self {
            Mutation::RemoveLabel { issue_number, label } => EnvCall::RemoveLabel {
                issue_number: *issue_number,
                label: label@,
            },
            Mutation::AddLabel { issue_number, label } => EnvCall::AddLabel { issue_number: *issue_number, label: label@ },
            Mutation::DispatchWorkflow { workflow, git_ref, inputs } => EnvCall::DispatchWorkflow {
                workflow: workflow@,
                git_ref: git_ref@,
                inputs: inputs@,
            },
            Mutation::RepositoryDispatch { event_type, repo, payload } => EnvCall::RepositoryDispatch {
                event_type: event_type@,
                repo: crate::spec::opt_view(*repo),
                payload: payload@,
            },
        }
    }
}

/// The view of an optional string slice.
pub open spec fn opt_slice_view(o: Option<&str>) -> Option<Seq<char>> {
    match o {
        Some(s) => Some(s@),
        None => None,
    }
}

/// A read made on an environment.
pub enum EnvRead {
    /// The pull request an issue number resolves to was asked for.
    PullRequest { issue_number: u64 },
    /// A login's permission was asked for.
    Permission { login: Seq<char> },
}

/// The observation and mutation seam. An environment answers reads from its
/// state (`permission_of`, `pull_request_of`), keeps the log `reads` of the
/// reads made on it, and the log `calls` of the mutating calls made on it,
/// each with what it returned, appended as it is made.
pub trait Environment {
    /// The commenter's permission on the repo; `NoAccess` when it cannot be
    /// resolved (never over-trust on ambiguity).
    spec fn permission_of(&self, login: Seq<char>) -> Permission;

    /// The pull request an issue number resolves to, if any.
    spec fn pull_request_of(&self, issue_number: u64) -> Option<PullRequestView>;

    /// The mutating calls made so far, oldest first, each with what it
    /// returned.
    spec fn calls(&self) -> Seq<(EnvCall, Result<(), EnvError>)>;

    /// The reads made so far, oldest first.
    spec fn reads(&self) -> Seq<EnvRead>;

    /// A read leaves what the environment answers and its mutations as they
    /// were.
    fn collaborator_permission(&mut self, login: &str) -> (p: Permission)
        ensures
            p == old(self).permission_of(login@),
            final(self).reads() == old(self).reads().push(EnvRead::Permission { login: login@ }),
            final(self).calls() == old(self).calls(),
            forall|l: Seq<char>| #[trigger] final(self).permission_of(l) == old(self).permission_of(l),
            forall|n: u64| #[trigger] final(self).pull_request_of(n) == old(self).pull_request_of(n),
    ;

    fn get_pull_request(&mut self, issue_number: u64) -> (r: Option<PullRequestInfo>)
        ensures
            opt_pr_view(r) == old(self).pull_request_of(issue_number),
            final(self).reads() == old(self).reads().push(EnvRead::PullRequest { issue_number }),
            final(self).calls() == old(self).calls(),
            forall|l: Seq<char>| #[trigger] final(self).permission_of(l) == old(self).permission_of(l),
            forall|n: u64| #[trigger] final(self).pull_request_of(n) == old(self).pull_request_of(n),
    ;

    fn add_label(&mut self, issue_number: u64, label: &str) -> (r: Result<(), EnvError>)
        ensures
            final(self).calls() == old(self).calls().push(
                (EnvCall::AddLabel { issue_number, label: label@ }, r),
            ),
            final(self).reads() == old(self).reads(),
    ;

    /// Remove `label` if present; removing an absent label is success.
    fn remove_label(&mut self, issue_number: u64, label: &str) -> (r: Result<(), EnvError>)
        ensures
            final(self).calls() == old(self).calls().push(
                (EnvCall::RemoveLabel { issue_number, label: label@ }, r),
            ),
            final(self).reads() == old(self).reads(),
    ;

    fn dispatch_workflow(&mut self, workflow: &str, git_ref: &str, inputs: &InputMap) -> (r: Result<(), EnvError>)
        ensures
            final(self).calls() == old(self).calls().push(
                (EnvCall::DispatchWorkflow { workflow: workflow@, git_ref: git_ref@, inputs: inputs@ }, r),
            ),
            final(self).reads() == old(self).reads(),
    ;

    fn repository_dispatch(&mut self, event_type: &str, repo: Option<&str>, payload: &JsonValue) -> (r: Result<(), EnvError>)
        ensures
            final(self).calls() == old(self).calls().push(
                (
                    EnvCall::RepositoryDispatch { event_type: event_type@, repo: opt_slice_view(repo), payload: payload@ },
                    r,
                ),
            ),
            final(self).reads() == old(self).reads(),
    ;

    /// Remove-then-add `label`: the idempotent relabel that re-fires a
    /// `pull_request: [labeled]`-gated pipeline even when the label is
    /// already present. A failed removal stops before the add; otherwise the
    /// result is the add's.
    fn relabel(&mut self, issue_number: u64, label: &str) -> (r: Result<(), EnvError>)
        ensures
            ({
                let remove = EnvCall::RemoveLabel { issue_number, label: label@ };
                let add = EnvCall::AddLabel { issue_number, label: label@ };
                ||| r is Err && final(self).calls() == old(self).calls().push((remove, r))
                ||| final(self).calls() == old(self).calls().push((remove, Ok(()))).push((add, r))
            }),
            final(self).reads() == old(self).reads(),
    {
        self.remove_label(issue_number, label)?;
        self.add_label(issue_number, label)
    }
}

impl Mutation {
    /// Makes this mutation on `env`.
    pub fn perform<E: Environment>(&self, env: &mut E) -> (r: Result<(), EnvError>)
        ensures
            final(env).calls() == old(env).calls().push((self@, r)),
            final(env).reads() == old(env).reads(),
    {
        match self {
            Mutation::RemoveLabel { issue_number, label } => env.remove_label(*issue_number, label.as_str()),
            Mutation::AddLabel { issue_number, label } => env.add_label(*issue_number, label.as_str()),
            Mutation::DispatchWorkflow { workflow, git_ref, inputs } => env.dispatch_workflow(
                workflow.as_str(),
                git_ref.as_str(),
                inputs,
            ),
            Mutation::RepositoryDispatch { event_type, repo, payload } => {
                let repo_slice: Option<&str> = match repo {
                    Some(r) => Some(r.as_str()),
                    None => None,
                };
                env.repository_dispatch(event_type.as_str(), repo_slice, payload)
            },
        }
    }
}

/// A recorded `dispatch_workflow` call.
pub type WorkflowDispatchCall = (String, String, InputMap);

/// A recorded `repository_dispatch` call.
pub type RepositoryDispatchCall = (String, Option<String>, JsonValue);

/// The last permission recorded for `login`, or `NoAccess`.
pub open spec fn permission_lookup(entries: Seq<(String, Permission)>, login: Seq<char>) -> Permission
    decreases entries.len(),
{
    if entries.len() == 0 {
        Permission::NoAccess
    } else if entries.last().0@ == login {
        entries.last().1
    } else {
        permission_lookup(entries.drop_last(), login)
    }
}

/// The last pull request recorded for `issue_number`.
pub open spec fn pull_request_lookup(entries: Seq<(u64, PullRequestInfo)>, issue_number: u64) -> Option<PullRequestView>
    decreases entries.len(),
{
    if entries.len() == 0 {
        None
    } else if entries.last().0 == issue_number {
        Some(entries.last().1@)
    } else {
        pull_request_lookup(entries.drop_last(), issue_number)
    }
}

/// The views of recorded label calls: issue number and label.
pub open spec fn labels_view(v: Seq<(u64, String)>) -> Seq<(u64, Seq<char>)> {
    v.map_values(|p: (u64, String)| (p.0, p.1@))
}

/// The views of recorded workflow dispatches.
pub open spec fn workflow_calls_view(v: Seq<WorkflowDispatchCall>) -> Seq<(Seq<char>, Seq<char>, Map<Seq<char>, Seq<char>>)> {
    v.map_values(|c: WorkflowDispatchCall| (c.0@, c.1@, c.2@))
}

/// The views of recorded `repository_dispatch` calls.
pub open spec fn repository_calls_view(v: Seq<RepositoryDispatchCall>) -> Seq<(Seq<char>, Option<Seq<char>>, JsonView)> {
    v.map_values(|c: RepositoryDispatchCall| (c.0@, crate::spec::opt_view(c.1), c.2@))
}

/// The labels added by the calls `cs`, in order.
pub open spec fn added_of(cs: Seq<(EnvCall, Result<(), EnvError>)>) -> Seq<(u64, Seq<char>)>
    decreases cs.len(),
{
    if cs.len() == 0 {
        Seq::empty()
    } else {
        let rest = added_of(cs.drop_last());
        match cs.last().0 {
            EnvCall::AddLabel { issue_number, label } => rest.push((issue_number, label)),
            _ => rest,
        }
    }
}

/// The labels removed by the calls `cs`, in order.
pub open spec fn removed_of(cs: Seq<(EnvCall, Result<(), EnvError>)>) -> Seq<(u64, Seq<char>)>
    decreases cs.len(),
{
    if cs.len() == 0 {
        Seq::empty()
    } else {
        let rest = removed_of(cs.drop_last());
        match cs.last().0 {
            EnvCall::RemoveLabel { issue_number, label } => rest.push((issue_number, label)),
            _ => rest,
        }
    }
}

/// The workflow dispatches among the calls `cs`, in order.
pub open spec fn workflows_of(cs: Seq<(EnvCall, Result<(), EnvError>)>) -> Seq<(Seq<char>, Seq<char>, Map<Seq<char>, Seq<char>>)>
    decreases cs.len(),
{
    if cs.len() == 0 {
        Seq::empty()
    } else {
        let rest = workflows_of(cs.drop_last());
        match cs.last().0 {
            EnvCall::DispatchWorkflow { workflow, git_ref, inputs } => rest.push((workflow, git_ref, inputs)),
            _ => rest,
        }
    }
}

/// The `repository_dispatch` calls among the calls `cs`, in order.
pub open spec fn repository_dispatches_of(cs: Seq<(EnvCall, Result<(), EnvError>)>) -> Seq<(Seq<char>, Option<Seq<char>>, JsonView)>
    decreases cs.len(),
{
    if cs.len() == 0 {
        Seq::empty()
    } else {
        let rest = repository_dispatches_of(cs.drop_last());
        match cs.last().0 {
            EnvCall::RepositoryDispatch { event_type, repo, payload } => rest.push((event_type, repo, payload)),
            _ => rest,
        }
    }
}

/// An in-memory [`Environment`] for tests: seeded permissions and pull
/// requests (a later seed for the same key overrides an earlier one), a log
/// of every read, and a record of every mutation, each of which succeeds,
/// with no network access.
pub struct MockEnvironment {
    permissions: Vec<(String, Permission)>,
    pull_requests: Vec<(u64, PullRequestInfo)>,
    log: Vec<Mutation>,
    read_log: Ghost<Seq<EnvRead>>,
}

impl MockEnvironment {
    /// The mock never fails: every call it has recorded succeeded.
    pub proof fn lemma_calls_succeed(&self)
        ensures
            forall|j: int| 0 <= j < self.calls().len() ==> (#[trigger] self.calls()[j]).1 is Ok,
    {
    }

    /// An environment with no permissions, no pull requests, no reads and
    /// no calls.
    pub fn new() -> (e: MockEnvironment)
        ensures
            forall|login: Seq<char>| e.permission_of(login) == Permission::NoAccess,
            forall|n: u64| e.pull_request_of(n) is None,
            e.calls().len() == 0,
            e.reads().len() == 0,
    {
        MockEnvironment {
            permissions: Vec::new(),
            pull_requests: Vec::new(),
            log: Vec::new(),
            read_log: Ghost(Seq::empty()),
        }
    }

    /// Seeds `login`'s permission.
    pub fn with_permission(self, login: &str, permission: Permission) -> (e: MockEnvironment)
        ensures
            e.permission_of(login@) == permission,
            forall|other: Seq<char>| other != login@ ==> e.permission_of(other) == self.permission_of(other),
            forall|n: u64| e.pull_request_of(n) == self.pull_request_of(n),
            e.calls() == self.calls(),
            e.reads() == self.reads(),
    {
        let mut e = self;
        let ghost before = e.permissions@;
        e.permissions.push((owned(login), permission));
        proof {
            assert(e.permissions@.drop_last() == before);
        }
        e
    }

    /// Seeds the pull request `issue_number` resolves to.
    pub fn with_pull_request(self, issue_number: u64, info: PullRequestInfo) -> (e: MockEnvironment)
        ensures
            e.pull_request_of(issue_number) == Some(info@),
            forall|n: u64| n != issue_number ==> e.pull_request_of(n) == self.pull_request_of(n),
            forall|login: Seq<char>| e.permission_of(login) == self.permission_of(login),
            e.calls() == self.calls(),
            e.reads() == self.reads(),
    {
        let mut e = self;
        let ghost before = e.pull_requests@;
        e.pull_requests.push((issue_number, info));
        proof {
            assert(e.pull_requests@.drop_last() == before);
        }
        e
    }

    fn lookup_permission(&self, login: &str) -> (p: Permission)
        ensures
            p == permission_lookup(self.permissions@, login@),
    {
        let mut i = self.permissions.len();
        proof {
            assert(self.permissions@.take(i as int) == self.permissions@);
        }
        while i > 0
            invariant
                0 <= i <= self.permissions@.len(),
                permission_lookup(self.permissions@, login@) == permission_lookup(self.permissions@.take(i as int), login@),
            decreases i,
        {
            proof {
                assert(self.permissions@.take(i as int).drop_last() == self.permissions@.take(i - 1));
            }
            if str_eq(self.permissions[i - 1].0.as_str(), login) {
                return self.permissions[i - 1].1;
            }
            i = i - 1;
        }
        Permission::NoAccess
    }

    fn lookup_pull_request(&self, issue_number: u64) -> (r: Option<PullRequestInfo>)
        ensures
            opt_pr_view(r) == pull_request_lookup(self.pull_requests@, issue_number),
    {
        let mut i = self.pull_requests.len();
        proof {
            assert(self.pull_requests@.take(i as int) == self.pull_requests@);
        }
        while i > 0
            invariant
                0 <= i <= self.pull_requests@.len(),
                pull_request_lookup(self.pull_requests@, issue_number) == pull_request_lookup(
                    self.pull_requests@.take(i as int),
                    issue_number,
                ),
            decreases i,
        {
            proof {
                assert(self.pull_requests@.take(i as int).drop_last() == self.pull_requests@.take(i - 1));
            }
            if self.pull_requests[i - 1].0 == issue_number {
                return Some(self.pull_requests[i - 1].1.clone());
            }
            i = i - 1;
        }
        None
    }

    /// The labels added so far, in order.
    pub fn labels_added(&self) -> (r: Vec<(u64, String)>)
        ensures
            labels_view(r@) == added_of(self.calls()),
    {
        let ghost cs = self.calls();
        let mut out: Vec<(u64, String)> = Vec::new();
        let mut i: usize = 0;
        assert(cs.take(0) == Seq::<(EnvCall, Result<(), EnvError>)>::empty());
        while i < self.log.len()
            invariant
                0 <= i <= self.log@.len(),
                cs == self.calls(),
                labels_view(out@) == added_of(cs.take(i as int)),
            decreases self.log.len() - i,
        {
            assert(cs.take(i + 1).drop_last() == cs.take(i as int));
            assert(cs.take(i + 1).last() == (self.log@[i as int]@, Ok::<(), EnvError>(())));
            let ghost before = out@;
            match &self.log[i] {
                Mutation::AddLabel { issue_number, label } => {
                    out.push((*issue_number, label.clone()));
                    assert(labels_view(out@) == labels_view(before).push((*issue_number, label@)));
                },
                _ => {},
            }
            i = i + 1;
        }
        assert(cs.take(i as int) == cs);
        out
    }

    /// The labels removed so far, in order.
    pub fn labels_removed(&self) -> (r: Vec<(u64, String)>)
        ensures
            labels_view(r@) == removed_of(self.calls()),
    {
        let ghost cs = self.calls();
        let mut out: Vec<(u64, String)> = Vec::new();
        let mut i: usize = 0;
        assert(cs.take(0) == Seq::<(EnvCall, Result<(), EnvError>)>::empty());
        while i < self.log.len()
            invariant
                0 <= i <= self.log@.len(),
                cs == self.calls(),
                labels_view(out@) == removed_of(cs.take(i as int)),
            decreases self.log.len() - i,
        {
            assert(cs.take(i + 1).drop_last() == cs.take(i as int));
            assert(cs.take(i + 1).last() == (self.log@[i as int]@, Ok::<(), EnvError>(())));
            let ghost before = out@;
            match &self.log[i] {
                Mutation::RemoveLabel { issue_number, label } => {
                    out.push((*issue_number, label.clone()));
                    assert(labels_view(out@) == labels_view(before).push((*issue_number, label@)));
                },
                _ => {},
            }
            i = i + 1;
        }
        assert(cs.take(i as int) == cs);
        out
    }

    /// The workflow dispatches so far, in order.
    pub fn workflow_dispatches(&self) -> (r: Vec<WorkflowDispatchCall>)
        ensures
            workflow_calls_view(r@) == workflows_of(self.calls()),
    {
        let ghost cs = self.calls();
        let mut out: Vec<WorkflowDispatchCall> = Vec::new();
        let mut i: usize = 0;
        assert(cs.take(0) == Seq::<(EnvCall, Result<(), EnvError>)>::empty());
        while i < self.log.len()
            invariant
                0 <= i <= self.log@.len(),
                cs == self.calls(),
                workflow_calls_view(out@) == workflows_of(cs.take(i as int)),
            decreases self.log.len() - i,
        {
            assert(cs.take(i + 1).drop_last() == cs.take(i as int));
            assert(cs.take(i + 1).last() == (self.log@[i as int]@, Ok::<(), EnvError>(())));
            let ghost before = out@;
            match &self.log[i] {
                Mutation::DispatchWorkflow { workflow, git_ref, inputs } => {
                    let c = (workflow.clone(), git_ref.clone(), inputs.clone());
                    out.push(c);
                    assert(workflow_calls_view(out@) == workflow_calls_view(before).push(
                        (workflow@, git_ref@, inputs@),
                    ));
                },
                _ => {},
            }
            i = i + 1;
        }
        assert(cs.take(i as int) == cs);
        out
    }

    /// The `repository_dispatch` calls so far, in order.
    pub fn repository_dispatches(&self) -> (r: Vec<RepositoryDispatchCall>)
        ensures
            repository_calls_view(r@) == repository_dispatches_of(self.calls()),
    {
        let ghost cs = self.calls();
        let mut out: Vec<RepositoryDispatchCall> = Vec::new();
        let mut i: usize = 0;
        assert(cs.take(0) == Seq::<(EnvCall, Result<(), EnvError>)>::empty());
        while i < self.log.len()
            invariant
                0 <= i <= self.log@.len(),
                cs == self.calls(),
                repository_calls_view(out@) == repository_dispatches_of(cs.take(i as int)),
            decreases self.log.len() - i,
        {
            assert(cs.take(i + 1).drop_last() == cs.take(i as int));
            assert(cs.take(i + 1).last() == (self.log@[i as int]@, Ok::<(), EnvError>(())));
            let ghost before = out@;
            match &self.log[i] {
                Mutation::RepositoryDispatch { event_type, repo, payload } => {
                    let repo_copy = match repo {
                        Some(r) => Some(r.clone()),
                        None => None,
                    };
                    let c = (event_type.clone(), repo_copy, payload.duplicate());
                    out.push(c);
                    assert(repository_calls_view(out@) == repository_calls_view(before).push(
                        (event_type@, crate::spec::opt_view(*repo), payload@),
                    ));
                },
                _ => {},
            }
            i = i + 1;
        }
        assert(cs.take(i as int) == cs);
        out
    }
}

impl Default for MockEnvironment {
    fn default() -> (e: MockEnvironment)
        ensures
            forall|login: Seq<char>| e.permission_of(login) == Permission::NoAccess,
            forall|n: u64| e.pull_request_of(n) is None,
            e.calls().len() == 0,
            e.reads().len() == 0,
    {
        MockEnvironment::new()
    }
}

impl Environment for MockEnvironment {
    closed spec fn permission_of(&self, login: Seq<char>) -> Permission {
        permission_lookup(self.permissions@, login)
    }

    closed spec fn pull_request_of(&self, issue_number: u64) -> Option<PullRequestView> {
        pull_request_lookup(self.pull_requests@, issue_number)
    }

    closed spec fn calls(&self) -> Seq<(EnvCall, Result<(), EnvError>)> {
        self.log@.map_values(|m: Mutation| (m@, Ok::<(), EnvError>(())))
    }

    closed spec fn reads(&self) -> Seq<EnvRead> {
        self.read_log@
    }

    fn collaborator_permission(&mut self, login: &str) -> (p: Permission) {
        let p = self.lookup_permission(login);
        proof {
            self.read_log@ = self.read_log@.push(EnvRead::Permission { login: login@ });
        }
        p
    }

    fn get_pull_request(&mut self, issue_number: u64) -> (r: Option<PullRequestInfo>) {
        let r = self.lookup_pull_request(issue_number);
        proof {
            self.read_log@ = self.read_log@.push(EnvRead::PullRequest { issue_number });
        }
        r
    }

    fn add_label(&mut self, issue_number: u64, label: &str) -> (r: Result<(), EnvError>)
        ensures
            r is Ok,
    {
        self.log.push(Mutation::AddLabel { issue_number, label: owned(label) });
        Ok(())
    }

    fn remove_label(&mut self, issue_number: u64, label: &str) -> (r: Result<(), EnvError>)
        ensures
            r is Ok,
    {
        self.log.push(Mutation::RemoveLabel { issue_number, label: owned(label) });
        Ok(())
    }

    fn dispatch_workflow(&mut self, workflow: &str, git_ref: &str, inputs: &InputMap) -> (r: Result<(), EnvError>)
        ensures
            r is Ok,
    {
        self.log.push(
            Mutation::DispatchWorkflow { workflow: owned(workflow), git_ref: owned(git_ref), inputs: inputs.clone() },
        );
        Ok(())
    }

    fn repository_dispatch(&mut self, event_type: &str, repo: Option<&str>, payload: &JsonValue) -> (r: Result<(), EnvError>)
        ensures
            r is Ok,
    {
        let repo_owned = match repo {
            Some(r) => Some(owned(r)),
            None => None,
        };
        self.log.push(
            Mutation::RepositoryDispatch { event_type: owned(event_type), repo: repo_owned, payload: payload.duplicate() },
        );
        Ok(())
    }
}

/// Whether a byte stays unencoded in a URL path segment: ASCII `A-Z`,
/// `a-z`, `0-9`, `-`, `_`, `.`, `~`.
pub open spec fn is_unreserved(b: u8) -> bool {
    (65 <= b <= 90) || (97 <= b <= 122) || (48 <= b <= 57) || b == 45 || b == 95 || b == 46 || b == 126
}

/// The upper-case hexadecimal digit for `d` in `0..16`.
pub open spec fn hex_digit(d: u8) -> char {
    if d < 10 {
        (48 + d) as char
    } else {
        (55 + d) as char
    }
}

/// The percent-encoding of `bytes[i..]`: unreserved bytes as themselves,
/// every other byte as `%XX` in upper-case hex.
pub open spec fn percent_encode(bytes: Seq<u8>, i: int) -> Seq<char>
    decreases bytes.len() - i,
{
    if i < 0 || i >= bytes.len() {
        Seq::<char>::empty()
    } else {
        let b = bytes[i];
        (if is_unreserved(b) {
            seq![b as char]
        } else {
            seq!['%', hex_digit(b / 16), hex_digit(b % 16)]
        }) + percent_encode(bytes, i + 1)
    }
}

/// The value of an upper-case hexadecimal digit.
pub open spec fn hex_value(c: char) -> int {
    if (c as int) < 58 {
        c as int - 48
    } else {
        c as int - 55
    }
}

/// Reads a percent-encoding back from position `i` of `s`: `%XX` as the
/// byte `XX`, any other character (a `%` too near the end among them) as
/// its own code.
pub open spec fn percent_decode(s: Seq<char>, i: int) -> Seq<u8>
    decreases s.len() - i,
{
    if i < 0 || i >= s.len() {
        Seq::<u8>::empty()
    } else if s[i] == '%' && i + 2 < s.len() {
        seq![(16 * hex_value(s[i + 1]) + hex_value(s[i + 2])) as u8] + percent_decode(s, i + 3)
    } else {
        seq![s[i] as u8] + percent_decode(s, i + 1)
    }
}

proof fn lemma_decode_shift(a: Seq<char>, r: Seq<char>, j: int)
    requires
        0 <= j,
    ensures
        percent_decode(a + r, a.len() + j) == percent_decode(r, j),
    decreases r.len() - j,
{
    let s = a + r;
    if j < r.len() {
        assert(s[a.len() + j] == r[j]);
        if r[j] == '%' && j + 2 < r.len() {
            assert(s[a.len() + j + 1] == r[j + 1]);
            assert(s[a.len() + j + 2] == r[j + 2]);
            lemma_decode_shift(a, r, j + 3);
        } else {
            lemma_decode_shift(a, r, j + 1);
        }
    }
}

proof fn lemma_decode_encoded(bytes: Seq<u8>, i: int)
    requires
        0 <= i <= bytes.len(),
    ensures
        percent_decode(percent_encode(bytes, i), 0) == bytes.skip(i),
    decreases bytes.len() - i,
{
    if i < bytes.len() {
        lemma_decode_encoded(bytes, i + 1);
        let b = bytes[i];
        let rest = percent_encode(bytes, i + 1);
        let s = percent_encode(bytes, i);
        if is_unreserved(b) {
            let unit = seq![b as char];
            assert(s == unit + rest);
            assert((b as char) as int == b as int);
            assert(s[0] != '%');
            lemma_decode_shift(unit, rest, 0);
            assert(percent_decode(s, 1) == percent_decode(rest, 0));
        } else {
            let hi = b / 16;
            let lo = b % 16;
            let unit = seq!['%', hex_digit(hi), hex_digit(lo)];
            assert(s == unit + rest);
            assert(hex_value(hex_digit(hi)) == hi as int);
            assert(hex_value(hex_digit(lo)) == lo as int);
            assert(s[1] == hex_digit(hi) && s[2] == hex_digit(lo));
            lemma_decode_shift(unit, rest, 0);
            assert(percent_decode(s, 3) == percent_decode(rest, 0));
        }
        assert(bytes.skip(i) == seq![b] + bytes.skip(i + 1));
    } else {
        assert(bytes.skip(i) == Seq::<u8>::empty());
    }
}

/// The percent-encoding loses nothing: decoding it gives back every byte,
/// so two different label names never share a URL path segment.
pub proof fn law_percent_encoding_round_trips(bytes: Seq<u8>)
    ensures
        percent_decode(percent_encode(bytes, 0), 0) == bytes,
{
    lemma_decode_encoded(bytes, 0);
    assert(bytes.skip(0) == bytes);
}

fn exec_hex_digit(d: u8) -> (c: char)
    requires
        d < 16,
    ensures
        c == hex_digit(d),
{
    if d < 10 {
        (48 + d) as char
    } else {
        (55 + d) as char
    }
}

/// Percent-encode the UTF-8 bytes of a label name for use as a URL path
/// segment: `A-Z a-z 0-9 - _ . ~` stay, every other byte becomes `%XX`.
pub fn urlencoding_light(s: &str) -> (r: String)
    ensures
        r@ == percent_encode(vstd::utf8::encode_utf8(s@), 0),
{
    let bytes = s.as_bytes();
    let ghost bv = bytes@;
    let mut out = String::new();
    let mut i: usize = 0;
    while i < bytes.len()
        invariant
            0 <= i <= bytes@.len(),
            bv == bytes@,
            out@ + percent_encode(bv, i as int) == percent_encode(bv, 0),
        decreases bytes.len() - i,
    {
        let b = bytes[i];
        let ghost before = out@;
        // A-Z, a-z, 0-9, '-', '_', '.', '~'
        if (65 <= b && b <= 90) || (97 <= b && b <= 122) || (48 <= b && b <= 57) || b == 45 || b == 95 || b == 46
            || b == 126 {
            push_char(&mut out, b as char);
        } else {
            push_char(&mut out, '%');
            push_char(&mut out, exec_hex_digit(b / 16));
            push_char(&mut out, exec_hex_digit(b % 16));
        }
        proof {
            assert(percent_encode(bv, i as int) == (out@.subrange(before.len() as int, out@.len() as int))
                + percent_encode(bv, i + 1));
            assert(out@ == before + out@.subrange(before.len() as int, out@.len() as int));
        }
        i = i + 1;
    }
    proof {
        assert(out@ + Seq::<char>::empty() == out@);
    }
    out
}

// ---------------------------------------------------------------------------
// The GitHub REST API: the URLs, request bodies and response fields the
// binary's real environment uses.

/// `{api_base}/repos/{owner}/{repo}{suffix}`.
pub open spec fn repos_url_of(api_base: Seq<char>, owner: Seq<char>, repo: Seq<char>, suffix: Seq<char>) -> Seq<char> {
    api_base + "/repos/"@ + owner + "/"@ + repo + suffix
}

/// The URL of a repository endpoint.
pub fn repos_url(api_base: &str, owner: &str, repo: &str, suffix: &str) -> (r: String)
    ensures
        r@ == repos_url_of(api_base@, owner@, repo@, suffix@),
{
    let mut r = owned(api_base);
    push_str(&mut r, "/repos/");
    push_str(&mut r, owner);
    push_str(&mut r, "/");
    push_str(&mut r, repo);
    push_str(&mut r, suffix);
    r
}

/// The endpoint of a login's permission: `/collaborators/{login}/permission`.
pub fn permission_path(login: &str) -> (r: String)
    ensures
        r@ == "/collaborators/"@ + login@ + "/permission"@,
{
    let mut r = owned("/collaborators/");
    push_str(&mut r, login);
    push_str(&mut r, "/permission");
    r
}

/// The endpoint of a pull request: `/pulls/{issue_number}`.
pub fn pull_path(issue_number: u64) -> (r: String)
    ensures
        r@ == "/pulls/"@ + decimal(issue_number as nat),
{
    let mut r = owned("/pulls/");
    push_decimal(&mut r, issue_number as u128);
    r
}

/// The endpoint of an issue's labels: `/issues/{issue_number}/labels`.
pub fn labels_path(issue_number: u64) -> (r: String)
    ensures
        r@ == "/issues/"@ + decimal(issue_number as nat) + "/labels"@,
{
    let mut r = owned("/issues/");
    push_decimal(&mut r, issue_number as u128);
    push_str(&mut r, "/labels");
    r
}

/// The endpoint of one label of an issue, the label percent-encoded:
/// `/issues/{issue_number}/labels/{label}`.
pub fn label_path(issue_number: u64, label: &str) -> (r: String)
    ensures
        r@ == "/issues/"@ + decimal(issue_number as nat) + "/labels/"@ + percent_encode(
            vstd::utf8::encode_utf8(label@),
            0,
        ),
{
    let mut r = owned("/issues/");
    push_decimal(&mut r, issue_number as u128);
    push_str(&mut r, "/labels/");
    let encoded = urlencoding_light(label);
    push_string(&mut r, &encoded);
    r
}

/// The endpoint that dispatches a workflow:
/// `/actions/workflows/{workflow}/dispatches`.
pub fn workflow_path(workflow: &str) -> (r: String)
    ensures
        r@ == "/actions/workflows/"@ + workflow@ + "/dispatches"@,
{
    let mut r = owned("/actions/workflows/");
    push_str(&mut r, workflow);
    push_str(&mut r, "/dispatches");
    r
}

/// The repository a `repository_dispatch` goes to: `repo` split at its
/// first `/` into owner and name, or the default repository when `repo` is
/// absent or has no `/`.
pub open spec fn dispatch_repo_of(owner: Seq<char>, repo: Seq<char>, target: Option<Seq<char>>) -> (Seq<char>, Seq<char>) {
    match target {
        Some(t) => match split_once(t, '/') {
            Some(parts) => parts,
            None => (owner, repo),
        },
        None => (owner, repo),
    }
}

/// The owner and name of the repository a `repository_dispatch` goes to.
pub fn dispatch_repo(owner: &str, repo: &str, target: Option<&str>) -> (r: (String, String))
    ensures
        (r.0@, r.1@) == dispatch_repo_of(owner@, repo@, opt_slice_view(target)),
{
    match target {
        Some(t) => match split_once_char(t, '/') {
            Some(parts) => parts,
            None => (owned(owner), owned(repo)),
        },
        None => (owned(owner), owned(repo)),
    }
}

/// The JSON object of workflow inputs, name to value.
pub open spec fn inputs_json(pairs: Seq<(Seq<char>, Seq<char>)>) -> JsonView {
    JsonView::Object(pairs.map_values(|p: (Seq<char>, Seq<char>)| (p.0, JsonView::Str(p.1))))
}

/// The body of the request that adds a label: `{"labels": [label]}`.
pub open spec fn add_label_body_of(label: Seq<char>) -> JsonView {
    JsonView::Object(seq![("labels"@, JsonView::Array(seq![JsonView::Str(label)]))])
}

/// The body of the request that adds a label.
pub fn add_label_body(label: &str) -> (r: JsonValue)
    ensures
        r@ == add_label_body_of(label@),
{
    let mut items: Vec<JsonValue> = Vec::new();
    items.push(JsonValue::String(owned(label)));
    proof {
        crate::json::lemma_array_view(items);
    }
    let array = JsonValue::Array(items);
    assert(array@ == JsonView::Array(seq![JsonView::Str(label@)])) by {
        assert(array@->Array_0 =~= seq![JsonView::Str(label@)]);
    }
    let mut entries: Vec<(String, JsonValue)> = Vec::new();
    entries.push((owned("labels"), array));
    proof {
        lemma_object_view(entries);
    }
    let r = JsonValue::Object(entries);
    assert(r@ == add_label_body_of(label@)) by {
        assert(r@->Object_0 =~= add_label_body_of(label@)->Object_0);
    }
    r
}

/// The body of the request that dispatches a workflow:
/// `{"inputs": {...}, "ref": git_ref}`.
pub open spec fn workflow_body_of(git_ref: Seq<char>, inputs: Seq<(Seq<char>, Seq<char>)>) -> JsonView {
    JsonView::Object(seq![("inputs"@, inputs_json(inputs)), ("ref"@, JsonView::Str(git_ref))])
}

/// The body of the request that dispatches a workflow.
pub fn workflow_body(git_ref: &str, inputs: &InputMap) -> (r: JsonValue)
    ensures
        r@ == workflow_body_of(git_ref@, inputs.pair_views()),
{
    let pairs = inputs.pairs();
    let ghost pv = inputs.pair_views();
    let mut members: Vec<(String, JsonValue)> = Vec::new();
    let mut i: usize = 0;
    while i < pairs.len()
        invariant
            0 <= i <= pairs@.len(),
            pairs@.map_values(|p: (String, String)| (p.0@, p.1@)) == pv,
            members@.len() == i,
            forall|k: int| 0 <= k < i ==> #[trigger] members@[k].0@ == pv[k].0 && members@[k].1@ == JsonView::Str(
                pv[k].1,
            ),
        decreases pairs.len() - i,
    {
        assert(pv[i as int] == (pairs@[i as int].0@, pairs@[i as int].1@));
        members.push((pairs[i].0.clone(), JsonValue::String(pairs[i].1.clone())));
        i = i + 1;
    }
    proof {
        lemma_object_view(members);
    }
    let object = JsonValue::Object(members);
    assert(object@ == inputs_json(pv)) by {
        assert(object@->Object_0 =~= inputs_json(pv)->Object_0);
    }
    let mut entries: Vec<(String, JsonValue)> = Vec::new();
    entries.push((owned("inputs"), object));
    entries.push((owned("ref"), JsonValue::String(owned(git_ref))));
    proof {
        lemma_object_view(entries);
    }
    let r = JsonValue::Object(entries);
    assert(r@ == workflow_body_of(git_ref@, pv)) by {
        assert(r@->Object_0 =~= workflow_body_of(git_ref@, pv)->Object_0);
    }
    r
}

/// The body of a `repository_dispatch` request:
/// `{"client_payload": payload, "event_type": event_type}`.
pub open spec fn repository_dispatch_body_of(event_type: Seq<char>, payload: JsonView) -> JsonView {
    JsonView::Object(seq![("client_payload"@, payload), ("event_type"@, JsonView::Str(event_type))])
}

/// The body of a `repository_dispatch` request.
pub fn repository_dispatch_body(event_type: &str, payload: &JsonValue) -> (r: JsonValue)
    ensures
        r@ == repository_dispatch_body_of(event_type@, payload@),
{
    let mut entries: Vec<(String, JsonValue)> = Vec::new();
    entries.push((owned("client_payload"), payload.duplicate()));
    entries.push((owned("event_type"), JsonValue::String(owned(event_type))));
    proof {
        lemma_object_view(entries);
    }
    let r = JsonValue::Object(entries);
    assert(r@ == repository_dispatch_body_of(event_type@, payload@)) by {
        assert(r@->Object_0 =~= repository_dispatch_body_of(event_type@, payload@)->Object_0);
    }
    r
}

/// The permission a collaborator-permission response grants: its
/// `permission` member read as a GitHub permission string, and the lowest
/// tier when the member is missing or not a string.
pub open spec fn response_permission(body: JsonView) -> Permission {
    match json_get(body, "permission"@) {
        Some(v) => match json_str(v) {
            Some(s) => github_permission(s),
            None => Permission::NoAccess,
        },
        None => Permission::NoAccess,
    }
}

/// Reads the permission out of a collaborator-permission response.
pub fn permission_from_response(body: &JsonValue) -> (p: Permission)
    ensures
        p == response_permission(body@),
{
    match body.get("permission") {
        Some(v) => match v.as_str() {
            Some(s) => Permission::from_github_str(s.as_str()),
            None => Permission::NoAccess,
        },
        None => Permission::NoAccess,
    }
}

/// The pull request a pull-request response describes: `user.login`,
/// `head.sha`, `head.ref` and `base.ref`, or `None` when any of them is
/// missing or not a string.
pub open spec fn response_pull_request(body: JsonView) -> Option<PullRequestView> {
    let author = json_path_str(body, seq!["user"@, "login"@]);
    let head_sha = json_path_str(body, seq!["head"@, "sha"@]);
    let head_ref = json_path_str(body, seq!["head"@, "ref"@]);
    let base_ref = json_path_str(body, seq!["base"@, "ref"@]);
    if author is Some && head_sha is Some && head_ref is Some && base_ref is Some {
        Some(
            PullRequestView {
                author: author.unwrap(),
                head_sha: head_sha.unwrap(),
                head_ref: head_ref.unwrap(),
                base_ref: base_ref.unwrap(),
            },
        )
    } else {
        None
    }
}

/// Reads the pull request out of a pull-request response.
pub fn pull_request_from_response(body: &JsonValue) -> (r: Option<PullRequestInfo>)
    ensures
        opt_pr_view(r) == response_pull_request(body@),
{
    let author_path: [&str; 2] = ["user", "login"];
    let head_sha_path: [&str; 2] = ["head", "sha"];
    let head_ref_path: [&str; 2] = ["head", "ref"];
    let base_ref_path: [&str; 2] = ["base", "ref"];
    proof {
        assert(names_view(author_path@) =~= seq!["user"@, "login"@]);
        assert(names_view(head_sha_path@) =~= seq!["head"@, "sha"@]);
        assert(names_view(head_ref_path@) =~= seq!["head"@, "ref"@]);
        assert(names_view(base_ref_path@) =~= seq!["base"@, "ref"@]);
    }
    let author = body.path_str(&author_path);
    let head_sha = body.path_str(&head_sha_path);
    let head_ref = body.path_str(&head_ref_path);
    let base_ref = body.path_str(&base_ref_path);
    match (author, head_sha, head_ref, base_ref) {
        (Some(a), Some(s), Some(h), Some(b)) => Some(
            PullRequestInfo { author: a.clone(), head_sha: s.clone(), head_ref: h.clone(), base_ref: b.clone() },
        ),
        _ => None,
    }
}

} // verus!
