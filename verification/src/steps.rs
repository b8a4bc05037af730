//! The interpreter as a sequence of steps, for a driver that makes the
//! environment's calls itself: each step takes what the last call answered
//! and says what to ask or do next, in the order `apply` follows.

use vstd::prelude::*;

use crate::environment::{opt_pr_view, EnvError, Mutation, PullRequestInfo, PullRequestView};
use crate::event::InboundEvent;
use crate::interp::{
    finish, judge, knock_of, mutations, spec_judge, spec_knock, target_plan, trusted_before_permission,
    trusted_without_permission, mutations_view, DispatchOutcome, Knock, KnockView, OutcomeView, ResolvedContext,
    SpecError,
};
use crate::spec::{CatalogSpec, Permission};

verus! {

/// What a run asks of its driver next, with what it needs to go on.
pub enum Next<'a> {
    /// Read the pull request `knock` was left on, then call
    /// [`on_pull_request`].
    ReadPullRequest { knock: Knock<'a> },
    /// Read the commenter's permission, then call [`on_permission`].
    ReadPermission { knock: Knock<'a>, pr: PullRequestInfo },
    /// Make `mutation`, then call [`on_performed`] with the rest of the plan.
    Perform { knock: Knock<'a>, ctx: ResolvedContext, mutation: Mutation, remaining: Vec<Mutation> },
    /// The run is over.
    Done(Result<DispatchOutcome, SpecError>),
}

/// Where the trust phase leads for knock `k` once the pull request and the
/// permission are known: a settled outcome, or the first call of the plan.
pub open spec fn judged(k: KnockView, pr: Option<PullRequestView>, held: Permission, r: Next) -> bool {
    match spec_judge(k, pr, held) {
        Err(o) => r matches Next::Done(Ok(out)) && out@ == o,
        Ok(ctx) => {
            let plan = target_plan(k.command.target, k.issue_number, ctx, k.args);
            r matches Next::Perform { knock, ctx: c, mutation, remaining } && knock@ == k && c@ == ctx
                && mutation@ == plan.calls[0] && mutations_view(remaining@) == plan.calls.drop_first()
        },
    }
}

fn judge_step<'a>(knock: Knock<'a>, pr: Option<PullRequestInfo>, held: Permission) -> (r: Next<'a>)
    ensures
        judged(knock@, opt_pr_view(pr), held, r),
{
    let ghost k = knock@;
    match judge(&knock, pr, held) {
        Err(o) => Next::Done(Ok(o)),
        Ok(ctx) => {
            let mut remaining = mutations(&knock, &ctx);
            let ghost plan = target_plan(k.command.target, k.issue_number, ctx@, k.args);
            assert(plan.calls.len() > 0);
            let ghost before = remaining@;
            let mutation = remaining.remove(0);
            assert(mutations_view(remaining@) =~= mutations_view(before).drop_first());
            Next::Perform { knock, ctx, mutation, remaining }
        },
    }
}

/// The first step: the knock `event` carries against `catalog`, and then a
/// read of its pull request; or the outcome of an event that invokes no
/// command.
pub fn begin<'a>(catalog: &'a CatalogSpec, event: &InboundEvent) -> (r: Next<'a>)
    ensures
        match spec_knock(catalog@, event@) {
            Ok(k) => r matches Next::ReadPullRequest { knock } && knock@ == k,
            Err(o) => r matches Next::Done(Ok(out)) && out@ == o,
        },
{
    match knock_of(catalog, event) {
        Ok(knock) => Next::ReadPullRequest { knock },
        Err(o) => Next::Done(Ok(o)),
    }
}

/// With the pull request read: the commenter's permission is asked for only
/// when the pull request resolved and neither author trust nor the
/// allowlist lets the commenter in; otherwise trust is judged at once.
pub fn on_pull_request<'a>(knock: Knock<'a>, pr: Option<PullRequestInfo>) -> (r: Next<'a>)
    ensures
        match opt_pr_view(pr) {
            Some(p) => if trusted_without_permission(knock@.command, knock@.commenter, p.author) {
                judged(knock@, Some(p), Permission::NoAccess, r)
            } else {
                r matches Next::ReadPermission { knock: k, pr: q } && k@ == knock@ && q@ == p
            },
            None => judged(knock@, None, Permission::NoAccess, r),
        },
{
    match pr {
        Some(p) => {
            if trusted_before_permission(&knock, p.author.as_str()) {
                judge_step(knock, Some(p), Permission::NoAccess)
            } else {
                Next::ReadPermission { knock, pr: p }
            }
        },
        None => judge_step(knock, None, Permission::NoAccess),
    }
}

/// With the permission read: trust is judged.
pub fn on_permission<'a>(knock: Knock<'a>, pr: PullRequestInfo, held: Permission) -> (r: Next<'a>)
    ensures
        judged(knock@, Some(pr@), held, r),
{
    judge_step(knock, Some(pr), held)
}

/// With a mutation made: a failure ends the run with an error naming the
/// target's phase; a success goes on to the next call of the plan, or ends
/// the run dispatched when none is left.
pub fn on_performed<'a>(
    knock: Knock<'a>,
    ctx: ResolvedContext,
    remaining: Vec<Mutation>,
    result: Result<(), EnvError>,
) -> (r: Next<'a>)
    ensures
        ({
            let plan = target_plan(knock@.command.target, knock.issue_number, ctx@, knock@.args);
            match result {
                Err(e) => r matches Next::Done(Err(SpecError::Interp { phase, source })) && source == e && phase@
                    == plan.phase,
                Ok(_) => if remaining@.len() == 0 {
                    r matches Next::Done(Ok(out)) && out@ == OutcomeView::Dispatched {
                        command: knock@.command.name,
                        args: knock@.args,
                        commenter: knock@.commenter,
                        context: ctx@,
                        target_kind: plan.kind,
                        target_detail: plan.detail,
                    }
                } else {
                    r matches Next::Perform { knock: k, ctx: c, mutation, remaining: rest } && k@ == knock@ && c@
                        == ctx@ && mutation@ == remaining@[0]@ && mutations_view(rest@) == mutations_view(
                        remaining@,
                    ).drop_first()
                },
            }
        }),
{
    match result {
        Err(e) => Next::Done(finish(&knock, ctx, Some(e))),
        Ok(()) => {
            if remaining.len() == 0 {
                Next::Done(finish(&knock, ctx, None))
            } else {
                let mut rest = remaining;
                let ghost before = rest@;
                let mutation = rest.remove(0);
                assert(mutations_view(rest@) =~= mutations_view(before).drop_first());
                Next::Perform { knock, ctx, mutation, remaining: rest }
            }
        },
    }
}

} // verus!
