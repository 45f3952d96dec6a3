//! Workers: single-threaded owners of an evaluator-per-policy map.
//!
//! A worker holds one instantiated evaluator per configured policy and
//! serves evaluation requests from its inbox in order. The sandbox itself
//! runs outside this crate; the worker's decisions — which evaluator a
//! request names, what reply the request gets, and how the evaluation time
//! budget turns into a timeout verdict — are verified here. Every settled
//! request gets exactly one reply on its slot: an empty reply when the
//! policy is unknown, the (budget-checked) verdict otherwise.

use vstd::prelude::*;

use crate::policies::{Policy, SettingsMap};
use crate::reply::ReplySlot;
use crate::verdict::{Verdict, VerdictView};

verus! {

/// An evaluation request, as the pool's inbox carries it.
pub struct EvalRequest {
    /// The user-chosen key of the policy to evaluate.
    pub policy_id: String,
    /// The admission request document, carried as bytes.
    pub body: Vec<u8>,
    /// Where the one reply is delivered. An empty reply (`None`) means
    /// the request named a policy this pool does not host.
    pub reply: ReplySlot<Option<Verdict>>,
}

/// One instantiated policy module, bound to its settings, as handed to
/// the sandbox at bootstrap.
pub struct EvaluatorHandle {
    /// The policy key this evaluator serves.
    pub policy_id: String,
    /// Local path of the fetched module bytes.
    pub wasm_module_path: String,
    /// The settings document the module was instantiated with.
    pub settings: SettingsMap,
}

/// A worker: the exclusive owner of its evaluator map. Evaluators never
/// migrate to another worker.
pub struct Worker {
    /// One evaluator per configured policy, in configuration order.
    pub evaluators: Vec<EvaluatorHandle>,
}

/// The reason a verdict reports a timeout.
pub open spec fn timeout_message() -> Seq<char> {
    "policy evaluation timed out"@
}

/// What the time budget makes of a sandbox verdict. Expired budgets turn
/// every verdict into a rejection that names the timeout.
pub open spec fn spec_apply_time_budget(
    verdict: VerdictView,
    limit_seconds: Option<u64>,
    elapsed_seconds: u64,
) -> VerdictView {
    match limit_seconds {
        Some(limit) => if elapsed_seconds >= limit {
            VerdictView::Reject(timeout_message())
        } else {
            verdict
        },
        None => verdict,
    }
}

/// The one reply a settled evaluation request gets: empty when the policy
/// is unknown, the budget-checked verdict otherwise.
pub open spec fn spec_evaluation_reply(
    known_policy: bool,
    sandbox_verdict: Option<VerdictView>,
    limit_seconds: Option<u64>,
    elapsed_seconds: u64,
) -> Option<VerdictView> {
    if known_policy {
        Some(spec_apply_time_budget(sandbox_verdict->Some_0, limit_seconds, elapsed_seconds))
    } else {
        None
    }
}

/// Enforce the per-request evaluation time budget: on expiry the worker
/// answers `reject(timeout)` whatever the sandbox produced.
pub fn apply_time_budget(verdict: Verdict, limit_seconds: Option<u64>, elapsed_seconds: u64) -> (r:
    Verdict)
    ensures
        r@ == spec_apply_time_budget(verdict@, limit_seconds, elapsed_seconds),
{
    match limit_seconds {
        Some(limit) => if elapsed_seconds >= limit {
            Verdict::Reject("policy evaluation timed out".to_owned())
        } else {
            verdict
        },
        None => verdict,
    }
}

/// A time budget of zero seconds leaves no room at all: every evaluation
/// reports a timeout, whatever the sandbox's verdict was.
pub proof fn lemma_zero_budget_always_times_out(verdict: VerdictView, elapsed_seconds: u64)
    ensures
        spec_apply_time_budget(verdict, Some(0u64), elapsed_seconds) == VerdictView::Reject(
            timeout_message(),
        ),
{
}

impl Worker {
    /// The policy keys this worker hosts, in configuration order.
    pub open spec fn ids(&self) -> Seq<Seq<char>> {
        Seq::new(self.evaluators@.len(), |i: int| self.evaluators@[i].policy_id@)
    }

    /// Whether this worker hosts an evaluator for `id`.
    pub open spec fn has_policy(&self, id: Seq<char>) -> bool {
        exists|i: int| 0 <= i < self.ids().len() && self.ids()[i] == id
    }

    /// Build the evaluator map for one worker: one evaluator per policy,
    /// carrying that policy's module path and settings. The sandbox
    /// instantiation itself happens outside; this is the map the worker
    /// will own exclusively.
    pub fn new(policies: &Vec<(String, Policy)>) -> (r: Worker)
        ensures
            r.evaluators@.len() == policies@.len(),
            forall|i: int|
                0 <= i < policies@.len() ==> {
                    &&& r.evaluators@[i].policy_id@ == policies@[i].0@
                    &&& r.evaluators@[i].wasm_module_path@ == policies@[i].1.wasm_module_path@
                    &&& match policies@[i].1.settings {
                        Some(m) => r.evaluators@[i].settings.doc() == m.doc(),
                        None => r.evaluators@[i].settings.doc().len() == 0,
                    }
                },
    {
        let mut evaluators: Vec<EvaluatorHandle> = Vec::new();
        let mut i: usize = 0;
        while i < policies.len()
            invariant
                i <= policies@.len(),
                evaluators@.len() == i,
                forall|j: int|
                    0 <= j < i ==> {
                        &&& evaluators@[j].policy_id@ == policies@[j].0@
                        &&& evaluators@[j].wasm_module_path@ == policies@[j].1.wasm_module_path@
                        &&& match policies@[j].1.settings {
                            Some(m) => evaluators@[j].settings.doc() == m.doc(),
                            None => evaluators@[j].settings.doc().len() == 0,
                        }
                    },
            decreases policies@.len() - i,
        {
            let pair = &policies[i];
            evaluators.push(
                EvaluatorHandle {
                    policy_id: pair.0.clone(),
                    wasm_module_path: pair.1.wasm_module_path.clone(),
                    settings: pair.1.settings(),
                },
            );
            i = i + 1;
        }
        Worker { evaluators }
    }

    /// Look the request's policy up: the index of the first evaluator for
    /// `policy_id`, or `None` when this worker hosts no such policy.
    pub fn find_evaluator(&self, policy_id: &String) -> (r: Option<usize>)
        ensures
            match r {
                Some(i) => 0 <= i < self.ids().len() && self.ids()[i as int] == policy_id@,
                None => !self.has_policy(policy_id@),
            },
    {
        let mut i: usize = 0;
        while i < self.evaluators.len()
            invariant
                i <= self.evaluators@.len(),
                forall|j: int| 0 <= j < i ==> self.ids()[j] != policy_id@,
            decreases self.evaluators@.len() - i,
        {
            let hit = self.evaluators[i].policy_id == *policy_id;
            proof {
                assert(self.ids()[i as int] == self.evaluators@[i as int].policy_id@);
            }
            if hit {
                return Some(i);
            }
            i = i + 1;
        }
        None
    }

    /// Settle one evaluation request: write its single reply. The sandbox
    /// verdict is present exactly when the worker hosts the policy; an
    /// unknown policy gets the empty reply, a hosted one the verdict after
    /// the time budget is enforced.
    pub fn settle_evaluation(
        &self,
        req: &mut EvalRequest,
        sandbox_verdict: Option<Verdict>,
        limit_seconds: Option<u64>,
        elapsed_seconds: u64,
    )
        requires
            !old(req).reply.is_written(),
            sandbox_verdict is Some <==> self.has_policy(old(req).policy_id@),
        ensures
            final(req).policy_id@ == old(req).policy_id@,
            final(req).body@ == old(req).body@,
            match final(req).reply.contents() {
                Some(reply) => spec_opt_verdict_view(reply) == spec_evaluation_reply(
                    self.has_policy(old(req).policy_id@),
                    spec_opt_verdict_view(sandbox_verdict),
                    limit_seconds,
                    elapsed_seconds,
                ),
                None => false,
            },
    {
        match sandbox_verdict {
            Some(verdict) => {
                let checked = apply_time_budget(verdict, limit_seconds, elapsed_seconds);
                req.reply.send(Some(checked));
            },
            None => {
                req.reply.send(None);
            },
        }
    }
}

impl Worker {
    /// Serve a drained inbox strictly in order: request `i` is settled
    /// with sandbox outcome `i`, so every accepted request gets exactly
    /// one reply — the empty reply for an unknown policy, the
    /// budget-checked verdict otherwise.
    pub fn run_inbox(
        &self,
        inbox: Vec<EvalRequest>,
        outcomes: Vec<(Option<Verdict>, u64)>,
        limit_seconds: Option<u64>,
    ) -> (served: Vec<EvalRequest>)
        requires
            inbox@.len() == outcomes@.len(),
            forall|i: int|
                0 <= i < inbox@.len() ==> !inbox@[i].reply.is_written(),
            forall|i: int|
                0 <= i < inbox@.len() ==> (outcomes@[i].0 is Some <==> self.has_policy(
                    inbox@[i].policy_id@,
                )),
        ensures
            served@.len() == inbox@.len(),
            forall|i: int|
                0 <= i < served@.len() ==> {
                    &&& served@[i].policy_id@ == inbox@[i].policy_id@
                    &&& served@[i].body@ == inbox@[i].body@
                    &&& match served@[i].reply.contents() {
                        Some(reply) => spec_opt_verdict_view(reply) == spec_evaluation_reply(
                            self.has_policy(inbox@[i].policy_id@),
                            spec_opt_verdict_view(outcomes@[i].0),
                            limit_seconds,
                            outcomes@[i].1,
                        ),
                        None => false,
                    }
                },
    {
        let ghost inbox0 = inbox@;
        let ghost outcomes0 = outcomes@;
        let mut rest = inbox;
        let mut pending = outcomes;
        let mut served: Vec<EvalRequest> = Vec::new();
        while rest.len() > 0
            invariant
                outcomes0.len() == inbox0.len(),
                served@.len() + rest@.len() == inbox0.len(),
                pending@.len() == rest@.len(),
                rest@ == inbox0.skip(served@.len() as int),
                pending@ == outcomes0.skip(served@.len() as int),
                forall|i: int|
                    0 <= i < inbox0.len() ==> !inbox0[i].reply.is_written(),
                forall|i: int|
                    0 <= i < inbox0.len() ==> (outcomes0[i].0 is Some <==> self.has_policy(
                        inbox0[i].policy_id@,
                    )),
                forall|i: int|
                    0 <= i < served@.len() ==> {
                        &&& served@[i].policy_id@ == inbox0[i].policy_id@
                        &&& served@[i].body@ == inbox0[i].body@
                        &&& match served@[i].reply.contents() {
                            Some(reply) => spec_opt_verdict_view(reply) == spec_evaluation_reply(
                                self.has_policy(inbox0[i].policy_id@),
                                spec_opt_verdict_view(outcomes0[i].0),
                                limit_seconds,
                                outcomes0[i].1,
                            ),
                            None => false,
                        }
                    },
            decreases rest@.len(),
        {
            let ghost done = served@.len() as int;
            proof {
                assert(inbox0.skip(done)[0] == inbox0[done]);
                assert(outcomes0.skip(done)[0] == outcomes0[done]);
                assert(rest@[0] == inbox0[done]);
                assert(pending@[0] == outcomes0[done]);
            }
            let mut req = rest.remove(0);
            let outcome = pending.remove(0);
            self.settle_evaluation(&mut req, outcome.0, limit_seconds, outcome.1);
            served.push(req);
            proof {
                assert(rest@ =~= inbox0.skip(done + 1));
                assert(pending@ =~= outcomes0.skip(done + 1));
            }
        }
        served
    }
}

/// The view of an optional verdict.
pub open spec fn spec_opt_verdict_view(v: Option<Verdict>) -> Option<VerdictView> {
    match v {
        Some(verdict) => Some(verdict@),
        None => None,
    }
}

} // verus!
