//! The worker pool: bootstrap and round-robin dispatch.
//!
//! At bootstrap the pool builds `pool_size` workers, each carrying a copy
//! of the whole policy set, and reports one aggregated outcome on the boot
//! request's reply slot. At run time it fans evaluation requests out to the
//! workers by round-robin: request `i` goes to worker `i % pool_size`.
//! Every accepted request lands in exactly one worker's inbox, and the
//! inboxes' sizes differ by at most one.

use vstd::prelude::*;

use crate::errors::BootstrapError;
use crate::policies::Policy;
use crate::reply::ReplySlot;
use crate::worker::EvalRequest;
use vstd::arithmetic::div_mod::{
    lemma_fundamental_div_mod, lemma_fundamental_div_mod_converse,
    lemma_mod_division_less_than_divisor,
};
use vstd::multiset::Multiset;
use vstd::pervasive::VecAdditionalExecFns;

verus! {

/// The bootstrap parameters of a worker pool, with the slot its single
/// aggregated outcome is reported on.
pub struct WorkerPoolBootRequest {
    /// Policies to load into each worker.
    pub policies: Vec<(String, Policy)>,
    /// Number of workers to spawn.
    pub pool_size: usize,
    /// Where the one bootstrap outcome is delivered.
    pub reply: ReplySlot<Result<(), BootstrapError>>,
}

/// Check the configured pool size: a pool of zero workers could never
/// serve a request, so bootstrap fails with an invalid-configuration
/// error before anything is spawned.
pub fn validate_pool_size(pool_size: usize) -> (r: Result<(), BootstrapError>)
    ensures
        r is Ok <==> pool_size >= 1,
        match r {
            Ok(_) => true,
            Err(e) => e matches BootstrapError::ConfigInvalid(m) && m@
                == "pool_size must be at least 1"@,
        },
{
    if pool_size == 0 {
        Err(BootstrapError::ConfigInvalid("pool_size must be at least 1".to_owned()))
    } else {
        Ok(())
    }
}

/// The index of the first failed worker bootstrap, if any.
pub fn first_failure(results: &Vec<Result<(), BootstrapError>>) -> (r: Option<usize>)
    ensures
        match r {
            Some(i) => 0 <= i < results@.len() && results@[i as int] is Err && (forall|j: int|
                0 <= j < i ==> results@[j] is Ok),
            None => forall|j: int| 0 <= j < results@.len() ==> results@[j] is Ok,
        },
{
    let mut i: usize = 0;
    while i < results.len()
        invariant
            i <= results@.len(),
            forall|j: int| 0 <= j < i ==> results@[j] is Ok,
        decreases results@.len() - i,
    {
        if results[i].is_err() {
            return Some(i);
        }
        i = i + 1;
    }
    None
}

/// Settle the boot request: write its single aggregated outcome. An
/// invalid pool size is fatal; a failed worker bootstrap is fatal unless
/// `continue_on_errors` is set, in which case the pool runs with whatever
/// came up.
pub fn settle_bootstrap(
    boot: &mut WorkerPoolBootRequest,
    mut worker_results: Vec<Result<(), BootstrapError>>,
    continue_on_errors: bool,
)
    requires
        !old(boot).reply.is_written(),
    ensures
        match final(boot).reply.contents() {
            Some(outcome) => {
                if old(boot).pool_size == 0 {
                    outcome matches Err(e) && e matches BootstrapError::ConfigInvalid(m) && m@
                        == "pool_size must be at least 1"@
                } else if continue_on_errors || (forall|j: int|
                    0 <= j < worker_results@.len() ==> worker_results@[j] is Ok) {
                    outcome is Ok
                } else {
                    outcome matches Err(e) && (exists|i: int|
                        {
                            &&& 0 <= i < worker_results@.len()
                            &&& worker_results@[i] == Err::<(), BootstrapError>(e)
                            &&& forall|j: int| 0 <= j < i ==> worker_results@[j] is Ok
                        })
                }
            },
            None => false,
        },
{
    if let Err(e) = validate_pool_size(boot.pool_size) {
        boot.reply.send(Err(e));
        return ;
    }
    if continue_on_errors {
        boot.reply.send(Ok(()));
        return ;
    }
    let ghost results0 = worker_results@;
    match first_failure(&worker_results) {
        Some(i) => {
            let failure = worker_results.remove(i);
            match failure {
                Err(e) => {
                    proof {
                        assert(results0[i as int] == Err::<(), BootstrapError>(e));
                    }
                    boot.reply.send(Err(e));
                },
                Ok(_) => {
                    // first_failure guarantees an Err at index i
                    proof {
                        assert(false);
                    }
                },
            }
        },
        None => {
            boot.reply.send(Ok(()));
        },
    }
}

/// Which worker serves request `i` under round-robin dispatch.
pub open spec fn assigned_worker(i: int, pool_size: int) -> int {
    i % pool_size
}

/// The inbox of worker `k` after round-robin dispatch of `requests`: the
/// subsequence of requests whose index is congruent to `k`.
pub open spec fn spec_inbox(requests: Seq<EvalRequest>, pool_size: int, k: int) -> Seq<EvalRequest>
    decreases requests.len(),
{
    if requests.len() == 0 {
        Seq::empty()
    } else {
        let prefix = spec_inbox(requests.drop_last(), pool_size, k);
        if assigned_worker(requests.len() - 1, pool_size) == k {
            prefix.push(requests.last())
        } else {
            prefix
        }
    }
}

/// How many of the first `m` requests round-robin sends to worker `k`.
pub open spec fn spec_assigned_count(m: int, pool_size: int, k: int) -> int
    decreases m,
{
    if m <= 0 {
        0
    } else {
        spec_assigned_count(m - 1, pool_size, k) + if assigned_worker(m - 1, pool_size) == k {
            1int
        } else {
            0int
        }
    }
}

/// Fan the requests out by round-robin: worker `k`'s inbox receives, in
/// order, exactly the requests whose index is congruent to `k` modulo the
/// pool size.
pub fn dispatch_round_robin(requests: Vec<EvalRequest>, pool_size: usize) -> (inboxes: Vec<
    Vec<EvalRequest>,
>)
    requires
        pool_size >= 1,
    ensures
        inboxes@.len() == pool_size,
        forall|k: int|
            0 <= k < pool_size ==> inboxes@[k]@ == spec_inbox(requests@, pool_size as int, k),
{
    let ghost all = requests@;
    let mut inboxes: Vec<Vec<EvalRequest>> = Vec::new();
    let mut k: usize = 0;
    while k < pool_size
        invariant
            inboxes@.len() == k,
            k <= pool_size,
            forall|j: int| 0 <= j < k ==> inboxes@[j]@ == Seq::<EvalRequest>::empty(),
        decreases pool_size - k,
    {
        inboxes.push(Vec::new());
        k = k + 1;
    }
    let mut rest = requests;
    let total: usize = rest.len();
    let mut i: usize = 0;
    while rest.len() > 0
        invariant
            pool_size >= 1,
            inboxes@.len() == pool_size,
            all.len() == total,
            i + rest@.len() == all.len(),
            all == all.take(i as int) + rest@,
            forall|j: int|
                0 <= j < pool_size ==> inboxes@[j]@ == spec_inbox(
                    all.take(i as int),
                    pool_size as int,
                    j,
                ),
        decreases rest@.len(),
    {
        let req = rest.remove(0);
        let target = i % pool_size;
        proof {
            lemma_mod_division_less_than_divisor(i as int, pool_size as int);
            assert(all[i as int] == req);
        }
        let mut inner: Vec<EvalRequest> = Vec::new();
        inboxes.set_and_swap(target, &mut inner);
        inner.push(req);
        inboxes.set(target, inner);
        proof {
            let n = pool_size as int;
            let ii = i as int;
            assert(all.take(ii + 1).drop_last() =~= all.take(ii));
            assert(all.take(ii + 1).last() == req);
            assert forall|j: int| 0 <= j < n implies inboxes@[j]@ == spec_inbox(
                all.take(ii + 1),
                n,
                j,
            ) by {
                if j == assigned_worker(ii, n) {
                    assert(inboxes@[j]@ == spec_inbox(all.take(ii), n, j).push(req));
                } else {
                    assert(inboxes@[j]@ == spec_inbox(all.take(ii), n, j));
                }
            }
        }
        i = i + 1;
    }
    proof {
        assert(all.take(i as int) =~= all);
    }
    inboxes
}

/// An inbox holds as many requests as round-robin assigns to its worker.
pub proof fn lemma_inbox_len(requests: Seq<EvalRequest>, pool_size: int, k: int)
    requires
        pool_size >= 1,
    ensures
        spec_inbox(requests, pool_size, k).len() == spec_assigned_count(
            requests.len() as int,
            pool_size,
            k,
        ),
    decreases requests.len(),
{
    if requests.len() > 0 {
        lemma_inbox_len(requests.drop_last(), pool_size, k);
    }
}

/// Round-robin fairness: of `m` requests, worker `k` receives
/// `m / pool_size` and one more exactly when `k < m % pool_size` — so
/// every worker receives either ⌊m/n⌋ or ⌈m/n⌉ requests.
pub proof fn lemma_round_robin_fairness(m: int, pool_size: int, k: int)
    requires
        0 <= m,
        1 <= pool_size,
        0 <= k < pool_size,
    ensures
        spec_assigned_count(m, pool_size, k) == m / pool_size + if k < m % pool_size {
            1int
        } else {
            0int
        },
    decreases m,
{
    let n = pool_size;
    lemma_mod_division_less_than_divisor(m, n);
    if m == 0 {
        lemma_fundamental_div_mod_converse(0, n, 0, 0);
    }
    if m > 0 {
        lemma_round_robin_fairness(m - 1, n, k);
        lemma_fundamental_div_mod(m - 1, n);
        lemma_mod_division_less_than_divisor(m - 1, n);
        let q = (m - 1) / n;
        let r = (m - 1) % n;
        assert(m - 1 == n * q + r);
        assert(n * q == q * n) by (nonlinear_arith);
        assert(spec_assigned_count(m, n, k) == spec_assigned_count(m - 1, n, k) + if r == k {
            1int
        } else {
            0int
        });
        assert(spec_assigned_count(m - 1, n, k) == q + if k < r {
            1int
        } else {
            0int
        });
        if r == n - 1 {
            assert((q + 1) * n == q * n + n) by (nonlinear_arith);
            lemma_fundamental_div_mod_converse(m, n, q + 1, 0);
            assert(m / n == q + 1 && m % n == 0);
            assert(spec_assigned_count(m, n, k) == q + 1);
        } else {
            lemma_fundamental_div_mod_converse(m, n, q, r + 1);
            assert(m / n == q && m % n == r + 1);
        }
    }
}

/// Each request is assigned to exactly one worker: the union of the
/// inboxes, as a multiset, is exactly the dispatched requests — nothing
/// is dropped and nothing is duplicated.
pub open spec fn spec_inbox_union(
    requests: Seq<EvalRequest>,
    pool_size: int,
    k: int,
) -> Multiset<EvalRequest>
    decreases k,
{
    if k <= 0 {
        Multiset::empty()
    } else {
        spec_inbox_union(requests, pool_size, k - 1).add(
            spec_inbox(requests, pool_size, k - 1).to_multiset(),
        )
    }
}

proof fn lemma_inbox_union_step(requests: Seq<EvalRequest>, pool_size: int, k: int)
    requires
        1 <= pool_size,
        0 <= k <= pool_size,
        requests.len() > 0,
    ensures
        spec_inbox_union(requests, pool_size, k) == if assigned_worker(
            requests.len() - 1,
            pool_size,
        ) < k {
            spec_inbox_union(requests.drop_last(), pool_size, k).insert(requests.last())
        } else {
            spec_inbox_union(requests.drop_last(), pool_size, k)
        },
    decreases k,
{
    broadcast use vstd::seq_lib::group_to_multiset_ensures;

    if k > 0 {
        lemma_inbox_union_step(requests, pool_size, k - 1);
        let target = assigned_worker(requests.len() - 1, pool_size);
        if target == k - 1 {
            assert(spec_inbox(requests, pool_size, k - 1) == spec_inbox(
                requests.drop_last(),
                pool_size,
                k - 1,
            ).push(requests.last()));
            assert(spec_inbox_union(requests, pool_size, k) =~= spec_inbox_union(
                requests.drop_last(),
                pool_size,
                k,
            ).insert(requests.last()));
        } else {
            assert(spec_inbox(requests, pool_size, k - 1) == spec_inbox(
                requests.drop_last(),
                pool_size,
                k - 1,
            ));
            if target < k - 1 {
                assert(spec_inbox_union(requests, pool_size, k) =~= spec_inbox_union(
                    requests.drop_last(),
                    pool_size,
                    k,
                ).insert(requests.last()));
            }
        }
    }
}

/// Round-robin dispatch is a partition: every dispatched request lands in
/// exactly one inbox, so the inboxes together hold exactly the requests.
pub proof fn lemma_dispatch_is_partition(requests: Seq<EvalRequest>, pool_size: int)
    requires
        1 <= pool_size,
    ensures
        spec_inbox_union(requests, pool_size, pool_size) == requests.to_multiset(),
    decreases requests.len(),
{
    broadcast use vstd::seq_lib::group_to_multiset_ensures;

    if requests.len() == 0 {
        lemma_inbox_union_empty(requests, pool_size, pool_size);
        assert(requests.to_multiset() =~= Multiset::<EvalRequest>::empty());
    } else {
        lemma_dispatch_is_partition(requests.drop_last(), pool_size);
        lemma_mod_division_less_than_divisor(requests.len() - 1, pool_size);
        lemma_inbox_union_step(requests, pool_size, pool_size);
        assert(requests.drop_last().push(requests.last()) =~= requests);
        assert(requests.to_multiset() =~= requests.drop_last().to_multiset().insert(
            requests.last(),
        ));
    }
}

proof fn lemma_inbox_union_empty(requests: Seq<EvalRequest>, pool_size: int, k: int)
    requires
        requests.len() == 0,
        0 <= k,
    ensures
        spec_inbox_union(requests, pool_size, k) == Multiset::<EvalRequest>::empty(),
    decreases k,
{
    broadcast use vstd::seq_lib::group_to_multiset_ensures;

    if k > 0 {
        lemma_inbox_union_empty(requests, pool_size, k - 1);
        let s = spec_inbox(requests, pool_size, k - 1);
        assert(s == Seq::<EvalRequest>::empty());
        assert forall|x: EvalRequest| s.to_multiset().count(x) == 0 by {
            assert(!s.contains(x));
        }
        assert(s.to_multiset() =~= Multiset::<EvalRequest>::empty());
        assert(spec_inbox_union(requests, pool_size, k) =~= Multiset::<EvalRequest>::empty());
    }
}

} // verus!
