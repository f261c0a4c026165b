//! What holds of every load balancer.

#![allow(unused_imports)]

use crate::clock::{
    drawn, is_reading, law_each_time_from_its_clock, readings, taken_from, Clock, MAX_NANOS,
};
use crate::load_balancer::key_info::{backoff_factor, KeyView, Provider};
use crate::load_balancer::key_pool::{position_of, Choice, PoolView};
use crate::load_balancer::key_laws::law_failed_key_rests;
use crate::load_balancer::pool_laws::{
    fits, law_chosen_key_may_be_used, law_first_key_of_the_id_is_reached,
    law_no_key_leaves_all_limited, law_served_iff_some_key_says_yes, law_spent_quotas,
    lemma_choice_and_key, lemma_position, quota_left, says_yes,
};
use crate::load_balancer::{
    choose_any_from, entry_clocks, entry_views, first_key_of, handed_out_of, lemma_pool_position,
    lemma_pool_position_unique, lemma_with_pool_distinct, pool_position, reads_fit, reads_from,
    reads_taken, reads_views, AnyChoice, BalancerView, LoadBalancer, PoolEntry, PoolReads,
    PoolReadsView,
};
use vstd::prelude::*;

verus! {

/// To set the pool of a provider is seen when that provider is looked up, and
/// changes nothing for any other provider. No provider ever has two pools.
pub proof fn law_pools_are_kept_apart(
    balancer: BalancerView,
    provider: Provider,
    pool: PoolView,
    other: Provider,
)
    requires
        balancer.distinct(),
    ensures
        balancer.with_pool(provider, pool).distinct(),
        balancer.with_pool(provider, pool).pool_of(provider) == Some(pool),
        other != provider ==> balancer.with_pool(provider, pool).pool_of(other)
            == balancer.pool_of(other),
{
    lemma_with_pool_distinct(balancer, provider, pool);
    let after = balancer.with_pool(provider, pool);
    lemma_pool_position(balancer.pools, provider);
    let at = match pool_position(balancer.pools, provider) {
        Some(i) => i,
        None => balancer.pools.len() as int,
    };
    assert(after.pools[at] == (provider, pool));
    lemma_pool_position_unique(after, at);
    if other != provider {
        lemma_pool_position(balancer.pools, other);
        lemma_pool_position(after.pools, other);
        match pool_position(balancer.pools, other) {
            Some(j) => {
                assert(after.pools[j] == balancer.pools[j]);
                lemma_pool_position_unique(after, j);
            },
            None => {
                if let Some(j) = pool_position(after.pools, other) {
                    assert(j != at);
                    assert(after.pools[j] == balancer.pools[j]);
                }
            },
        }
    }
}

/// A pool that was made for a provider is found again as it is; to ask for it
/// twice makes no second one.
pub proof fn law_pool_is_made_once(balancer: BalancerView, provider: Provider)
    requires
        balancer.distinct(),
    ensures
        ({
            let once = balancer.with_pool(provider, balancer.pool_or_new(provider));
            &&& once.pool_or_new(provider) == balancer.pool_or_new(provider)
            &&& once.with_pool(provider, once.pool_or_new(provider)) == once
        }),
{
    let pool = balancer.pool_or_new(provider);
    let once = balancer.with_pool(provider, pool);
    law_pools_are_kept_apart(balancer, provider, pool, provider);
    lemma_pool_position(once.pools, provider);
    let i = pool_position(once.pools, provider)->0;
    assert(once.pools.update(i, (provider, pool)) =~= once.pools);
}

/// The failure of a key reaches no other provider, and a provider without a pool
/// is none.
pub proof fn law_failure_touches_one_provider(
    balancer: BalancerView,
    provider: Provider,
    id: Seq<char>,
    cooldown: u128,
    now: u128,
    other: Provider,
)
    requires
        balancer.distinct(),
    ensures
        ({
            let after = balancer.failure(provider, id, cooldown, now);
            &&& after.distinct()
            &&& other != provider ==> after.pool_of(other) == balancer.pool_of(other)
            &&& balancer.pool_of(provider) is None ==> after == balancer
            &&& balancer.pool_of(provider) matches Some(pool) ==> after.pool_of(provider) == Some(
                pool.key_failed(id, cooldown, now),
            )
        }),
{
    if let Some(pool) = balancer.pool_of(provider) {
        law_pools_are_kept_apart(
            balancer,
            provider,
            pool.key_failed(id, cooldown, now),
            other,
        );
    }
}

/// The measure of a response reaches no other provider, and a provider without a
/// pool is none.
pub proof fn law_timing_touches_one_provider(
    balancer: BalancerView,
    provider: Provider,
    id: Seq<char>,
    nanos: u64,
    other: Provider,
)
    requires
        balancer.distinct(),
    ensures
        ({
            let after = balancer.timed(provider, id, nanos);
            &&& after.distinct()
            &&& other != provider ==> after.pool_of(other) == balancer.pool_of(other)
            &&& balancer.pool_of(provider) is None ==> after == balancer
            &&& balancer.pool_of(provider) matches Some(pool) ==> after.pool_of(provider) == Some(
                pool.key_timed(id, nanos),
            )
        }),
{
    if let Some(pool) = balancer.pool_of(provider) {
        law_pools_are_kept_apart(balancer, provider, pool.key_timed(id, nanos), other);
    }
}

/// The lists of keys are no longer than a list can be.
pub open spec fn representable(pools: Seq<(Provider, PoolView)>) -> bool {
    pools.len() <= usize::MAX && forall|i: int|
        0 <= i < pools.len() ==> (#[trigger] pools[i]).1.keys.len() <= usize::MAX
}

/// What a request for any model got, in terms of the pools before it: the pools
/// that stand before the answering one had no key that said yes.
proof fn lemma_choose_any_from(
    pools: Seq<(Provider, PoolView)>,
    reads: Seq<PoolReadsView>,
    start: int,
)
    requires
        0 <= start <= pools.len(),
        reads_fit(pools, reads),
        representable(pools),
    ensures
        ({
            let (after, choice) = choose_any_from(pools, reads, start);
            &&& after.len() == pools.len()
            &&& forall|j: int| 0 <= j < pools.len() ==> (#[trigger] after[j]).0 == pools[j].0
            &&& choice matches AnyChoice::Key(i, k) ==> {
                &&& start <= i < pools.len()
                &&& pools[i as int].1.choose_key(
                    None,
                    reads[i as int].times,
                    reads[i as int].random,
                ) == (after[i as int].1, Choice::Key(k))
                &&& forall|j: int|
                    start <= j < i ==> (#[trigger] pools[j]).1.choose_key(
                        None,
                        reads[j].times,
                        reads[j].random,
                    ).1 is NoKeys
            }
            &&& choice is NoKeys <==> forall|j: int|
                start <= j < pools.len() ==> (#[trigger] pools[j]).1.choose_key(
                    None,
                    reads[j].times,
                    reads[j].random,
                ).1 is NoKeys
        }),
    decreases pools.len() - start,
{
    if start < pools.len() {
        let (pool, choice) = pools[start].1.choose_key(
            None,
            reads[start].times,
            reads[start].random,
        );
        let next = pools.update(start, (pools[start].0, pool));
        assert(reads[start].times.len() == pools[start].1.keys.len());
        if choice is NoKeys {
            assert forall|j: int| 0 <= j < next.len() implies (#[trigger] reads[j]).times.len()
                == next[j].1.keys.len() by {
                assert(reads[j].times.len() == pools[j].1.keys.len());
            }
            assert forall|j: int| 0 <= j < next.len() implies (#[trigger] next[j]).1.keys.len()
                <= usize::MAX by {
                assert(pools[j].1.keys.len() <= usize::MAX);
            }
            lemma_choose_any_from(next, reads, start + 1);
            let (after, any) = choose_any_from(next, reads, start + 1);
            assert forall|j: int| 0 <= j < pools.len() implies (#[trigger] after[j]).0
                == pools[j].0 by {
                assert(after[j].0 == next[j].0);
            }
            assert forall|j: int| start < j < pools.len() implies #[trigger] pools[j]
                == next[j] by {}
            if any is NoKeys {
                assert forall|j: int| start <= j < pools.len() implies (
                #[trigger] pools[j]).1.choose_key(None, reads[j].times, reads[j].random).1 is NoKeys by {
                    if j > start {
                        assert(next[j] == pools[j]);
                    }
                }
            } else if forall|j: int|
                start <= j < pools.len() ==> (#[trigger] pools[j]).1.choose_key(
                    None,
                    reads[j].times,
                    reads[j].random,
                ).1 is NoKeys {
                assert forall|j: int| start + 1 <= j < next.len() implies (
                #[trigger] next[j]).1.choose_key(None, reads[j].times, reads[j].random).1 is NoKeys by {
                    assert(next[j] == pools[j]);
                }
            }
            if let AnyChoice::Key(i, k) = any {
                assert(next[i as int] == pools[i as int]);
                assert forall|j: int| start <= j < i implies (#[trigger] pools[j]).1.choose_key(
                    None,
                    reads[j].times,
                    reads[j].random,
                ).1 is NoKeys by {
                    if j > start {
                        assert(next[j] == pools[j]);
                    }
                }
            }
        } else {
            assert(pools[start].1.choose_key(
                None,
                reads[start].times,
                reads[start].random,
            ).1 !is NoKeys);
        }
    }
}

/// A request for any model gets no key exactly when no key of any pool says yes;
/// and a key that it gets may be used.
pub proof fn law_any_key(balancer: BalancerView, reads: Seq<PoolReadsView>)
    requires
        reads_fit(balancer.pools, reads),
        representable(balancer.pools),
    ensures
        ({
            let choice = balancer.choose_any(reads).1;
            &&& choice is NoKeys <==> forall|i: int, k: int|
                #![trigger says_yes(balancer.pools[i].1, k, None, reads[i].times)]
                0 <= i < balancer.pools.len() && 0 <= k < balancer.pools[i].1.keys.len()
                    ==> !says_yes(balancer.pools[i].1, k, None, reads[i].times)
            &&& choice matches AnyChoice::Key(i, k) ==> i < balancer.pools.len() && k
                < balancer.pools[i as int].1.keys.len() && says_yes(
                balancer.pools[i as int].1,
                k as int,
                None,
                reads[i as int].times,
            )
        }),
{
    let pools = balancer.pools;
    lemma_choose_any_from(pools, reads, 0);
    let choice = balancer.choose_any(reads).1;
    assert forall|i: int| 0 <= i < pools.len() implies fits(
        (#[trigger] pools[i]).1,
        reads[i].times,
    ) by {
        assert(reads[i].times.len() == pools[i].1.keys.len());
    }
    if choice is NoKeys {
        assert forall|i: int, k: int|
            #![trigger says_yes(pools[i].1, k, None, reads[i].times)]
            0 <= i < pools.len() && 0 <= k < pools[i].1.keys.len() implies !says_yes(
            pools[i].1,
            k,
            None,
            reads[i].times,
        ) by {
            law_served_iff_some_key_says_yes(
                pools[i].1,
                None,
                reads[i].times,
                reads[i].random,
            );
        }
    } else {
        let i = choose|i: int|
            0 <= i < pools.len() && !((#[trigger] pools[i]).1.choose_key(
                None,
                reads[i].times,
                reads[i].random,
            ).1 is NoKeys);
        law_served_iff_some_key_says_yes(pools[i].1, None, reads[i].times, reads[i].random);
        let k = choose|k: int|
            0 <= k < pools[i].1.keys.len() && #[trigger] says_yes(
                pools[i].1,
                k,
                None,
                reads[i].times,
            );
        assert(says_yes(pools[i].1, k, None, reads[i].times));
    }
    if let AnyChoice::Key(i, k) = choice {
        law_chosen_key_may_be_used(
            pools[i as int].1,
            None,
            reads[i as int].times,
            reads[i as int].random,
        );
    }
}

/// What a request for any model does to one pool: it is not asked and stays as it
/// is, or it serves the request by itself; and the request gets the key that it
/// chose, if it chose one.
proof fn lemma_choose_any_effect(
    pools: Seq<(Provider, PoolView)>,
    reads: Seq<PoolReadsView>,
    start: int,
    i: int,
    k: usize,
)
    requires
        0 <= start <= pools.len(),
        0 <= i < pools.len() <= usize::MAX,
    ensures
        ({
            let (after, choice) = choose_any_from(pools, reads, start);
            let (pool, chosen) = pools[i].1.choose_key(None, reads[i].times, reads[i].random);
            &&& after.len() == pools.len()
            &&& after[i].0 == pools[i].0
            &&& {
                ||| after[i].1 == pools[i].1 && !(choice matches AnyChoice::Key(at, k) && at == i)
                ||| i >= start && after[i].1 == pool && (choice == AnyChoice::Key(i as usize, k)
                    <==> chosen == Choice::Key(k))
            }
            &&& i < start ==> after[i] == pools[i]
        }),
    decreases pools.len() - start,
{
    if start < pools.len() {
        let (pool, choice) = pools[start].1.choose_key(
            None,
            reads[start].times,
            reads[start].random,
        );
        let next = pools.update(start, (pools[start].0, pool));
        if choice is NoKeys {
            lemma_choose_any_effect(next, reads, start + 1, i, k);
            if i == start {
                assert(next[i].1 == pool);
                let (after, any) = choose_any_from(next, reads, start + 1);
                assert(after[i] == next[i]);
                lemma_answer_lies_ahead(next, reads, start + 1);
            } else {
                assert(next[i] == pools[i]);
            }
        }
    }
}

/// The pool that answers stands at or behind the one where the request starts.
proof fn lemma_answer_lies_ahead(
    pools: Seq<(Provider, PoolView)>,
    reads: Seq<PoolReadsView>,
    start: int,
)
    requires
        0 <= start <= pools.len() <= usize::MAX,
    ensures
        choose_any_from(pools, reads, start).1 matches AnyChoice::Key(i, k) ==> i >= start,
    decreases pools.len() - start,
{
    if start < pools.len() {
        let (pool, choice) = pools[start].1.choose_key(
            None,
            reads[start].times,
            reads[start].random,
        );
        if choice is NoKeys {
            lemma_answer_lies_ahead(
                pools.update(start, (pools[start].0, pool)),
                reads,
                start + 1,
            );
        }
    }
}

/// Requests for any model are served one after the other, each with its own
/// readings: what becomes of the balancer, and what each request got.
pub open spec fn serve_any(balancer: BalancerView, reads: Seq<Seq<PoolReadsView>>) -> (
    BalancerView,
    Seq<AnyChoice>,
)
    decreases reads.len(),
{
    if reads.len() == 0 {
        (balancer, Seq::empty())
    } else {
        let (before, choices) = serve_any(balancer, reads.drop_last());
        let (after, choice) = before.choose_any(reads.last());
        (after, choices.push(choice))
    }
}

/// How many requests got the key at position `k` of the pool at position `i`.
pub open spec fn times_given(choices: Seq<AnyChoice>, i: int, k: int) -> nat
    decreases choices.len(),
{
    if choices.len() == 0 {
        0
    } else {
        let before = times_given(choices.drop_last(), i, k);
        if choices.last() == AnyChoice::Key(i as usize, k as usize) {
            before + 1
        } else {
            before
        }
    }
}

/// The readings of a run of requests all lie before a time of the clock of the key at
/// position `k` of the pool at position `i`.
pub open spec fn all_before_at(
    i: int,
    k: int,
    reads: Seq<Seq<PoolReadsView>>,
    end: int,
) -> bool {
    forall|r: int| 0 <= r < reads.len() ==> (#[trigger] reads[r])[i].times[k] < end
}

/// Failover: a key that has failed is not handed out again, by however many requests
/// for any model, before its cooldown is over.
pub proof fn law_failover(
    balancer: BalancerView,
    provider: Provider,
    id: Seq<char>,
    cooldown: u128,
    now: u128,
    reads: Seq<Seq<PoolReadsView>>,
)
    requires
        balancer.distinct(),
        forall|r: int| 0 <= r < reads.len() ==> reads_fit(balancer.pools, #[trigger] reads[r]),
        representable(balancer.pools),
        cooldown <= MAX_NANOS,
        now <= MAX_NANOS,
    ensures
        pool_position(balancer.pools, provider) matches Some(i) ==> (position_of(
            balancer.pools[i].1.keys,
            id,
        ) matches Some(k) ==> {
            let end = now + cooldown * backoff_factor(balancer.pools[i].1.keys[k].state.backoff);
            let choices = serve_any(balancer.failure(provider, id, cooldown, now), reads).1;
            all_before_at(i, k, reads, end) ==> times_given(choices, i, k) == 0
        }),
{
    lemma_pool_position(balancer.pools, provider);
    if let Some(i) = pool_position(balancer.pools, provider) {
        let pool = balancer.pools[i].1;
        lemma_position(pool.keys, id);
        if let Some(k) = position_of(pool.keys, id) {
            let after = balancer.failure(provider, id, cooldown, now);
            let failed = pool.key_failed(id, cooldown, now);
            let end = now + cooldown * backoff_factor(pool.keys[k].state.backoff);
            assert(after.pools == balancer.pools.update(i, (provider, failed)));
            if all_before_at(i, k, reads, end) {
                assert forall|j: int| 0 <= j < after.pools.len() implies (
                #[trigger] after.pools[j]).1.keys.len() <= usize::MAX by {
                    assert(balancer.pools[j].1.keys.len() <= usize::MAX);
                }
                assert forall|r: int| 0 <= r < reads.len() implies reads_fit(
                    after.pools,
                    #[trigger] reads[r],
                ) && failed.keys[k].cooling(reads[r][i].times[k]) by {
                    assert(reads_fit(balancer.pools, reads[r]));
                    assert forall|j: int| 0 <= j < after.pools.len() implies (
                    #[trigger] reads[r][j]).times.len() == after.pools[j].1.keys.len() by {
                        assert(reads[r][j].times.len() == balancer.pools[j].1.keys.len());
                    }
                    law_failed_key_rests(pool.keys[k], cooldown, now, reads[r][i].times[k]);
                }
                lemma_resting_run_everywhere(after, reads, i, k);
            }
        }
    }
}

/// A key that rests at all readings of a run of requests is never handed out.
proof fn lemma_resting_run_everywhere(
    balancer: BalancerView,
    reads: Seq<Seq<PoolReadsView>>,
    i: int,
    k: int,
)
    requires
        representable(balancer.pools),
        forall|r: int| 0 <= r < reads.len() ==> reads_fit(balancer.pools, #[trigger] reads[r]),
        0 <= i < balancer.pools.len(),
        0 <= k < balancer.pools[i].1.keys.len(),
        forall|r: int|
            0 <= r < reads.len() ==> balancer.pools[i].1.keys[k].cooling(
                (#[trigger] reads[r])[i].times[k],
            ),
    ensures
        ({
            let (after, choices) = serve_any(balancer, reads);
            &&& after.pools.len() == balancer.pools.len()
            &&& after.pools[i].1.keys.len() == balancer.pools[i].1.keys.len()
            &&& after.pools[i].1.keys[k].state.cooldown_until
                == balancer.pools[i].1.keys[k].state.cooldown_until
            &&& times_given(choices, i, k) == 0
        }),
    decreases reads.len(),
{
    if reads.len() > 0 {
        let rest = reads.drop_last();
        let now = reads[reads.len() - 1];
        assert forall|r: int| 0 <= r < rest.len() implies reads_fit(
            balancer.pools,
            #[trigger] rest[r],
        ) && balancer.pools[i].1.keys[k].cooling(rest[r][i].times[k]) by {
            assert(rest[r] == reads[r]);
        }
        lemma_resting_run_everywhere(balancer, rest, i, k);
        let (before, choices) = serve_any(balancer, rest);
        assert(reads_fit(balancer.pools, now));
        assert(now[i].times.len() == balancer.pools[i].1.keys.len());
        assert(balancer.pools[i].1.keys.len() <= usize::MAX);
        assert(balancer.pools[i].1.keys[k].cooling(now[i].times[k]));
        lemma_choose_any_effect(before.pools, now, 0, i, k as usize);
        lemma_choice_and_key(before.pools[i].1, None, now[i].times, now[i].random, k);
        let (after, all) = serve_any(balancer, reads);
        assert(all.drop_last() =~= choices);
    }
}

/// A pool is kept under its own provider: so it is in a balancer without pools, a pool
/// that is made for a provider is that provider's, and no request, failure or measured
/// response changes it.
pub proof fn law_pools_are_housed(
    balancer: BalancerView,
    provider: Provider,
    pool: PoolView,
    id: Seq<char>,
    cooldown: u128,
    now: u128,
    nanos: u64,
    reads: Seq<PoolReadsView>,
)
    requires
        balancer.housed(),
        pool.provider == provider,
        balancer.pools.len() <= usize::MAX,
    ensures
        (BalancerView { pools: Seq::empty(), ..balancer }).housed(),
        balancer.pool_or_new(provider).provider == provider,
        balancer.with_pool(provider, pool).housed(),
        balancer.failure(provider, id, cooldown, now).housed(),
        balancer.timed(provider, id, nanos).housed(),
        balancer.choose_any(reads).0.housed(),
{
    lemma_pool_position(balancer.pools, provider);
    if let Some(i) = pool_position(balancer.pools, provider) {
        assert(balancer.pools[i].1.provider == balancer.pools[i].0);
    }
    lemma_with_pool_housed(balancer, provider, pool);
    if let Some(old_pool) = balancer.pool_of(provider) {
        lemma_with_pool_housed(balancer, provider, old_pool.key_failed(id, cooldown, now));
        lemma_with_pool_housed(balancer, provider, old_pool.key_timed(id, nanos));
    }
    let after = balancer.choose_any(reads).0;
    assert forall|i: int| 0 <= i < after.pools.len() implies (
    #[trigger] after.pools[i]).1.provider == after.pools[i].0 by {
        lemma_choose_any_len(balancer.pools, reads, 0);
        lemma_choose_any_effect(balancer.pools, reads, 0, i, 0);
        assert(balancer.pools[i].1.provider == balancer.pools[i].0);
    }
}

/// A pool that is set for its own provider is kept under it.
pub proof fn lemma_with_pool_housed(balancer: BalancerView, provider: Provider, pool: PoolView)
    requires
        balancer.housed(),
        pool.provider == provider,
    ensures
        balancer.with_pool(provider, pool).housed(),
{
    lemma_pool_position(balancer.pools, provider);
    let after = balancer.with_pool(provider, pool);
    assert forall|i: int| 0 <= i < after.pools.len() implies (
    #[trigger] after.pools[i]).1.provider == after.pools[i].0 by {
        if i < balancer.pools.len() {
            assert(balancer.pools[i].1.provider == balancer.pools[i].0);
        }
    }
}

proof fn lemma_choose_any_len(
    pools: Seq<(Provider, PoolView)>,
    reads: Seq<PoolReadsView>,
    start: int,
)
    requires
        0 <= start <= pools.len(),
    ensures
        choose_any_from(pools, reads, start).0.len() == pools.len(),
    decreases pools.len() - start,
{
    if start < pools.len() {
        let pool = pools[start].1.choose_key(None, reads[start].times, reads[start].random).0;
        lemma_choose_any_len(pools.update(start, (pools[start].0, pool)), reads, start + 1);
    }
}

/// A request for any model that finds no key, while none rests, leaves a balancer whose
/// keys all count as having spent their quotas: the next client is told so.
pub proof fn law_no_key_leaves_everything_limited(
    balancer: BalancerView,
    reads: Seq<PoolReadsView>,
)
    requires
        reads_fit(balancer.pools, reads),
        representable(balancer.pools),
        forall|i: int|
            0 <= i < balancer.pools.len() ==> (#[trigger] balancer.pools[i]).1.keys.len() > 0,
        forall|i: int, k: int|
            #![trigger balancer.pools[i].1.keys[k]]
            0 <= i < balancer.pools.len() && 0 <= k < balancer.pools[i].1.keys.len()
                ==> !balancer.pools[i].1.keys[k].cooling(reads[i].times[k]),
    ensures
        ({
            let (after, choice) = balancer.choose_any(reads);
            choice is NoKeys ==> after.all_limited(reads)
        }),
{
    let pools = balancer.pools;
    let (after, choice) = balancer.choose_any(reads);
    lemma_choose_any_from(pools, reads, 0);
    if choice is NoKeys {
        lemma_all_asked(pools, reads, 0);
        assert forall|i: int| 0 <= i < after.pools.len() implies (
        #[trigger] after.pools[i]).1.all_limited(reads[i].times) by {
            assert(reads[i].times.len() == pools[i].1.keys.len());
            assert(pools[i].1.keys.len() > 0);
            assert(pools[i].1.choose_key(None, reads[i].times, reads[i].random).1 is NoKeys);
            law_no_key_leaves_all_limited(pools[i].1, reads[i].times, reads[i].random);
        }
    }
}

/// A request that finds no key was offered to every pool.
proof fn lemma_all_asked(
    pools: Seq<(Provider, PoolView)>,
    reads: Seq<PoolReadsView>,
    start: int,
)
    requires
        0 <= start <= pools.len(),
        choose_any_from(pools, reads, start).1 is NoKeys,
    ensures
        ({
            let after = choose_any_from(pools, reads, start).0;
            &&& after.len() == pools.len()
            &&& forall|j: int| 0 <= j < start ==> #[trigger] after[j] == pools[j]
            &&& forall|j: int|
                start <= j < pools.len() ==> (#[trigger] after[j]).1 == pools[j].1.choose_key(
                    None,
                    reads[j].times,
                    reads[j].random,
                ).0
        }),
    decreases pools.len() - start,
{
    if start < pools.len() {
        let pool = pools[start].1.choose_key(None, reads[start].times, reads[start].random).0;
        let next = pools.update(start, (pools[start].0, pool));
        lemma_all_asked(next, reads, start + 1);
        let after = choose_any_from(pools, reads, start).0;
        assert forall|j: int| start <= j < pools.len() implies (#[trigger] after[j]).1
            == pools[j].1.choose_key(None, reads[j].times, reads[j].random).0 by {
            if j > start {
                assert(next[j] == pools[j]);
            } else {
                assert(after[j] == next[j]);
            }
        }
        assert forall|j: int| 0 <= j < start implies #[trigger] after[j] == pools[j] by {
            assert(after[j] == next[j]);
        }
    }
}

/// A quota counts the requests that were sent with the key, also over any run of
/// requests to all pools: in one window, the count of a key grows by exactly the
/// number of times that the key was handed out, and so it is handed out no more
/// often than what is left of its quota.
pub proof fn law_quota_holds_everywhere(
    balancer: BalancerView,
    reads: Seq<Seq<PoolReadsView>>,
    i: int,
    k: int,
    max: u32,
)
    requires
        representable(balancer.pools),
        forall|r: int| 0 <= r < reads.len() ==> reads_fit(balancer.pools, #[trigger] reads[r]),
        0 <= i < balancer.pools.len(),
        0 <= k < balancer.pools[i].1.keys.len(),
        balancer.pools[i].1.keys[k].max_rpm == Some(max),
        forall|r: int|
            0 <= r < reads.len() ==> !balancer.pools[i].1.keys[k].window_over(
                (#[trigger] reads[r])[i].times[k],
            ),
    ensures
        ({
            let (after, choices) = serve_any(balancer, reads);
            let key = balancer.pools[i].1.keys[k];
            &&& after.pools[i].1.keys[k].state.window_requests == key.state.window_requests
                + times_given(choices, i, k)
            &&& times_given(choices, i, k) <= quota_left(key, max)
        }),
{
    lemma_quota_run_everywhere(balancer, reads, i, k, max);
}

proof fn lemma_quota_run_everywhere(
    balancer: BalancerView,
    reads: Seq<Seq<PoolReadsView>>,
    i: int,
    k: int,
    max: u32,
)
    requires
        representable(balancer.pools),
        forall|r: int| 0 <= r < reads.len() ==> reads_fit(balancer.pools, #[trigger] reads[r]),
        0 <= i < balancer.pools.len(),
        0 <= k < balancer.pools[i].1.keys.len(),
        balancer.pools[i].1.keys[k].max_rpm == Some(max),
        forall|r: int|
            0 <= r < reads.len() ==> !balancer.pools[i].1.keys[k].window_over(
                (#[trigger] reads[r])[i].times[k],
            ),
    ensures
        ({
            let (after, choices) = serve_any(balancer, reads);
            let key = balancer.pools[i].1.keys[k];
            let left = after.pools[i].1.keys[k];
            &&& after.pools.len() == balancer.pools.len()
            &&& after.pools[i].1.keys.len() == balancer.pools[i].1.keys.len()
            &&& left.max_rpm == Some(max)
            &&& left.state.window_start == key.state.window_start
            &&& left.state.window_requests == key.state.window_requests + times_given(
                choices,
                i,
                k,
            )
            &&& times_given(choices, i, k) <= quota_left(key, max)
        }),
    decreases reads.len(),
{
    if reads.len() > 0 {
        let rest = reads.drop_last();
        let now = reads[reads.len() - 1];
        assert forall|r: int| 0 <= r < rest.len() implies reads_fit(
            balancer.pools,
            #[trigger] rest[r],
        ) && !balancer.pools[i].1.keys[k].window_over(rest[r][i].times[k]) by {
            assert(rest[r] == reads[r]);
        }
        lemma_quota_run_everywhere(balancer, rest, i, k, max);
        let (before, choices) = serve_any(balancer, rest);
        assert(reads_fit(balancer.pools, now));
        assert(now[i].times.len() == balancer.pools[i].1.keys.len());
        assert(balancer.pools[i].1.keys.len() <= usize::MAX);
        assert(!balancer.pools[i].1.keys[k].window_over(now[i].times[k]));
        lemma_choose_any_effect(before.pools, now, 0, i, k as usize);
        lemma_choice_and_key(before.pools[i].1, None, now[i].times, now[i].random, k);
        let (after, all) = serve_any(balancer, reads);
        assert(all.drop_last() =~= choices);
    }
}

/// What one pool makes of a request for any model.
pub open spec fn offered(pool: PoolView, reads: PoolReadsView) -> (PoolView, Choice) {
    pool.choose_key(None, reads.times, reads.random)
}

proof fn lemma_answer(pools: Seq<(Provider, PoolView)>, reads: Seq<PoolReadsView>, start: int)
    requires
        0 <= start <= pools.len() <= usize::MAX,
    ensures
        ({
            let (after, choice) = choose_any_from(pools, reads, start);
            let end = match choice {
                AnyChoice::Key(i, _) => i as int,
                AnyChoice::Unweighted(i) => i as int,
                AnyChoice::NoKeys => pools.len() as int,
            };
            &&& start <= end <= pools.len()
            &&& choice !is NoKeys ==> end < pools.len()
            &&& after.len() == pools.len()
            &&& forall|j: int| 0 <= j < start ==> #[trigger] after[j] == pools[j]
            &&& forall|j: int|
                start <= j < end ==> #[trigger] after[j] == (
                    pools[j].0,
                    offered(pools[j].1, reads[j]).0,
                ) && offered(pools[j].1, reads[j]).1 is NoKeys
            &&& forall|j: int| end < j < pools.len() ==> #[trigger] after[j] == pools[j]
            &&& choice !is NoKeys ==> after[end] == (
                pools[end].0,
                offered(pools[end].1, reads[end]).0,
            )
            &&& choice matches AnyChoice::Key(i, k) ==> offered(pools[end].1, reads[end]).1
                == Choice::Key(k)
            &&& choice is Unweighted ==> offered(pools[end].1, reads[end]).1 is Unweighted
        }),
    decreases pools.len() - start,
{
    if start < pools.len() {
        let (pool, choice) = offered(pools[start].1, reads[start]);
        let next = pools.update(start, (pools[start].0, pool));
        if choice is NoKeys {
            lemma_answer(next, reads, start + 1);
            let (after, any) = choose_any_from(next, reads, start + 1);
            assert(after[start] == next[start]);
            assert forall|j: int| 0 <= j < start implies #[trigger] after[j] == pools[j] by {
                assert(after[j] == next[j]);
            }
            assert forall|j: int| start < j < pools.len() implies #[trigger] next[j]
                == pools[j] by {}
        }
    }
}

/// The pools are offered a request for any model in their order, until one has an
/// answer. Those that were offered it and had no key have only looked at their windows;
/// the one that answered has served it by itself; and those behind it are as they were.
pub proof fn law_pools_answer_in_their_order(balancer: BalancerView, reads: Seq<PoolReadsView>)
    requires
        reads_fit(balancer.pools, reads),
        representable(balancer.pools),
    ensures
        ({
            let (after, choice) = balancer.choose_any(reads);
            let pools = balancer.pools;
            let end = match choice {
                AnyChoice::Key(i, _) => i as int,
                AnyChoice::Unweighted(i) => i as int,
                AnyChoice::NoKeys => pools.len() as int,
            };
            &&& after.default_strategy == balancer.default_strategy
            &&& after.pools.len() == pools.len()
            &&& forall|j: int|
                0 <= j < end ==> (#[trigger] after.pools[j]).0 == pools[j].0 && after.pools[j].1
                    == pools[j].1.looked_at(reads[j].times)
            &&& forall|j: int, k: int|
                0 <= j < end && 0 <= k < pools[j].1.keys.len() ==> !#[trigger] says_yes(
                    pools[j].1,
                    k,
                    None,
                    reads[j].times,
                )
            &&& forall|j: int| end < j < pools.len() ==> #[trigger] after.pools[j] == pools[j]
            &&& choice matches AnyChoice::Key(i, k) ==> {
                &&& i < pools.len()
                &&& after.pools[i as int].0 == pools[i as int].0
                &&& after.pools[i as int].1 == offered(pools[i as int].1, reads[i as int]).0
                &&& offered(pools[i as int].1, reads[i as int]).1 == Choice::Key(k)
            }
        }),
{
    let pools = balancer.pools;
    let (after, choice) = balancer.choose_any(reads);
    lemma_answer(pools, reads, 0);
    let answered = choose_any_from(pools, reads, 0);
    assert(after.pools == answered.0 && choice == answered.1);
    let end = match choice {
        AnyChoice::Key(i, _) => i as int,
        AnyChoice::Unweighted(i) => i as int,
        AnyChoice::NoKeys => pools.len() as int,
    };
    assert forall|j: int| 0 <= j < end implies (#[trigger] after.pools[j]).0 == pools[j].0
        && after.pools[j].1 == pools[j].1.looked_at(reads[j].times) by {
        assert(reads[j].times.len() == pools[j].1.keys.len());
        assert(pools[j].1.keys.len() <= usize::MAX);
        assert(answered.0[j] == (pools[j].0, offered(pools[j].1, reads[j]).0));
        law_chosen_key_may_be_used(pools[j].1, None, reads[j].times, reads[j].random);
    }
    assert forall|j: int, k: int|
        0 <= j < end && 0 <= k < pools[j].1.keys.len() implies !#[trigger] says_yes(
        pools[j].1,
        k,
        None,
        reads[j].times,
    ) by {
        assert(reads[j].times.len() == pools[j].1.keys.len());
        assert(pools[j].1.keys.len() <= usize::MAX);
        assert(answered.0[j] == (pools[j].0, offered(pools[j].1, reads[j]).0));
        law_served_iff_some_key_says_yes(pools[j].1, None, reads[j].times, reads[j].random);
    }
    if let AnyChoice::Key(i, k) = choice {
        let own = offered(pools[i as int].1, reads[i as int]);
        assert(own.0 == after.pools[i as int].1 && own.1 == Choice::Key(k));
    }
    assert forall|j: int| end < j < pools.len() implies #[trigger] after.pools[j] == pools[j] by {
        assert(answered.0[j] == pools[j]);
    }
}

/// A failure at a time, and the measure of a response, reach the first key of that id
/// in the pool of that provider, and change it as a key is changed by it. Every other
/// key, and every other pool, stays as it is.
pub proof fn law_the_right_key_is_reached(
    balancer: BalancerView,
    provider: Provider,
    id: Seq<char>,
    cooldown: u128,
    now: u128,
    nanos: u64,
    i: int,
    k: int,
)
    requires
        balancer.distinct(),
        0 <= i < balancer.pools.len(),
        balancer.pools[i].0 == provider,
        0 <= k < balancer.pools[i].1.keys.len(),
        balancer.pools[i].1.keys[k].id == id,
        forall|j: int| 0 <= j < k ==> (#[trigger] balancer.pools[i].1.keys[j]).id != id,
    ensures
        balancer.has_key(provider, id),
        pool_position(balancer.pools, provider) == Some(i),
        position_of(balancer.pools[i].1.keys, id) == Some(k),
        balancer.failure(provider, id, cooldown, now) == balancer.with_key(
            i,
            k,
            balancer.pools[i].1.keys[k].failed(cooldown, now),
        ),
        balancer.timed(provider, id, nanos) == balancer.with_key(
            i,
            k,
            balancer.pools[i].1.keys[k].timed(nanos),
        ),
{
    lemma_pool_position_unique(balancer, i);
    law_first_key_of_the_id_is_reached(balancer.pools[i].1, id, cooldown, now, nanos, k);
}

/// A key that was set at a place stands there, and nothing else has changed.
pub proof fn law_key_at_its_place(
    balancer: BalancerView,
    i: int,
    k: int,
    key: KeyView,
    j: int,
    l: int,
)
    requires
        0 <= i < balancer.pools.len(),
        0 <= k < balancer.pools[i].1.keys.len(),
        0 <= j < balancer.pools.len(),
        0 <= l < balancer.pools[j].1.keys.len(),
    ensures
        ({
            let after = balancer.with_key(i, k, key);
            &&& after.default_strategy == balancer.default_strategy
            &&& after.pools.len() == balancer.pools.len()
            &&& after.pools[j].0 == balancer.pools[j].0
            &&& after.pools[j].1 == PoolView {
                keys: after.pools[j].1.keys,
                ..balancer.pools[j].1
            }
            &&& after.pools[j].1.keys.len() == balancer.pools[j].1.keys.len()
            &&& after.pools[j].1.keys[l] == if j == i && l == k {
                key
            } else {
                balancer.pools[j].1.keys[l]
            }
        }),
{
}

/// The first key there is: the first one of the first pool that has any.
pub proof fn law_first_key(pools: Seq<(Provider, PoolView)>)
    ensures
        match first_key_of(pools) {
            None => forall|j: int|
                0 <= j < pools.len() ==> (#[trigger] pools[j]).1.keys.len() == 0,
            Some((id, max_rpm)) => exists|i: int|
                0 <= i < pools.len() && (#[trigger] pools[i]).1.keys.len() > 0
                    && pools[i].1.keys[0].id == id && pools[i].1.keys[0].max_rpm == max_rpm && (
                forall|j: int| 0 <= j < i ==> (#[trigger] pools[j]).1.keys.len() == 0),
        },
    decreases pools.len(),
{
    if pools.len() > 0 && pools[0].1.keys.len() == 0 {
        let rest = pools.drop_first();
        law_first_key(rest);
        match first_key_of(pools) {
            None => {
                assert forall|j: int| 0 <= j < pools.len() implies (
                #[trigger] pools[j]).1.keys.len() == 0 by {
                    if j > 0 {
                        assert(rest[j - 1] == pools[j]);
                    }
                }
            },
            Some((id, max_rpm)) => {
                let i = choose|i: int|
                    0 <= i < rest.len() && (#[trigger] rest[i]).1.keys.len() > 0
                        && rest[i].1.keys[0].id == id && rest[i].1.keys[0].max_rpm == max_rpm && (
                    forall|j: int| 0 <= j < i ==> (#[trigger] rest[j]).1.keys.len() == 0);
                assert(pools[i + 1] == rest[i]);
                assert forall|j: int| 0 <= j < i + 1 implies (
                #[trigger] pools[j]).1.keys.len() == 0 by {
                    if j > 0 {
                        assert(rest[j - 1] == pools[j]);
                    }
                }
            },
        }
    } else if pools.len() > 0 {
        assert(pools[0].1.keys.len() > 0);
    }
}

/// All quotas are spent if every pool has keys and every key has let through, in the
/// last minute's window, as many requests as its quota allows.
pub proof fn law_all_quotas_spent(balancer: BalancerView, reads: Seq<PoolReadsView>)
    ensures
        balancer.all_limited(reads) <==> (forall|i: int|
            0 <= i < balancer.pools.len() ==> (#[trigger] balancer.pools[i]).1.keys.len() > 0) && (
        forall|i: int, k: int|
            #![trigger balancer.pools[i].1.keys[k]]
            0 <= i < balancer.pools.len() && 0 <= k < balancer.pools[i].1.keys.len() ==> {
                let key = balancer.pools[i].1.keys[k];
                key.max_rpm matches Some(max) && reads[i].times[k] - key.state.window_start
                    < 60_000_000_000 && key.state.window_requests >= max
            }),
{
    let pools = balancer.pools;
    if balancer.all_limited(reads) {
        assert forall|i: int| 0 <= i < pools.len() implies (#[trigger] pools[i]).1.keys.len()
            > 0 by {
            assert(pools[i].1.all_limited(reads[i].times));
        }
        assert forall|i: int, k: int|
            #![trigger pools[i].1.keys[k]]
            0 <= i < pools.len() && 0 <= k < pools[i].1.keys.len() implies {
            let key = pools[i].1.keys[k];
            key.max_rpm matches Some(max) && reads[i].times[k] - key.state.window_start
                < 60_000_000_000 && key.state.window_requests >= max
        } by {
            assert(pools[i].1.all_limited(reads[i].times));
            law_spent_quotas(pools[i].1, reads[i].times);
        }
    }
    if (forall|i: int| 0 <= i < pools.len() ==> (#[trigger] pools[i]).1.keys.len() > 0) && (forall|
        i: int,
        k: int,
    |
        #![trigger pools[i].1.keys[k]]
        0 <= i < pools.len() && 0 <= k < pools[i].1.keys.len() ==> {
            let key = pools[i].1.keys[k];
            key.max_rpm matches Some(max) && reads[i].times[k] - key.state.window_start
                < 60_000_000_000 && key.state.window_requests >= max
        }) {
        assert forall|i: int| 0 <= i < pools.len() implies (#[trigger] pools[i]).1.all_limited(
            reads[i].times,
        ) by {
            law_spent_quotas(pools[i].1, reads[i].times);
        }
    }
}

/// A pool that is made for a provider is that provider's, has the strategy of the
/// balancer, and has no keys and no turns behind it. It stands behind those that are
/// there, none of which is moved or changed.
pub proof fn law_new_pool(balancer: BalancerView, provider: Provider, pool: PoolView)
    requires
        balancer.pool_of(provider) is None,
    ensures
        balancer.pool_or_new(provider).provider == provider,
        balancer.pool_or_new(provider).strategy == balancer.default_strategy,
        balancer.pool_or_new(provider).keys.len() == 0,
        balancer.pool_or_new(provider).cursor == 0,
        balancer.with_pool(provider, pool).pools.len() == balancer.pools.len() + 1,
        balancer.with_pool(provider, pool).pools.last() == (provider, pool),
        balancer.with_pool(provider, pool).pools.drop_last() == balancer.pools,
        balancer.with_pool(provider, pool).default_strategy == balancer.default_strategy,
{
    lemma_pool_position(balancer.pools, provider);
    assert(balancer.with_pool(provider, pool).pools.drop_last() =~= balancer.pools);
}

/// What is seen of lists of pools and of readings is what they hold.
pub proof fn law_lists_show_their_pools(
    entries: Seq<PoolEntry>,
    reads: Seq<PoolReads>,
    i: int,
)
    ensures
        entry_views(entries).len() == entries.len(),
        entry_clocks(entries).len() == entries.len(),
        reads_views(reads).len() == reads.len(),
        0 <= i < entries.len() ==> entry_views(entries)[i].0 == entries[i].provider
            && entry_views(entries)[i].1 == entries[i].pool@ && entry_clocks(entries)[i]
            == entries[i].pool.key_clocks(),
        0 <= i < reads.len() ==> reads_views(reads)[i].times == reads[i].times@ && reads_views(
            reads,
        )[i].random == reads[i].random,
{
}

/// A key that is handed out is the balancer's own: it is the one at its place, with the
/// clock that is kept there, and what it is when it is given back is what stands at that
/// place afterwards.
pub proof fn law_handed_out_key_is_the_balancers(
    balancer: BalancerView,
    clocks: Seq<Seq<Clock>>,
    i: int,
    k: int,
    key: (KeyView, Clock),
    left: (KeyView, Clock),
    after: (BalancerView, Seq<Seq<Clock>>),
)
    requires
        handed_out_of(balancer, clocks, i, k, key, left, after),
    ensures
        0 <= i < balancer.pools.len(),
        0 <= k < balancer.pools[i].1.keys.len(),
        key.0 == balancer.pools[i].1.keys[k],
        key.1 == clocks[i][k],
        after.0 == balancer.with_key(i, k, left.0),
        after.0.pools[i].1.keys[k] == left.0,
        after.1[i][k] == left.1,
{
}

/// The pool of a provider is the one that is kept under it, and one that is there is
/// taken as it is.
pub proof fn law_pool_is_found(balancer: BalancerView, i: int, pool: PoolView)
    requires
        balancer.distinct(),
        0 <= i < balancer.pools.len(),
    ensures
        balancer.pool_of(balancer.pools[i].0) == Some(balancer.pools[i].1),
        balancer.pool_or_new(balancer.pools[i].0) == balancer.pools[i].1,
        balancer.with_pool(balancer.pools[i].0, pool).pools == balancer.pools.update(
            i,
            (balancer.pools[i].0, pool),
        ),
        balancer.with_pool(balancer.pools[i].0, pool).default_strategy
            == balancer.default_strategy,
{
    lemma_pool_position_unique(balancer, i);
}

/// A provider has a key of an id exactly if a key of that id stands in the pool that is
/// kept under the provider.
pub proof fn law_has_key(balancer: BalancerView, provider: Provider, id: Seq<char>)
    requires
        balancer.distinct(),
    ensures
        balancer.has_key(provider, id) <==> exists|i: int, k: int|
            #![trigger balancer.pools[i].1.keys[k]]
            0 <= i < balancer.pools.len() && balancer.pools[i].0 == provider && 0 <= k
                < balancer.pools[i].1.keys.len() && balancer.pools[i].1.keys[k].id == id,
{
    lemma_pool_position(balancer.pools, provider);
    match pool_position(balancer.pools, provider) {
        Some(i) => {
            lemma_position(balancer.pools[i].1.keys, id);
            if let Some(k) = position_of(balancer.pools[i].1.keys, id) {
                assert(balancer.pools[i].1.keys[k].id == id);
            }
            assert forall|j: int, k: int|
                #![trigger balancer.pools[j].1.keys[k]]
                0 <= j < balancer.pools.len() && balancer.pools[j].0 == provider && 0 <= k
                    < balancer.pools[j].1.keys.len() && balancer.pools[j].1.keys[k].id
                    == id implies balancer.has_key(provider, id) by {
                lemma_pool_position_unique(balancer, j);
            }
        },
        None => {},
    }
}

/// The clock of a key of a provider is the one that the first key of that id, in the pool
/// that is kept under the provider, has for its own.
pub proof fn law_clock_of_a_key(
    balancer: LoadBalancer,
    provider: Provider,
    id: Seq<char>,
    i: int,
    k: int,
)
    requires
        balancer@.distinct(),
        0 <= i < balancer@.pools.len(),
        balancer@.pools[i].0 == provider,
        0 <= k < balancer@.pools[i].1.keys.len(),
        balancer@.pools[i].1.keys[k].id == id,
        forall|j: int| 0 <= j < k ==> (#[trigger] balancer@.pools[i].1.keys[j]).id != id,
    ensures
        balancer.clock_of_key(provider, id) == balancer.key_clocks()[i][k],
{
    law_the_right_key_is_reached(balancer@, provider, id, 0, 0, 0, i, k);
}

/// What is seen of a balancer is what it holds, field by field; and the clock that is
/// kept at a place is the own clock of the key that stands there.
pub(crate) proof fn law_balancer_shows_its_fields(balancer: LoadBalancer, i: int, k: int)
    ensures
        balancer@.default_strategy == balancer.default_strategy,
        balancer@.pools.len() == balancer.entries@.len(),
        balancer.key_clocks().len() == balancer.entries@.len(),
        0 <= i < balancer.entries@.len() ==> {
            let entry = balancer.entries@[i];
            &&& balancer@.pools[i] == (entry.provider, entry.pool@)
            &&& balancer.key_clocks()[i] == entry.pool.key_clocks()
            &&& 0 <= k < entry.pool.keys@.len() ==> balancer@.pools[i].1.keys[k]
                == entry.pool.keys@[k]@ && balancer.key_clocks()[i][k]
                == entry.pool.keys@[k].clock
        },
{
}

/// Readings that can be taken for the pools of a balancer: one reading for each key of
/// each pool, none beyond what a clock can show, and a drawn number for each pool; and
/// those that were taken from the keys' clocks were each read from the clock of that key.
pub proof fn law_readings_of_all_pools(
    pools: Seq<(Provider, PoolView)>,
    clocks: Seq<Seq<Clock>>,
    reads: Seq<PoolReadsView>,
    i: int,
    k: int,
)
    requires
        reads_taken(pools, reads),
        reads_from(clocks, reads),
        0 <= i < pools.len(),
        0 <= k < pools[i].1.keys.len(),
    ensures
        reads.len() == pools.len() == clocks.len(),
        reads[i].times.len() == pools[i].1.keys.len() == clocks[i].len(),
        reads[i].times[k] <= MAX_NANOS,
        is_reading(clocks[i][k], reads[i].times[k]),
        drawn(reads[i].random),
{
    assert(reads[i].times.len() == pools[i].1.keys.len());
    assert(taken_from(clocks[i], reads[i].times));
    law_each_time_from_its_clock(clocks[i], reads[i].times, k);
    assert(readings(reads[i].times));
}

} // verus!
