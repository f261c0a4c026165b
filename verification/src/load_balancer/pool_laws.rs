//! What holds of every pool.

#![allow(unused_imports)]

use crate::clock::MAX_NANOS;
use crate::clock::Clock;
use crate::load_balancer::key_info::{
    backoff_factor, KeyInfo, KeyState, KeyView, RotationStrategy,
};
use crate::load_balancer::key_laws::{
    law_failed_key_rests, law_rate_limit, law_refused_key_is_limited, law_what_looking_leaves,
    law_what_sending_leaves, law_when_a_key_says_yes,
};
use crate::load_balancer::key_pool::{
    asked, at_positions, candidates, clocks_at, clocks_of, first_least, handed_out, key_views,
    latencies, lemma_candidates, lemma_first_least, lemma_pick_member, lemma_weighted_pick,
    limited_positions, position_of, positions, ref_clocks, ref_views, total_weight, usages,
    weighted_pick, weights_usable, Choice, KeyPool, PoolView,
};
use crate::load_balancer::PoolReadsView;
use vstd::prelude::*;

verus! {

/// A key says yes to a request at its time.
pub open spec fn says_yes(
    pool: PoolView,
    i: int,
    model: Option<Seq<char>>,
    times: Seq<u128>,
) -> bool {
    pool.keys[i].availability_for(model, times[i]).1
}

/// There is one reading of the clock for each key, and no more keys than a list
/// can hold.
pub open spec fn fits(pool: PoolView, times: Seq<u128>) -> bool {
    times.len() == pool.keys.len() <= usize::MAX
}

/// Whatever the strategy, a key that is chosen may be used: it does not rest, it
/// serves the model, and there is room in its quota. The request is counted against
/// the chosen key, which is marked as used; of every other key only the window is
/// looked at, and so it is if no key is chosen.
pub proof fn law_chosen_key_may_be_used(
    pool: PoolView,
    model: Option<Seq<char>>,
    times: Seq<u128>,
    random: u32,
)
    requires
        fits(pool, times),
    ensures
        ({
            let (after, choice) = pool.choose_key(model, times, random);
            &&& choice matches Choice::Key(i) ==> {
                &&& i < pool.keys.len()
                &&& says_yes(pool, i as int, model, times)
                &&& !pool.keys[i as int].cooling(times[i as int])
                &&& model matches Some(m) ==> pool.keys[i as int].serves(m)
                &&& pool.keys[i as int].rate_check(times[i as int]).1
                &&& after.keys == pool.looked_at(times).keys.update(
                    i as int,
                    pool.keys[i as int].rate_check(times[i as int]).0.used(times[i as int]),
                )
            }
            &&& choice !is Key ==> after == pool.looked_at(times)
        }),
{
    let among = candidates(pool.keys, model, times);
    lemma_candidates(pool.keys, model, times);
    let (after, choice) = pool.choose_key(model, times, random);
    if choice is Key {
        let i = pool.pick(among, random);
        lemma_pick_member(pool, among, random);
        let j = choose|j: int| 0 <= j < among.len() && among[j] == i;
        assert(0 <= among[j] < pool.keys.len());
    }
}

/// A request finds no key exactly when every key says no. With any other strategy
/// than the weighted draw, and with usable weights, it otherwise gets a key.
pub proof fn law_served_iff_some_key_says_yes(
    pool: PoolView,
    model: Option<Seq<char>>,
    times: Seq<u128>,
    random: u32,
)
    requires
        fits(pool, times),
    ensures
        ({
            let choice = pool.choose_key(model, times, random).1;
            &&& choice is NoKeys <==> (forall|i: int|
                0 <= i < pool.keys.len() ==> !#[trigger] says_yes(pool, i, model, times))
            &&& pool.can_choose(model, times) ==> choice !is Unweighted
            &&& !(pool.strategy is WeightedRandom) ==> pool.can_choose(model, times)
        }),
{
    let among = candidates(pool.keys, model, times);
    lemma_candidates(pool.keys, model, times);
    if among.len() > 0 {
        let i = among[0];
        assert(says_yes(pool, i, model, times));
    } else {
        assert forall|i: int| 0 <= i < pool.keys.len() implies !#[trigger] says_yes(
            pool,
            i,
            model,
            times,
        ) by {
            if says_yes(pool, i, model, times) {
                assert(among.contains(i));
            }
        }
    }
}

/// A pool whose keys have all spent their quotas serves no request.
pub proof fn law_all_limited_serves_nothing(
    pool: PoolView,
    model: Option<Seq<char>>,
    times: Seq<u128>,
    random: u32,
)
    requires
        fits(pool, times),
        pool.all_limited(times),
    ensures
        pool.choose_key(model, times, random).1 is NoKeys,
        pool.ask_until_yes(times).1,
{
    law_served_iff_some_key_says_yes(pool, model, times, random);
    assert forall|i: int| 0 <= i < pool.keys.len() implies !#[trigger] says_yes(
        pool,
        i,
        model,
        times,
    ) by {
        assert(pool.keys[i].rate_limited(times[i]));
    }
}

/// A pool whose keys are all unavailable serves no request at that moment, and
/// one with an available key serves a request for any model.
pub proof fn law_unavailable_iff_nothing_served(pool: PoolView, times: Seq<u128>, random: u32)
    requires
        fits(pool, times),
        pool.keys.len() > 0,
    ensures
        pool.ask_until_yes(times).1 == (pool.choose_key(None, times, random).1 is NoKeys),
{
    law_served_iff_some_key_says_yes(pool, None, times, random);
    if pool.yes_before(pool.keys.len() as int, times) {
        let j = choose|j: int|
            0 <= j < pool.keys.len() && (#[trigger] pool.keys[j]).availability(times[j]).1;
        assert(says_yes(pool, j, None, times));
    } else {
        assert forall|i: int| 0 <= i < pool.keys.len() implies !#[trigger] says_yes(
            pool,
            i,
            None,
            times,
        ) by {
            assert(!pool.keys[i].availability(times[i]).1);
        }
    }
}

/// The least-used strategy chooses the first of the keys that were selected
/// least often among those that say yes.
pub proof fn law_least_used(
    pool: PoolView,
    model: Option<Seq<char>>,
    times: Seq<u128>,
    random: u32,
    other: int,
)
    requires
        fits(pool, times),
        pool.strategy is LeastUsed,
        0 <= other < pool.keys.len(),
        says_yes(pool, other, model, times),
    ensures
        ({
            let choice = pool.choose_key(model, times, random).1;
            &&& choice is Key
            &&& pool.keys[choice->Key_0 as int].state.usage_count
                <= pool.keys[other].state.usage_count
            &&& other < choice->Key_0 ==> pool.keys[choice->Key_0 as int].state.usage_count
                < pool.keys[other].state.usage_count
        }),
{
    lemma_least_ranked(usages(pool.keys), pool, model, times, other);
    law_chosen_key_may_be_used(pool, model, times, random);
}

/// The first of the least ranks among those that say yes, held against another.
proof fn lemma_least_ranked(
    ranks: Seq<u64>,
    pool: PoolView,
    model: Option<Seq<char>>,
    times: Seq<u128>,
    other: int,
)
    requires
        fits(pool, times),
        0 <= other < pool.keys.len(),
        says_yes(pool, other, model, times),
    ensures
        ({
            let among = candidates(pool.keys, model, times);
            let picked = first_least(ranks, among);
            &&& among.len() > 0
            &&& 0 <= picked < pool.keys.len()
            &&& ranks[picked] <= ranks[other]
            &&& other < picked ==> ranks[picked] < ranks[other]
        }),
{
    let among = candidates(pool.keys, model, times);
    lemma_candidates(pool.keys, model, times);
    assert(among.contains(other));
    lemma_first_least(ranks, among);
    let k = choose|k: int| 0 <= k < among.len() && among[k] == other;
    let picked = first_least(ranks, among);
    let j = choose|j: int|
        0 <= j < among.len() && #[trigger] among[j] == picked && (forall|k: int|
            0 <= k < j ==> ranks[#[trigger] among[k]] > ranks[among[j]]);
    assert(ranks[among[k]] >= ranks[picked]);
}

/// The latency-based strategy chooses the first of the keys that responded fastest
/// among those that say yes. A key that has not been measured counts as the fastest
/// there can be.
pub proof fn law_fastest(
    pool: PoolView,
    model: Option<Seq<char>>,
    times: Seq<u128>,
    random: u32,
    other: int,
)
    requires
        fits(pool, times),
        pool.strategy is LatencyBased,
        0 <= other < pool.keys.len(),
        says_yes(pool, other, model, times),
    ensures
        ({
            let choice = pool.choose_key(model, times, random).1;
            &&& choice is Key
            &&& pool.keys[choice->Key_0 as int].latency() <= pool.keys[other].latency()
            &&& other < choice->Key_0 ==> pool.keys[choice->Key_0 as int].latency()
                < pool.keys[other].latency()
        }),
{
    lemma_least_ranked(latencies(pool.keys), pool, model, times, other);
    law_chosen_key_may_be_used(pool, model, times, random);
}

/// With the latency-based strategy, a key whose last response was slower than that
/// of another key that says yes is not chosen.
pub proof fn law_slow_key_gives_way(
    pool: PoolView,
    id: Seq<char>,
    nanos: u64,
    model: Option<Seq<char>>,
    times: Seq<u128>,
    random: u32,
    other: int,
)
    requires
        fits(pool, times),
        pool.strategy is LatencyBased,
        0 <= other < pool.keys.len(),
        says_yes(pool, other, model, times),
        pool.keys[other].latency() < nanos,
        position_of(pool.keys, id) != Some(other),
    ensures
        position_of(pool.keys, id) matches Some(i) ==> pool.key_timed(id, nanos).choose_key(
            model,
            times,
            random,
        ).1 != Choice::Key(i as usize),
{
    lemma_position(pool.keys, id);
    if let Some(i) = position_of(pool.keys, id) {
        let after = pool.key_timed(id, nanos);
        assert(after.keys[other] == pool.keys[other]);
        assert(after.keys[i].latency() == nanos);
        law_fastest(after, model, times, random, other);
        law_chosen_key_may_be_used(after, model, times, random);
    }
}

/// To note how long a response took leaves all other keys, and the rest of the
/// pool, as they are, and decides nothing about which keys may serve a request.
pub proof fn law_timing_touches_one_key(
    pool: PoolView,
    id: Seq<char>,
    nanos: u64,
    model: Option<Seq<char>>,
    times: Seq<u128>,
)
    ensures
        ({
            let after = pool.key_timed(id, nanos);
            &&& after == PoolView { keys: after.keys, ..pool }
            &&& after.keys.len() == pool.keys.len()
            &&& forall|j: int|
                0 <= j < pool.keys.len() && position_of(pool.keys, id) != Some(j)
                    ==> #[trigger] after.keys[j] == pool.keys[j]
            &&& forall|j: int|
                0 <= j < pool.keys.len() ==> #[trigger] says_yes(after, j, model, times)
                    == says_yes(pool, j, model, times)
        }),
{
    lemma_position(pool.keys, id);
}

/// The weighted draw is fair: of all draws below the total weight, a key is hit
/// by exactly as many as its weight says, those of its own stretch. So a key of
/// weight zero is never hit.
pub proof fn law_weighted_draw(keys: Seq<KeyView>, among: Seq<int>, draw: int, n: int)
    requires
        among.no_duplicates(),
        0 <= draw < total_weight(keys, among),
        0 <= n < among.len(),
    ensures
        weighted_pick(keys, among, draw) == among[n] <==> total_weight(keys, among.take(n))
            <= draw < total_weight(keys, among.take(n + 1)),
        total_weight(keys, among.take(n + 1)) == total_weight(keys, among.take(n))
            + keys[among[n]].weight,
{
    assert(among.take(n + 1).drop_last() =~= among.take(n));
    let m = lemma_stretch_of(keys, among, draw);
    lemma_weighted_pick(keys, among, draw, m);
    if total_weight(keys, among.take(n)) <= draw < total_weight(keys, among.take(n + 1)) {
        lemma_weighted_pick(keys, among, draw, n);
    }
}

/// The stretch that a draw lies in.
proof fn lemma_stretch_of(keys: Seq<KeyView>, among: Seq<int>, draw: int) -> (n: int)
    requires
        0 <= draw < total_weight(keys, among),
    ensures
        0 <= n < among.len(),
        total_weight(keys, among.take(n)) <= draw < total_weight(keys, among.take(n + 1)),
    decreases among.len(),
{
    let rest = among.drop_last();
    assert(among.take(among.len() as int) =~= among);
    assert(among.take(among.len() - 1) =~= rest);
    if draw >= total_weight(keys, rest) {
        among.len() - 1
    } else {
        let n = lemma_stretch_of(keys, rest, draw);
        assert(rest.take(n) =~= among.take(n));
        assert(rest.take(n + 1) =~= among.take(n + 1));
        n
    }
}

/// The weighted strategy draws among the keys that say yes by the random number
/// that it is given, and never chooses a key of weight zero.
pub proof fn law_weighted_strategy(
    pool: PoolView,
    model: Option<Seq<char>>,
    times: Seq<u128>,
    random: u32,
)
    requires
        fits(pool, times),
        pool.strategy is WeightedRandom,
        pool.can_choose(model, times),
    ensures
        ({
            let among = candidates(pool.keys, model, times);
            let choice = pool.choose_key(model, times, random).1;
            choice matches Choice::Key(i) ==> {
                let draw = random as int % total_weight(pool.keys, among) as int;
                &&& pool.keys[i as int].weight > 0
                &&& exists|n: int|
                    0 <= n < among.len() && #[trigger] among[n] == i && total_weight(
                        pool.keys,
                        among.take(n),
                    ) <= draw < total_weight(pool.keys, among.take(n)) + pool.keys[i as int].weight
            }
        }),
{
    let among = candidates(pool.keys, model, times);
    let choice = pool.choose_key(model, times, random).1;
    lemma_candidates(pool.keys, model, times);
    if choice is Key {
        let total = total_weight(pool.keys, among) as int;
        let draw = random as int % total;
        assert(0 <= draw < total) by (nonlinear_arith)
            requires
                total > 0,
                draw == random as int % total,
        ;
        let n = lemma_stretch_of(pool.keys, among, draw);
        lemma_weighted_pick(pool.keys, among, draw, n);
        assert(among.take(n + 1).drop_last() =~= among.take(n));
        assert(0 <= among[n] < pool.keys.len());
    }
}

/// The readings of a run of requests all lie before a time of the clock of the key at
/// position `i`.
pub open spec fn all_before(i: int, reads: Seq<PoolReadsView>, end: int) -> bool {
    forall|r: int| 0 <= r < reads.len() ==> (#[trigger] reads[r]).times[i] < end
}

/// A key that has failed is not chosen before its cooldown is over, by however many
/// requests.
pub proof fn law_failed_key_is_passed_over(
    pool: PoolView,
    id: Seq<char>,
    cooldown: u128,
    now: u128,
    model: Option<Seq<char>>,
    reads: Seq<PoolReadsView>,
)
    requires
        all_fit(pool, reads),
        cooldown <= MAX_NANOS,
        now <= MAX_NANOS,
    ensures
        position_of(pool.keys, id) matches Some(i) ==> {
            let end = now + cooldown * backoff_factor(pool.keys[i].state.backoff);
            let choices = serve(pool.key_failed(id, cooldown, now), model, reads).1;
            all_before(i, reads, end) ==> times_chosen(choices, i) == 0
        },
{
    lemma_position(pool.keys, id);
    if let Some(i) = position_of(pool.keys, id) {
        let failed = pool.key_failed(id, cooldown, now);
        let end = now + cooldown * backoff_factor(pool.keys[i].state.backoff);
        if all_before(i, reads, end) {
            assert forall|r: int| 0 <= r < reads.len() implies fits(
                failed,
                (#[trigger] reads[r]).times,
            ) && failed.keys[i].cooling(reads[r].times[i]) by {
                assert(fits(pool, reads[r].times));
                law_failed_key_rests(pool.keys[i], cooldown, now, reads[r].times[i]);
            }
            lemma_resting_run(failed, model, reads, i);
        }
    }
}

/// A key that rests at all readings of a run of requests is never chosen, and rests as
/// long as before.
proof fn lemma_resting_run(
    pool: PoolView,
    model: Option<Seq<char>>,
    reads: Seq<PoolReadsView>,
    i: int,
)
    requires
        all_fit(pool, reads),
        0 <= i < pool.keys.len(),
        forall|r: int|
            0 <= r < reads.len() ==> pool.keys[i].cooling((#[trigger] reads[r]).times[i]),
    ensures
        ({
            let (after, choices) = serve(pool, model, reads);
            &&& after.keys.len() == pool.keys.len()
            &&& after.keys[i].state.cooldown_until == pool.keys[i].state.cooldown_until
            &&& times_chosen(choices, i) == 0
        }),
    decreases reads.len(),
{
    if reads.len() > 0 {
        let rest = reads.drop_last();
        let last = reads.len() - 1;
        assert forall|r: int| 0 <= r < rest.len() implies fits(pool, (#[trigger] rest[r]).times)
            && pool.keys[i].cooling(rest[r].times[i]) by {
            assert(rest[r] == reads[r]);
        }
        lemma_resting_run(pool, model, rest, i);
        let (before, choices) = serve(pool, model, rest);
        assert(fits(pool, reads[last].times));
        assert(pool.keys[i].cooling(reads[last].times[i]));
        lemma_choice_and_key(before, model, reads[last].times, reads[last].random, i);
        let (after, all) = serve(pool, model, reads);
        assert(all.drop_last() =~= choices);
    }
}

/// A key is found by its id at the first place where it stands.
pub proof fn lemma_position(keys: Seq<KeyView>, id: Seq<char>)
    ensures
        match position_of(keys, id) {
            Some(i) => 0 <= i < keys.len() && keys[i].id == id && forall|j: int|
                0 <= j < i ==> (#[trigger] keys[j]).id != id,
            None => forall|j: int| 0 <= j < keys.len() ==> (#[trigger] keys[j]).id != id,
        },
    decreases keys.len(),
{
    if keys.len() > 0 {
        let rest = keys.drop_last();
        lemma_position(rest, id);
        match position_of(rest, id) {
            Some(i) => {
                assert(rest[i] == keys[i]);
                assert forall|j: int| 0 <= j < i implies (#[trigger] keys[j]).id != id by {
                    assert(rest[j] == keys[j]);
                }
            },
            None => {
                assert forall|j: int| 0 <= j < rest.len() implies (#[trigger] keys[j]).id
                    != id by {
                    assert(rest[j] == keys[j]);
                }
            },
        }
    }
}

/// The failure of a key leaves all other keys, and the rest of the pool, as they
/// are; an unknown id changes nothing.
pub proof fn law_failure_touches_one_key(
    pool: PoolView,
    id: Seq<char>,
    cooldown: u128,
    now: u128,
)
    ensures
        ({
            let after = pool.key_failed(id, cooldown, now);
            &&& after == PoolView { keys: after.keys, ..pool }
            &&& after.keys.len() == pool.keys.len()
            &&& forall|j: int|
                0 <= j < pool.keys.len() && position_of(pool.keys, id) != Some(j)
                    ==> #[trigger] after.keys[j] == pool.keys[j]
            &&& (forall|j: int| 0 <= j < pool.keys.len() ==> (#[trigger] pool.keys[j]).id != id)
                ==> after == pool
        }),
{
    lemma_position(pool.keys, id);
    if let Some(i) = position_of(pool.keys, id) {
        assert(pool.keys[i].id == id);
    }
}

/// Requests are served one after the other, each with its own readings: what
/// becomes of the pool, and what each request got.
pub open spec fn serve(
    pool: PoolView,
    model: Option<Seq<char>>,
    reads: Seq<PoolReadsView>,
) -> (PoolView, Seq<Choice>)
    decreases reads.len(),
{
    if reads.len() == 0 {
        (pool, Seq::empty())
    } else {
        let (before, choices) = serve(pool, model, reads.drop_last());
        let (after, choice) = before.choose_key(model, reads.last().times, reads.last().random);
        (after, choices.push(choice))
    }
}

/// How many requests got the key at position `i`.
pub open spec fn times_chosen(choices: Seq<Choice>, i: int) -> nat
    decreases choices.len(),
{
    if choices.len() == 0 {
        0
    } else {
        let before = times_chosen(choices.drop_last(), i);
        if choices.last() == Choice::Key(i as usize) {
            before + 1
        } else {
            before
        }
    }
}

/// Every request has one reading for each key.
pub open spec fn all_fit(pool: PoolView, reads: Seq<PoolReadsView>) -> bool {
    forall|r: int| 0 <= r < reads.len() ==> fits(pool, (#[trigger] reads[r]).times)
}

/// What a request does to a key that it does not get, and to one that it gets.
pub proof fn lemma_choice_and_key(
    pool: PoolView,
    model: Option<Seq<char>>,
    times: Seq<u128>,
    random: u32,
    i: int,
)
    requires
        fits(pool, times),
        0 <= i < pool.keys.len(),
    ensures
        ({
            let (after, choice) = pool.choose_key(model, times, random);
            &&& after.keys.len() == pool.keys.len()
            &&& after.strategy == pool.strategy
            &&& choice == Choice::Key(i as usize) ==> says_yes(pool, i, model, times)
                && after.keys[i] == pool.keys[i].sent(times[i])
            &&& choice != Choice::Key(i as usize) ==> after.keys[i] == pool.keys[i].looked_at(
                times[i],
            )
        }),
{
    law_chosen_key_may_be_used(pool, model, times, random);
}

/// What is left of a key's quota in its window.
pub open spec fn quota_left(key: KeyView, max: u32) -> int {
    if key.state.window_requests < max {
        max - key.state.window_requests
    } else {
        0
    }
}

/// The readings of a run of requests all lie in the present window of a key.
pub open spec fn in_window(key: KeyView, i: int, reads: Seq<PoolReadsView>) -> bool {
    forall|r: int| 0 <= r < reads.len() ==> !key.window_over((#[trigger] reads[r]).times[i])
}

/// A quota counts the requests that were sent with the key, whatever the strategy:
/// over any run of requests in one window, the count of a key grows by exactly the
/// number of times that the key was handed out, and so it is handed out no more
/// often than what is left of its quota.
pub proof fn law_quota_holds(
    pool: PoolView,
    model: Option<Seq<char>>,
    reads: Seq<PoolReadsView>,
    i: int,
    max: u32,
)
    requires
        all_fit(pool, reads),
        0 <= i < pool.keys.len(),
        pool.keys[i].max_rpm == Some(max),
        in_window(pool.keys[i], i, reads),
    ensures
        ({
            let (after, choices) = serve(pool, model, reads);
            &&& after.keys[i].state.window_requests == pool.keys[i].state.window_requests
                + times_chosen(choices, i)
            &&& times_chosen(choices, i) <= quota_left(pool.keys[i], max)
        }),
{
    lemma_quota_run(pool, model, reads, i, max);
}

proof fn lemma_quota_run(
    pool: PoolView,
    model: Option<Seq<char>>,
    reads: Seq<PoolReadsView>,
    i: int,
    max: u32,
)
    requires
        all_fit(pool, reads),
        0 <= i < pool.keys.len(),
        pool.keys[i].max_rpm == Some(max),
        in_window(pool.keys[i], i, reads),
    ensures
        ({
            let (after, choices) = serve(pool, model, reads);
            let (key, left) = (pool.keys[i], after.keys[i]);
            &&& after.keys.len() == pool.keys.len()
            &&& left == KeyView { state: left.state, ..key }
            &&& left.state.window_start == key.state.window_start
            &&& left.state.cooldown_until == key.state.cooldown_until
            &&& left.state.window_requests == key.state.window_requests + times_chosen(
                choices,
                i,
            )
            &&& times_chosen(choices, i) <= quota_left(key, max)
        }),
    decreases reads.len(),
{
    if reads.len() > 0 {
        let rest = reads.drop_last();
        let last = reads.len() - 1;
        assert forall|r: int| 0 <= r < rest.len() implies fits(pool, (#[trigger] rest[r]).times)
            && !pool.keys[i].window_over(rest[r].times[i]) by {
            assert(rest[r] == reads[r]);
        }
        lemma_quota_run(pool, model, rest, i, max);
        let (before, choices) = serve(pool, model, rest);
        assert(fits(pool, reads[last].times));
        assert(!pool.keys[i].window_over(reads[last].times[i]));
        lemma_choice_and_key(before, model, reads[last].times, reads[last].random, i);
        let (after, all) = serve(pool, model, reads);
        assert(all.drop_last() =~= choices);
    }
}

/// A key is passed over only for a reason. When, after a run of requests, one finds
/// no key, then every key that serves its model and does not rest has been handed
/// out as often as its quota allowed.
pub proof fn law_no_key_only_when_all_are_spent(
    pool: PoolView,
    model: Option<Seq<char>>,
    reads: Seq<PoolReadsView>,
    next: PoolReadsView,
    i: int,
    max: u32,
)
    requires
        all_fit(pool, reads),
        fits(pool, next.times),
        0 <= i < pool.keys.len(),
        pool.keys[i].max_rpm == Some(max),
        in_window(pool.keys[i], i, reads.push(next)),
        !pool.keys[i].cooling(next.times[i]),
        model matches Some(m) ==> pool.keys[i].serves(m),
    ensures
        ({
            let (after, choices) = serve(pool, model, reads);
            after.choose_key(model, next.times, next.random).1 is NoKeys ==> times_chosen(
                choices,
                i,
            ) == quota_left(pool.keys[i], max)
        }),
{
    let all = reads.push(next);
    assert forall|r: int| 0 <= r < reads.len() implies !pool.keys[i].window_over(
        (#[trigger] reads[r]).times[i],
    ) by {
        assert(all[r] == reads[r]);
    }
    assert(!pool.keys[i].window_over(all[reads.len() as int].times[i]));
    lemma_quota_run(pool, model, reads, i, max);
    let (after, choices) = serve(pool, model, reads);
    law_served_iff_some_key_says_yes(after, model, next.times, next.random);
    if after.choose_key(model, next.times, next.random).1 is NoKeys {
        assert(!says_yes(after, i, model, next.times));
    }
}

/// A run of requests adds and drops no key, and leaves a key that was never handed out
/// as it was, but for its window, in which nothing more is counted.
pub proof fn law_unused_key_is_not_charged(
    pool: PoolView,
    model: Option<Seq<char>>,
    reads: Seq<PoolReadsView>,
    i: int,
)
    requires
        all_fit(pool, reads),
        0 <= i < pool.keys.len(),
    ensures
        ({
            let (after, choices) = serve(pool, model, reads);
            &&& after.keys.len() == pool.keys.len()
            &&& times_chosen(choices, i) == 0 ==> after.keys[i] == (KeyView {
                state: KeyState {
                    window_start: after.keys[i].state.window_start,
                    window_requests: after.keys[i].state.window_requests,
                    ..pool.keys[i].state
                },
                ..pool.keys[i]
            }) && after.keys[i].state.window_requests <= pool.keys[i].state.window_requests
        }),
    decreases reads.len(),
{
    if reads.len() > 0 {
        let rest = reads.drop_last();
        let last = reads.len() - 1;
        assert forall|r: int| 0 <= r < rest.len() implies fits(
            pool,
            (#[trigger] rest[r]).times,
        ) by {
            assert(rest[r] == reads[r]);
        }
        law_unused_key_is_not_charged(pool, model, rest, i);
        let (before, choices) = serve(pool, model, rest);
        assert(fits(pool, reads[last].times));
        lemma_choice_and_key(before, model, reads[last].times, reads[last].random, i);
        let (after, all) = serve(pool, model, reads);
        assert(all.drop_last() =~= choices);
    }
}

/// The keys of the pool say yes to a run of requests: none has a quota, all serve the
/// model, and none rests at its readings.
pub open spec fn free_at(
    pool: PoolView,
    model: Option<Seq<char>>,
    reads: Seq<PoolReadsView>,
) -> bool {
    &&& forall|i: int|
        0 <= i < pool.keys.len() ==> (#[trigger] pool.keys[i]).max_rpm is None && (
        model matches Some(m) ==> pool.keys[i].serves(m))
    &&& forall|r: int, i: int|
        #![trigger reads[r].times[i]]
        0 <= r < reads.len() && 0 <= i < pool.keys.len() ==> !pool.keys[i].cooling(
            reads[r].times[i],
        )
}

proof fn lemma_all_candidates(keys: Seq<KeyView>, model: Option<Seq<char>>, times: Seq<u128>)
    requires
        forall|i: int|
            0 <= i < keys.len() ==> (#[trigger] keys[i]).availability_for(model, times[i]).1,
    ensures
        candidates(keys, model, times) == Seq::new(keys.len(), |i: int| i),
    decreases keys.len(),
{
    if keys.len() > 0 {
        let rest = keys.drop_last();
        assert forall|i: int| 0 <= i < rest.len() implies (#[trigger] rest[i]).availability_for(
            model,
            times[i],
        ).1 by {
            assert(rest[i] == keys[i]);
        }
        lemma_all_candidates(rest, model, times);
        assert(keys[keys.len() - 1].availability_for(model, times[keys.len() - 1]).1);
    }
    assert(candidates(keys, model, times) =~= Seq::new(keys.len(), |i: int| i));
}

/// The rotation: in a pool whose keys are all free at the time, consecutive requests
/// get the keys in their order, round and round. (The count of turns must not pass
/// `usize::MAX`, where it starts over at zero.)
pub proof fn law_rotation(pool: PoolView, model: Option<Seq<char>>, reads: Seq<PoolReadsView>)
    requires
        all_fit(pool, reads),
        0 < pool.keys.len() <= usize::MAX,
        pool.strategy is RoundRobin,
        free_at(pool, model, reads),
        pool.cursor + reads.len() <= usize::MAX,
    ensures
        ({
            let choices = serve(pool, model, reads).1;
            &&& choices.len() == reads.len()
            &&& forall|r: int|
                0 <= r < reads.len() ==> #[trigger] choices[r] == Choice::Key(
                    ((pool.cursor + r) % pool.keys.len() as int) as usize,
                )
        }),
{
    lemma_rotation_run(pool, model, reads);
}

proof fn lemma_rotation_run(
    pool: PoolView,
    model: Option<Seq<char>>,
    reads: Seq<PoolReadsView>,
)
    requires
        all_fit(pool, reads),
        0 < pool.keys.len() <= usize::MAX,
        pool.strategy is RoundRobin,
        free_at(pool, model, reads),
        pool.cursor + reads.len() <= usize::MAX,
    ensures
        ({
            let (after, choices) = serve(pool, model, reads);
            &&& after.keys.len() == pool.keys.len()
            &&& after.strategy == pool.strategy
            &&& after.cursor == pool.cursor + reads.len()
            &&& forall|i: int|
                0 <= i < pool.keys.len() ==> (#[trigger] after.keys[i]).max_rpm
                    == pool.keys[i].max_rpm && after.keys[i].models == pool.keys[i].models
                    && after.keys[i].state.cooldown_until == pool.keys[i].state.cooldown_until
            &&& choices.len() == reads.len()
            &&& forall|r: int|
                0 <= r < reads.len() ==> #[trigger] choices[r] == Choice::Key(
                    ((pool.cursor + r) % pool.keys.len() as int) as usize,
                )
        }),
    decreases reads.len(),
{
    if reads.len() > 0 {
        let rest = reads.drop_last();
        let last = reads.len() - 1;
        assert forall|r: int| 0 <= r < rest.len() implies fits(
            pool,
            (#[trigger] rest[r]).times,
        ) by {
            assert(rest[r] == reads[r]);
        }
        assert forall|r: int, i: int|
            #![trigger rest[r].times[i]]
            0 <= r < rest.len() && 0 <= i < pool.keys.len() implies !pool.keys[i].cooling(
            rest[r].times[i],
        ) by {
            assert(rest[r] == reads[r]);
            assert(!pool.keys[i].cooling(reads[r].times[i]));
        }
        lemma_rotation_run(pool, model, rest);
        let (before, choices) = serve(pool, model, rest);
        let times = reads[last].times;
        let random = reads[last].random;
        assert(fits(pool, times));
        assert forall|i: int| 0 <= i < before.keys.len() implies (
        #[trigger] before.keys[i]).availability_for(model, times[i]).1 by {
            assert(pool.keys[i].max_rpm is None);
            assert(!pool.keys[i].cooling(reads[last].times[i]));
        }
        lemma_all_candidates(before.keys, model, times);
        let turn = before.cursor as int % before.keys.len() as int;
        assert(0 <= turn < before.keys.len());
        let (after, choice) = before.choose_key(model, times, random);
        assert(choice == Choice::Key(turn as usize));
        assert forall|i: int| 0 <= i < pool.keys.len() implies (#[trigger] after.keys[i]).max_rpm
            == pool.keys[i].max_rpm && after.keys[i].models == pool.keys[i].models
            && after.keys[i].state.cooldown_until == pool.keys[i].state.cooldown_until by {
            lemma_choice_and_key(before, model, times, random, i);
            assert(before.keys[i].max_rpm == pool.keys[i].max_rpm);
        }
    }
}

/// The rotation is fair: of as many consecutive requests as there are keys, no two
/// get the same key.
pub proof fn law_rotation_is_fair(
    pool: PoolView,
    model: Option<Seq<char>>,
    reads: Seq<PoolReadsView>,
    r1: int,
    r2: int,
)
    requires
        all_fit(pool, reads),
        0 < pool.keys.len() <= usize::MAX,
        pool.strategy is RoundRobin,
        free_at(pool, model, reads),
        pool.cursor + reads.len() <= usize::MAX,
        0 <= r1 < r2 < reads.len(),
        r2 - r1 < pool.keys.len(),
    ensures
        serve(pool, model, reads).1[r1] != serve(pool, model, reads).1[r2],
{
    law_rotation(pool, model, reads);
    lemma_turns_differ(pool.cursor + r1, pool.cursor + r2, pool.keys.len() as int);
}

/// No request, no failure and no measured response adds, drops, reorders or
/// rewrites a key: all that ever changes of a key is its bookkeeping.
pub proof fn law_keys_stay_themselves(
    pool: PoolView,
    model: Option<Seq<char>>,
    times: Seq<u128>,
    random: u32,
    id: Seq<char>,
    cooldown: u128,
    now: u128,
    nanos: u64,
)
    requires
        fits(pool, times),
    ensures
        ({
            let timed = pool.key_timed(id, nanos);
            let served = pool.choose_key(model, times, random).0;
            let failed = pool.key_failed(id, cooldown, now);
            &&& served == PoolView { keys: served.keys, cursor: served.cursor, ..pool }
            &&& failed == PoolView { keys: failed.keys, ..pool }
            &&& served.keys.len() == pool.keys.len()
            &&& failed.keys.len() == pool.keys.len()
            &&& timed == PoolView { keys: timed.keys, ..pool }
            &&& timed.keys.len() == pool.keys.len()
            &&& forall|i: int|
                0 <= i < pool.keys.len() ==> #[trigger] timed.keys[i] == (KeyView {
                    state: timed.keys[i].state,
                    ..pool.keys[i]
                })
            &&& forall|i: int|
                0 <= i < pool.keys.len() ==> #[trigger] served.keys[i] == (KeyView {
                    state: served.keys[i].state,
                    ..pool.keys[i]
                })
            &&& forall|i: int|
                0 <= i < pool.keys.len() ==> #[trigger] failed.keys[i] == (KeyView {
                    state: failed.keys[i].state,
                    ..pool.keys[i]
                })
        }),
{
    let served = pool.choose_key(model, times, random).0;
    law_failure_touches_one_key(pool, id, cooldown, now);
    lemma_position(pool.keys, id);
    if pool.keys.len() > 0 {
        lemma_choice_and_key(pool, model, times, random, 0);
    }
    assert forall|i: int| 0 <= i < pool.keys.len() implies #[trigger] served.keys[i] == (KeyView {
        state: served.keys[i].state,
        ..pool.keys[i]
    }) by {
        lemma_choice_and_key(pool, model, times, random, i);
    }
}

/// The keys that have spent their quota are listed exactly, in their order: there are
/// none in the list if and only if none has, and all if and only if all have.
pub proof fn law_limited_keys_are_listed(pool: PoolView, times: Seq<u128>)
    ensures
        ({
            let listed = limited_positions(pool.keys, times);
            &&& forall|j: int|
                0 <= j < listed.len() ==> 0 <= #[trigger] listed[j] < pool.keys.len()
                    && pool.keys[listed[j]].rate_limited(times[listed[j]])
            &&& forall|j: int, k: int|
                0 <= j < k < listed.len() ==> #[trigger] listed[j] < #[trigger] listed[k]
            &&& forall|i: int|
                0 <= i < pool.keys.len() && (#[trigger] pool.keys[i]).rate_limited(times[i])
                    ==> listed.contains(i)
            &&& listed.len() == 0 <==> !pool.some_limited(times)
            &&& listed.len() == pool.keys.len() > 0 <==> pool.all_limited(times)
        }),
{
    let keys = pool.keys;
    let listed = limited_positions(keys, times);
    lemma_limited_positions(keys, times);
    if listed.len() > 0 {
        assert(keys[listed[0]].rate_limited(times[listed[0]]));
    }
    if pool.some_limited(times) {
        let i = choose|i: int| 0 <= i < keys.len() && (#[trigger] keys[i]).rate_limited(times[i]);
        assert(listed.contains(i));
    }
}

proof fn lemma_limited_positions(keys: Seq<KeyView>, times: Seq<u128>)
    ensures
        ({
            let listed = limited_positions(keys, times);
            &&& listed.len() <= keys.len()
            &&& forall|j: int|
                0 <= j < listed.len() ==> 0 <= #[trigger] listed[j] < keys.len()
                    && keys[listed[j]].rate_limited(times[listed[j]])
            &&& forall|j: int, k: int|
                0 <= j < k < listed.len() ==> #[trigger] listed[j] < #[trigger] listed[k]
            &&& forall|i: int|
                0 <= i < keys.len() && (#[trigger] keys[i]).rate_limited(times[i])
                    ==> listed.contains(i)
            &&& listed.len() == keys.len() <==> forall|i: int|
                0 <= i < keys.len() ==> (#[trigger] keys[i]).rate_limited(times[i])
        }),
    decreases keys.len(),
{
    if keys.len() > 0 {
        let rest = keys.drop_last();
        let last = keys.len() - 1;
        let before = limited_positions(rest, times);
        let listed = limited_positions(keys, times);
        lemma_limited_positions(rest, times);
        assert forall|j: int| 0 <= j < listed.len() implies 0 <= #[trigger] listed[j]
            < keys.len() && keys[listed[j]].rate_limited(times[listed[j]]) by {
            if j < before.len() {
                assert(listed[j] == before[j]);
                assert(rest[before[j]] == keys[before[j]]);
            }
        }
        assert forall|i: int|
            0 <= i < keys.len() && (#[trigger] keys[i]).rate_limited(
                times[i],
            ) implies listed.contains(i) by {
            if i < last {
                assert(rest[i] == keys[i]);
                let j = choose|j: int| 0 <= j < before.len() && before[j] == i;
                assert(listed[j] == i);
            } else {
                assert(listed[listed.len() - 1] == i);
            }
        }
        if listed.len() == keys.len() {
            assert forall|i: int| 0 <= i < keys.len() implies (#[trigger] keys[i]).rate_limited(
                times[i],
            ) by {
                if i < last {
                    assert(rest[i] == keys[i]);
                }
            }
        }
        if forall|i: int| 0 <= i < keys.len() ==> (#[trigger] keys[i]).rate_limited(times[i]) {
            assert forall|i: int| 0 <= i < rest.len() implies (#[trigger] rest[i]).rate_limited(
                times[i],
            ) by {
                assert(rest[i] == keys[i]);
            }
            assert(keys[last].rate_limited(times[last]));
        }
    }
}

/// A request for any model that finds no key, while none rests, leaves a pool whose
/// keys all count as having spent their quotas.
pub proof fn law_no_key_leaves_all_limited(pool: PoolView, times: Seq<u128>, random: u32)
    requires
        fits(pool, times),
        pool.keys.len() > 0,
        forall|i: int|
            0 <= i < pool.keys.len() ==> !(#[trigger] pool.keys[i]).cooling(times[i]),
    ensures
        ({
            let (after, choice) = pool.choose_key(None, times, random);
            choice is NoKeys ==> after.all_limited(times)
        }),
{
    let (after, choice) = pool.choose_key(None, times, random);
    law_served_iff_some_key_says_yes(pool, None, times, random);
    if choice is NoKeys {
        assert forall|i: int| 0 <= i < after.keys.len() implies (
        #[trigger] after.keys[i]).rate_limited(times[i]) by {
            assert(!says_yes(pool, i, None, times));
            assert(!pool.keys[i].cooling(times[i]));
            law_refused_key_is_limited(pool.keys[i], times[i]);
        }
    }
}

/// The positions of all keys.
pub open spec fn all_positions(keys: Seq<KeyView>) -> Seq<int> {
    Seq::new(keys.len(), |i: int| i)
}

proof fn lemma_candidates_weigh_no_more(
    keys: Seq<KeyView>,
    n: int,
    model: Option<Seq<char>>,
    times: Seq<u128>,
)
    requires
        0 <= n <= keys.len(),
        forall|i: int| 0 <= i < keys.len() ==> (#[trigger] keys[i]).weight > 0,
    ensures
        ({
            let among = candidates(keys.take(n), model, times);
            &&& total_weight(keys, among) <= total_weight(keys, all_positions(keys).take(n))
            &&& among.len() > 0 ==> total_weight(keys, among) > 0
        }),
    decreases n,
{
    if n > 0 {
        let all = all_positions(keys);
        lemma_candidates_weigh_no_more(keys, n - 1, model, times);
        assert(keys.take(n).drop_last() =~= keys.take(n - 1));
        assert(all.take(n).drop_last() =~= all.take(n - 1));
        let before = candidates(keys.take(n - 1), model, times);
        assert(before.push(n - 1).drop_last() =~= before);
        assert(keys[n - 1].weight > 0);
    } else {
        assert(keys.take(0).len() == 0);
    }
}

/// A pool whose keys all have a weight, together no more than a `u32` holds, can
/// always choose, whatever its strategy.
pub proof fn law_positive_weights_can_choose(pool: PoolView, model: Option<Seq<char>>)
    requires
        forall|i: int| 0 <= i < pool.keys.len() ==> (#[trigger] pool.keys[i]).weight > 0,
        total_weight(pool.keys, all_positions(pool.keys)) <= u32::MAX,
    ensures
        pool.can_always_choose(model),
{
    let n = pool.keys.len() as int;
    assert forall|times: Seq<u128>|
        times.len() == pool.keys.len() implies #[trigger] pool.can_choose(model, times) by {
        lemma_candidates_weigh_no_more(pool.keys, n, model, times);
        assert(pool.keys.take(n) =~= pool.keys);
        assert(all_positions(pool.keys).take(n) =~= all_positions(pool.keys));
    }
}

/// How many of the first `n` keys say yes to a request.
pub open spec fn yes_count(
    pool: PoolView,
    model: Option<Seq<char>>,
    times: Seq<u128>,
    n: int,
) -> int
    decreases n,
{
    if n <= 0 {
        0
    } else {
        yes_count(pool, model, times, n - 1) + if says_yes(pool, n - 1, model, times) {
            1int
        } else {
            0
        }
    }
}

/// The weights of those of the first `n` keys that say yes to a request, together.
pub open spec fn yes_weight(
    pool: PoolView,
    model: Option<Seq<char>>,
    times: Seq<u128>,
    n: int,
) -> int
    decreases n,
{
    if n <= 0 {
        0
    } else {
        yes_weight(pool, model, times, n - 1) + if says_yes(pool, n - 1, model, times) {
            pool.keys[n - 1].weight as int
        } else {
            0
        }
    }
}

/// The list of the keys that say yes, held against their number and their weights.
proof fn lemma_candidates_counted(
    pool: PoolView,
    model: Option<Seq<char>>,
    times: Seq<u128>,
    n: int,
)
    requires
        0 <= n <= pool.keys.len(),
    ensures
        ({
            let listed = candidates(pool.keys.take(n), model, times);
            &&& listed.len() == yes_count(pool, model, times, n)
            &&& total_weight(pool.keys, listed) == yes_weight(pool, model, times, n)
            &&& forall|j: int|
                0 <= j < listed.len() ==> {
                    let i = #[trigger] listed[j];
                    &&& 0 <= i < n
                    &&& yes_count(pool, model, times, i) == j
                    &&& total_weight(pool.keys, listed.take(j)) == yes_weight(
                        pool,
                        model,
                        times,
                        i,
                    )
                }
        }),
    decreases n,
{
    let listed = candidates(pool.keys.take(n), model, times);
    if n > 0 {
        let before = candidates(pool.keys.take(n - 1), model, times);
        lemma_candidates_counted(pool, model, times, n - 1);
        assert(pool.keys.take(n).drop_last() =~= pool.keys.take(n - 1));
        assert(pool.keys.take(n)[n - 1] == pool.keys[n - 1]);
        if says_yes(pool, n - 1, model, times) {
            assert(listed == before.push(n - 1));
            assert(listed.drop_last() =~= before);
        }
        assert forall|j: int| 0 <= j < listed.len() implies {
            let i = #[trigger] listed[j];
            &&& 0 <= i < n
            &&& yes_count(pool, model, times, i) == j
            &&& total_weight(pool.keys, listed.take(j)) == yes_weight(pool, model, times, i)
        } by {
            if j < before.len() {
                assert(listed[j] == before[j]);
                assert(listed.take(j) =~= before.take(j));
            } else {
                assert(listed.take(j) =~= before);
            }
        }
    } else {
        assert(pool.keys.take(0).len() == 0);
    }
}

/// The rotation takes its turns among the keys that say yes, whatever their quotas. The
/// key that a request gets has as many such keys before it as the count of turns leaves
/// when it is divided by their number; and every request that gets a key, and no other,
/// moves the count on by one. No other strategy moves it.
pub proof fn law_every_request_takes_a_turn(
    pool: PoolView,
    model: Option<Seq<char>>,
    times: Seq<u128>,
    random: u32,
)
    requires
        fits(pool, times),
    ensures
        ({
            let (after, choice) = pool.choose_key(model, times, random);
            let n = pool.keys.len() as int;
            &&& pool.strategy is RoundRobin ==> (choice matches Choice::Key(i) ==> {
                &&& yes_count(pool, model, times, i as int) == pool.cursor as int % yes_count(
                    pool,
                    model,
                    times,
                    n,
                )
                &&& after.cursor == if pool.cursor == usize::MAX {
                    0
                } else {
                    pool.cursor + 1
                }
            })
            &&& choice !is Key ==> after.cursor == pool.cursor
            &&& !(pool.strategy is RoundRobin) ==> after.cursor == pool.cursor
            &&& after.strategy == pool.strategy
            &&& after.provider == pool.provider
            &&& after.keys.len() == n
        }),
{
    let n = pool.keys.len() as int;
    let among = candidates(pool.keys, model, times);
    lemma_candidates_counted(pool, model, times, n);
    assert(pool.keys.take(n) =~= pool.keys);
    let (after, choice) = pool.choose_key(model, times, random);
    if pool.strategy is RoundRobin && choice is Key {
        let turn = pool.cursor as int % among.len() as int;
        assert(0 <= turn < among.len());
        assert(0 <= among[turn] < n);
        assert(yes_count(pool, model, times, among[turn]) == turn);
    }
    law_chosen_key_may_be_used(pool, model, times, random);
}

/// The weighted strategy lays the keys that say yes side by side in their order, each as
/// wide as its weight, and chooses the one in which the random number falls, counted
/// round and round over the whole width. It has no answer exactly when keys say yes and
/// their weights are together zero, or more than a `u32` holds.
pub proof fn law_draw_falls_into_the_chosen_key(
    pool: PoolView,
    model: Option<Seq<char>>,
    times: Seq<u128>,
    random: u32,
)
    requires
        fits(pool, times),
    ensures
        ({
            let choice = pool.choose_key(model, times, random).1;
            let n = pool.keys.len() as int;
            let width = yes_weight(pool, model, times, n);
            &&& choice is Unweighted <==> pool.strategy is WeightedRandom && yes_count(
                pool,
                model,
                times,
                n,
            ) > 0 && (width == 0 || width > u32::MAX)
            &&& pool.strategy is WeightedRandom ==> (choice matches Choice::Key(i) ==> {
                &&& 0 < width <= u32::MAX
                &&& yes_weight(pool, model, times, i as int) <= random as int % width
                    < yes_weight(pool, model, times, i as int) + pool.keys[i as int].weight
            })
        }),
{
    let n = pool.keys.len() as int;
    let among = candidates(pool.keys, model, times);
    lemma_candidates_counted(pool, model, times, n);
    assert(pool.keys.take(n) =~= pool.keys);
    let choice = pool.choose_key(model, times, random).1;
    if pool.strategy is WeightedRandom && choice is Key {
        law_weighted_strategy(pool, model, times, random);
        let i = choice->Key_0 as int;
        let total = total_weight(pool.keys, among) as int;
        let draw = random as int % total;
        let m = choose|m: int|
            0 <= m < among.len() && #[trigger] among[m] == i && total_weight(
                pool.keys,
                among.take(m),
            ) <= draw < total_weight(pool.keys, among.take(m)) + pool.keys[i].weight;
        assert(total_weight(pool.keys, among.take(m)) == yes_weight(pool, model, times, i));
    }
}

/// Every key of the pool says yes to a request.
pub open spec fn all_say_yes(pool: PoolView, model: Option<Seq<char>>, times: Seq<u128>) -> bool {
    forall|i: int| 0 <= i < pool.keys.len() ==> #[trigger] says_yes(pool, i, model, times)
}

/// The rotation, whatever the quotas: as long as every key says yes when its turn
/// comes, consecutive requests get the keys in their order, round and round. (The count
/// of turns must not pass `usize::MAX`, where it starts over at zero.)
pub proof fn law_rotation_whatever_the_quotas(
    pool: PoolView,
    model: Option<Seq<char>>,
    reads: Seq<PoolReadsView>,
)
    requires
        all_fit(pool, reads),
        0 < pool.keys.len() <= usize::MAX,
        pool.strategy is RoundRobin,
        pool.cursor + reads.len() <= usize::MAX,
        forall|r: int|
            0 <= r < reads.len() ==> all_say_yes(
                serve(pool, model, reads.take(r)).0,
                model,
                (#[trigger] reads[r]).times,
            ),
    ensures
        ({
            let (after, choices) = serve(pool, model, reads);
            &&& choices.len() == reads.len()
            &&& after.cursor == pool.cursor + reads.len()
            &&& after.strategy is RoundRobin
            &&& after.keys.len() == pool.keys.len()
            &&& forall|r: int|
                0 <= r < reads.len() ==> #[trigger] choices[r] == Choice::Key(
                    ((pool.cursor + r) % pool.keys.len() as int) as usize,
                )
        }),
    decreases reads.len(),
{
    if reads.len() > 0 {
        let rest = reads.drop_last();
        let last = reads.len() - 1;
        assert forall|r: int| 0 <= r < rest.len() implies fits(pool, (#[trigger] rest[r]).times)
            && all_say_yes(serve(pool, model, rest.take(r)).0, model, rest[r].times) by {
            assert(rest[r] == reads[r]);
            assert(rest.take(r) =~= reads.take(r));
            assert(fits(pool, reads[r].times));
        }
        law_rotation_whatever_the_quotas(pool, model, rest);
        let (before, choices) = serve(pool, model, rest);
        let times = reads[last].times;
        let random = reads[last].random;
        assert(fits(pool, times));
        assert(reads.take(last) =~= rest);
        assert(all_say_yes(before, model, times));
        let n = before.keys.len() as int;
        lemma_all_yes_counted(before, model, times, n);
        law_every_request_takes_a_turn(before, model, times, random);
        law_chosen_key_may_be_used(before, model, times, random);
        law_served_iff_some_key_says_yes(before, model, times, random);
        assert(says_yes(before, 0, model, times));
        let (after, choice) = before.choose_key(model, times, random);
        lemma_all_yes_counted(before, model, times, choice->Key_0 as int);
        let (end, all) = serve(pool, model, reads);
        assert(all == choices.push(choice));
    }
}

proof fn lemma_all_yes_counted(
    pool: PoolView,
    model: Option<Seq<char>>,
    times: Seq<u128>,
    n: int,
)
    requires
        all_say_yes(pool, model, times),
        0 <= n <= pool.keys.len(),
    ensures
        yes_count(pool, model, times, n) == n,
    decreases n,
{
    if n > 0 {
        lemma_all_yes_counted(pool, model, times, n - 1);
        assert(says_yes(pool, n - 1, model, times));
    }
}

/// The rotation is fair, whatever the quotas: of as many consecutive requests as there
/// are keys, to all of which every key says yes, no two get the same key.
pub proof fn law_rotation_is_fair_whatever_the_quotas(
    pool: PoolView,
    model: Option<Seq<char>>,
    reads: Seq<PoolReadsView>,
    r1: int,
    r2: int,
)
    requires
        all_fit(pool, reads),
        0 < pool.keys.len() <= usize::MAX,
        pool.strategy is RoundRobin,
        pool.cursor + reads.len() <= usize::MAX,
        forall|r: int|
            0 <= r < reads.len() ==> all_say_yes(
                serve(pool, model, reads.take(r)).0,
                model,
                (#[trigger] reads[r]).times,
            ),
        0 <= r1 < r2 < reads.len(),
        r2 - r1 < pool.keys.len(),
    ensures
        serve(pool, model, reads).1[r1] != serve(pool, model, reads).1[r2],
{
    law_rotation_whatever_the_quotas(pool, model, reads);
    lemma_turns_differ(pool.cursor + r1, pool.cursor + r2, pool.keys.len() as int);
}

proof fn lemma_turns_differ(a: int, b: int, n: int)
    requires
        n > 0,
        0 < b - a < n,
    ensures
        a % n != b % n,
{
    assert(a % n != b % n) by (nonlinear_arith)
        requires
            n > 0,
            0 < b - a < n,
    {
        let qa = a / n;
        let qb = b / n;
        assert(a == n * qa + a % n);
        assert(b == n * qb + b % n);
        if a % n == b % n {
            assert(b - a == n * (qb - qa));
            assert(qb - qa >= 1 || qb - qa <= 0);
        }
    }
}

/// There is room for a run of requests: every key serves the model, none rests at the
/// readings, and each either has no quota or has room for the whole run in its present
/// window, in which all the readings lie.
pub open spec fn has_room(
    pool: PoolView,
    model: Option<Seq<char>>,
    reads: Seq<PoolReadsView>,
) -> bool {
    forall|i: int|
        0 <= i < pool.keys.len() ==> {
            let key = #[trigger] pool.keys[i];
            &&& model matches Some(m) ==> key.models.len() == 0 || key.models.contains(m)
            &&& key.max_rpm matches Some(max) ==> key.state.window_requests + reads.len() <= max
            &&& forall|r: int|
                0 <= r < reads.len() ==> {
                    let now = (#[trigger] reads[r]).times[i];
                    &&& key.state.cooldown_until matches Some(until) ==> until <= now
                    &&& key.max_rpm is Some ==> now - key.state.window_start < 60_000_000_000
                }
        }
}

/// The rotation of keys that have quotas: as long as there is room in all of them,
/// consecutive requests get the keys in their order, round and round, just as if there
/// were no quotas.
pub proof fn law_rotation_with_room(
    pool: PoolView,
    model: Option<Seq<char>>,
    reads: Seq<PoolReadsView>,
)
    requires
        all_fit(pool, reads),
        0 < pool.keys.len() <= usize::MAX,
        pool.strategy is RoundRobin,
        pool.cursor + reads.len() <= usize::MAX,
        has_room(pool, model, reads),
    ensures
        ({
            let choices = serve(pool, model, reads).1;
            &&& choices.len() == reads.len()
            &&& forall|r: int|
                0 <= r < reads.len() ==> #[trigger] choices[r] == Choice::Key(
                    ((pool.cursor + r) % pool.keys.len() as int) as usize,
                )
        }),
{
    assert forall|r: int| 0 <= r < reads.len() implies all_say_yes(
        serve(pool, model, reads.take(r)).0,
        model,
        (#[trigger] reads[r]).times,
    ) by {
        let before = serve(pool, model, reads.take(r)).0;
        assert(fits(pool, reads[r].times));
        if pool.keys.len() > 0 {
            lemma_room_run(pool, model, reads, r, 0);
        }
        assert forall|i: int| 0 <= i < before.keys.len() implies #[trigger] says_yes(
            before,
            i,
            model,
            reads[r].times,
        ) by {
            lemma_room_run(pool, model, reads, r, i);
            law_when_a_key_says_yes(before.keys[i], model, reads[r].times[i]);
            let key = pool.keys[i];
            let now = reads[r].times[i];
            assert(key.state.cooldown_until matches Some(until) ==> until <= now);
            if let Some(m) = model {
                if key.models.len() > 0 {
                    let j = choose|j: int| 0 <= j < key.models.len() && key.models[j] == m;
                    assert(before.keys[i].models[j] == m);
                }
            }
        }
    }
    law_rotation_whatever_the_quotas(pool, model, reads);
}

/// What a run of requests leaves of a key that has room for it.
proof fn lemma_room_run(
    pool: PoolView,
    model: Option<Seq<char>>,
    reads: Seq<PoolReadsView>,
    r: int,
    i: int,
)
    requires
        all_fit(pool, reads),
        has_room(pool, model, reads),
        0 <= r <= reads.len(),
        0 <= i < pool.keys.len(),
    ensures
        ({
            let after = serve(pool, model, reads.take(r)).0;
            let (key, left) = (pool.keys[i], after.keys[i]);
            &&& after.keys.len() == pool.keys.len()
            &&& left == KeyView { state: left.state, ..key }
            &&& left.state.cooldown_until == key.state.cooldown_until
            &&& left.state.window_start == key.state.window_start
            &&& left.state.window_requests <= key.state.window_requests + r
        }),
    decreases r,
{
    let run = reads.take(r);
    if r > 0 {
        lemma_room_run(pool, model, reads, r - 1, i);
        assert(run.drop_last() =~= reads.take(r - 1));
        assert(run.last() == reads[r - 1]);
        let before = serve(pool, model, reads.take(r - 1)).0;
        let key = pool.keys[i];
        assert(fits(pool, reads[r - 1].times));
        assert(key.max_rpm is Some ==> reads[r - 1].times[i] - key.state.window_start
            < 60_000_000_000);
        lemma_choice_and_key(before, model, reads[r - 1].times, reads[r - 1].random, i);
        law_what_looking_leaves(before.keys[i], reads[r - 1].times[i]);
        law_what_sending_leaves(before.keys[i], reads[r - 1].times[i]);
        law_rate_limit(before.keys[i], reads[r - 1].times[i]);
    } else {
        assert(run =~= Seq::empty());
    }
}

/// A failure, and the measure of a response, reach the first key of the given id: it is
/// changed as a key is changed by it, and no other key, and nothing else of the pool.
pub proof fn law_first_key_of_the_id_is_reached(
    pool: PoolView,
    id: Seq<char>,
    cooldown: u128,
    now: u128,
    nanos: u64,
    i: int,
)
    requires
        0 <= i < pool.keys.len(),
        pool.keys[i].id == id,
        forall|j: int| 0 <= j < i ==> (#[trigger] pool.keys[j]).id != id,
    ensures
        position_of(pool.keys, id) == Some(i),
        pool.key_failed(id, cooldown, now) == (PoolView {
            keys: pool.keys.update(i, pool.keys[i].failed(cooldown, now)),
            ..pool
        }),
        pool.key_timed(id, nanos) == (PoolView {
            keys: pool.keys.update(i, pool.keys[i].timed(nanos)),
            ..pool
        }),
{
    lemma_position(pool.keys, id);
    match position_of(pool.keys, id) {
        Some(k) => {
            if k < i {
                assert(pool.keys[k].id != id);
            } else if i < k {
                assert(pool.keys[i].id != id);
            }
        },
        None => {
            assert(pool.keys[i].id != id);
        },
    }
}

/// Whether all, or some, of the keys of a pool have spent their quotas.
pub proof fn law_spent_quotas(pool: PoolView, times: Seq<u128>)
    ensures
        pool.all_limited(times) <==> pool.keys.len() > 0 && forall|i: int|
            0 <= i < pool.keys.len() ==> {
                let key = #[trigger] pool.keys[i];
                key.max_rpm matches Some(max) && times[i] - key.state.window_start
                    < 60_000_000_000 && key.state.window_requests >= max
            },
        pool.some_limited(times) <==> exists|i: int|
            0 <= i < pool.keys.len() && {
                let key = #[trigger] pool.keys[i];
                key.max_rpm matches Some(max) && times[i] - key.state.window_start
                    < 60_000_000_000 && key.state.window_requests >= max
            },
{
    assert forall|i: int| 0 <= i < pool.keys.len() implies (
    #[trigger] pool.keys[i]).rate_limited(times[i]) == {
        let key = pool.keys[i];
        key.max_rpm matches Some(max) && times[i] - key.state.window_start < 60_000_000_000
            && key.state.window_requests >= max
    } by {
        law_rate_limit(pool.keys[i], times[i]);
    }
}

/// The keys are asked one after the other, and no more of them once one has said yes.
/// The pool is unavailable if there are keys and all say no; one without keys is not.
pub proof fn law_asking_stops_at_the_first_yes(pool: PoolView, times: Seq<u128>, i: int)
    ensures
        ({
            let (after, unavailable) = pool.ask_until_yes(times);
            let asked = forall|j: int|
                0 <= j < i ==> !(#[trigger] pool.keys[j]).availability(times[j]).1;
            &&& after == PoolView { keys: after.keys, ..pool }
            &&& after.keys.len() == pool.keys.len()
            &&& 0 <= i < pool.keys.len() && asked ==> after.keys[i]
                == pool.keys[i].availability(times[i]).0
            &&& 0 <= i < pool.keys.len() && !asked ==> after.keys[i] == pool.keys[i]
            &&& unavailable <==> pool.keys.len() > 0 && forall|j: int|
                0 <= j < pool.keys.len() ==> !(#[trigger] pool.keys[j]).availability(
                    times[j],
                ).1
        }),
{
}

/// A question to every key, for the list of those that say yes, asks each of them once,
/// and the list holds their positions in order.
pub proof fn law_available_keys(
    pool: PoolView,
    model: Option<Seq<char>>,
    times: Seq<u128>,
    i: int,
)
    requires
        fits(pool, times),
        0 <= i < pool.keys.len(),
    ensures
        ({
            let after = asked(pool.keys, model, times);
            let listed = candidates(pool.keys, model, times);
            &&& after.len() == pool.keys.len()
            &&& after[i] == pool.keys[i].availability_for(model, times[i]).0
            &&& listed.contains(i) <==> says_yes(pool, i, model, times)
            &&& listed.len() == yes_count(pool, model, times, pool.keys.len() as int)
            &&& says_yes(pool, i, model, times) ==> listed[yes_count(pool, model, times, i)] == i
            &&& says_yes(pool, i, model, times) ==> at_positions(after, listed)[yes_count(
                pool,
                model,
                times,
                i,
            )] == after[i]
        }),
{
    let n = pool.keys.len() as int;
    let listed = candidates(pool.keys, model, times);
    lemma_candidates(pool.keys, model, times);
    lemma_candidates_counted(pool, model, times, n);
    assert(pool.keys.take(n) =~= pool.keys);
    if says_yes(pool, i, model, times) {
        assert(listed.contains(i));
        let j = choose|j: int| 0 <= j < listed.len() && listed[j] == i;
        assert(yes_count(pool, model, times, listed[j]) == j);
    }
}

/// What is seen of lists of keys, and of lists of positions, is what they hold.
pub proof fn law_lists_show_their_keys(
    keys: Seq<KeyInfo>,
    refs: Seq<&KeyInfo>,
    indices: Seq<usize>,
    clocks: Seq<Clock>,
    i: int,
)
    ensures
        key_views(keys).len() == keys.len(),
        clocks_of(keys).len() == keys.len(),
        ref_views(refs).len() == refs.len(),
        ref_clocks(refs).len() == refs.len(),
        positions(indices).len() == indices.len(),
        0 <= i < keys.len() ==> key_views(keys)[i] == keys[i]@ && clocks_of(keys)[i]
            == keys[i].own_clock(),
        0 <= i < refs.len() ==> ref_views(refs)[i] == refs[i]@ && ref_clocks(refs)[i]
            == refs[i].own_clock(),
        0 <= i < indices.len() ==> positions(indices)[i] == indices[i] && clocks_at(
            clocks,
            positions(indices),
        )[i] == clocks[indices[i] as int],
{
}

/// A key that is handed out is the pool's own: it is the one at its position, with the
/// clock that is kept there, and what it is when it is given back is what the pool holds
/// at that position afterwards. All else of the pool is what it was.
pub proof fn law_handed_out_key_is_the_pools(
    pool: PoolView,
    clocks: Seq<Clock>,
    i: int,
    key: (KeyView, Clock),
    left: (KeyView, Clock),
    after: (PoolView, Seq<Clock>),
)
    requires
        handed_out(pool, clocks, i, key, left, after),
    ensures
        0 <= i < pool.keys.len(),
        key.0 == pool.keys[i],
        key.1 == clocks[i],
        after.0.keys.len() == pool.keys.len(),
        after.1.len() == clocks.len(),
        after.0.keys[i] == left.0,
        after.1[i] == left.1,
        forall|j: int|
            0 <= j < pool.keys.len() && j != i ==> #[trigger] after.0.keys[j] == pool.keys[j]
                && after.1[j] == clocks[j],
        after.0.strategy == pool.strategy,
        after.0.provider == pool.provider,
        after.0.cursor == pool.cursor,
{
}

/// Which keys of a pool say yes to a request, in terms of what the keys hold: those that
/// do not rest, that serve the model, and that have room in their quotas.
pub proof fn law_who_says_yes(pool: PoolView, i: int, model: Option<Seq<char>>, times: Seq<u128>)
    ensures
        says_yes(pool, i, model, times) <==> {
            let key = pool.keys[i];
            &&& key.state.cooldown_until matches Some(until) ==> until <= times[i]
            &&& model matches Some(m) ==> key.models.len() == 0 || exists|j: int|
                0 <= j < key.models.len() && #[trigger] key.models[j] == m
            &&& key.max_rpm matches Some(max) ==> if times[i] - key.state.window_start
                >= 60_000_000_000 {
                max > 0
            } else {
                key.state.window_requests < max
            }
        },
{
    law_when_a_key_says_yes(pool.keys[i], model, times[i]);
}

/// What is seen of a pool is what it holds, field by field.
pub(crate) proof fn law_pool_shows_its_fields(pool: KeyPool)
    ensures
        pool@.provider == pool.provider,
        pool@.strategy == pool.strategy,
        pool@.cursor == pool.current_index,
        pool@.keys.len() == pool.keys@.len(),
        pool.key_clocks().len() == pool.keys@.len(),
        forall|i: int| 0 <= i < pool.keys@.len() ==> #[trigger] pool@.keys[i] == pool.keys@[i]@,
        forall|i: int|
            0 <= i < pool.keys@.len() ==> #[trigger] pool.key_clocks()[i]
                == pool.keys@[i].own_clock(),
{
}

} // verus!
