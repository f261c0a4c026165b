//! What holds of every key.

#![allow(unused_imports)]

use crate::clock::MAX_NANOS;
use crate::load_balancer::key_info::{
    backoff_factor, new_key, opt_str, opt_text, provider_name, texts, KeyInfo, KeyState, KeyView,
    Provider, WINDOW_NANOS,
};
use vstd::prelude::*;

verus! {

/// Requests ask to pass the rate limit of a key one after the other, the `i`-th
/// at the time `times[i]`: what becomes of the key, and how many pass.
pub open spec fn rate_checks(key: KeyView, times: Seq<u128>) -> (KeyView, nat)
    decreases times.len(),
{
    if times.len() == 0 {
        (key, 0)
    } else {
        let (before, passed) = rate_checks(key, times.drop_last());
        let (after, passes) = before.rate_check(times.last());
        (
            after,
            if passes {
                passed + 1
            } else {
                passed
            },
        )
    }
}

/// Within one window a key lets through exactly what is left of its quota, and
/// refuses the rest.
pub proof fn law_quota_per_window(key: KeyView, max: u32, times: Seq<u128>)
    requires
        key.max_rpm == Some(max),
        forall|i: int| 0 <= i < times.len() ==> !key.window_over(#[trigger] times[i]),
    ensures
        ({
            let (after, passed) = rate_checks(key, times);
            let left = if key.state.window_requests < max {
                max - key.state.window_requests
            } else {
                0
            };
            &&& passed == if times.len() < left {
                times.len() as int
            } else {
                left as int
            }
            &&& after == KeyView {
                state: KeyState {
                    window_requests: (key.state.window_requests + passed) as u32,
                    ..key.state
                },
                ..key
            }
        }),
    decreases times.len(),
{
    if times.len() > 0 {
        let rest = times.drop_last();
        assert forall|i: int| 0 <= i < rest.len() implies !key.window_over(
            #[trigger] rest[i],
        ) by {
            assert(rest[i] == times[i]);
        }
        law_quota_per_window(key, max, rest);
        assert(!key.window_over(times[times.len() - 1]));
    }
}

/// When a minute has passed since the window began, the whole quota is there
/// again.
pub proof fn law_window_renews_quota(key: KeyView, max: u32, now: u128)
    requires
        key.max_rpm == Some(max),
        key.window_over(now),
    ensures
        !key.rate_limited(now),
        key.rate_check(now).1 == (max > 0),
        key.rate_check(now).0.state.window_start == now,
        key.rate_check(now).0.state.window_requests == if max > 0 {
            1int
        } else {
            0
        },
{
}

/// A key is rate-limited exactly when a request would not pass. (A key whose
/// quota is zero lets nothing through, and yet does not count as limited from the
/// end of a window until it is asked again.)
pub proof fn law_limited_iff_refused(key: KeyView, now: u128)
    requires
        !(key.max_rpm == Some(0u32) && key.window_over(now)),
    ensures
        key.rate_limited(now) == !key.rate_check(now).1,
{
}

/// A key that has refused a request for want of quota is rate-limited at that
/// moment, also if its quota is zero and its window was over.
pub proof fn law_refused_key_is_limited(key: KeyView, now: u128)
    requires
        !key.rate_check(now).1,
    ensures
        key.rate_check(now).0.rate_limited(now),
        !key.cooling(now) ==> key.looked_at(now) == key.rate_check(now).0,
{
}

/// To look at a window counts nothing and changes no answer: what the key says to a
/// request at that moment, and what then becomes of it, is the same.
pub proof fn law_looking_changes_no_answer(key: KeyView, model: Option<Seq<char>>, now: u128)
    ensures
        key.looked_at(now).state.window_requests <= key.state.window_requests,
        key.looked_at(now).availability_for(model, now).1 == key.availability_for(model, now).1,
        !key.cooling(now) ==> key.looked_at(now).rate_check(now) == key.rate_check(now),
{
}

/// A key without a quota is never rate-limited, lets every request through, and
/// does not count.
pub proof fn law_no_quota_no_limit(key: KeyView, now: u128)
    requires
        key.max_rpm is None,
    ensures
        !key.rate_limited(now),
        key.rate_check(now) == (key, true),
{
}

/// A request that asks for a key changes nothing of it but the window of its
/// rate limit, and at most one request is counted.
pub proof fn law_asking_touches_the_window_only(
    key: KeyView,
    model: Option<Seq<char>>,
    now: u128,
)
    ensures
        ({
            let (after, available) = key.availability_for(model, now);
            &&& after == KeyView {
                state: KeyState {
                    window_start: after.state.window_start,
                    window_requests: after.state.window_requests,
                    ..key.state
                },
                ..key
            }
            &&& after.state.window_requests <= key.state.window_requests + 1
        }),
{
}

/// A key that failed at the time `now` is unavailable until its cooldown, which
/// the backoff stretches, is over, and rests no longer than that.
pub proof fn law_failed_key_rests(key: KeyView, cooldown: u128, now: u128, later: u128)
    requires
        cooldown <= MAX_NANOS,
        now <= MAX_NANOS,
    ensures
        ({
            let failed = key.failed(cooldown, now);
            let end = now + cooldown * backoff_factor(key.state.backoff);
            &&& failed.cooling(later) == (later < end)
            &&& later < end ==> failed.availability(later) == (failed, false)
            &&& later >= end ==> failed.availability(later) == failed.rate_check(later)
            &&& now <= later < end ==> failed.rest_left(later) == Some((end - later) as u128)
            &&& later >= end ==> failed.rest_left(later) is None
        }),
{
    lemma_rest_end(key, cooldown, now);
}

proof fn lemma_rest_end(key: KeyView, cooldown: u128, now: u128)
    requires
        cooldown <= MAX_NANOS,
        now <= MAX_NANOS,
    ensures
        key.failed(cooldown, now).state.cooldown_until == Some(
            (now + cooldown * backoff_factor(key.state.backoff)) as u128,
        ),
        0 <= now + cooldown * backoff_factor(key.state.backoff) <= u128::MAX,
{
    let factor = backoff_factor(key.state.backoff);
    assert(0 <= cooldown * factor <= MAX_NANOS * 25) by (nonlinear_arith)
        requires
            0 <= cooldown <= MAX_NANOS,
            1 <= factor <= 25,
    ;
}

/// The backoff: a key that has not failed before rests for the cooldown, then
/// for five times, then for twenty-five times the cooldown (with a cooldown of
/// one minute: one, five and twenty-five minutes), and for that long ever after.
pub proof fn law_backoff(key: KeyView, cooldown: u128, t1: u128, t2: u128, t3: u128, t4: u128)
    requires
        key.state.backoff == 0,
        0 < cooldown <= MAX_NANOS,
        t1 <= MAX_NANOS,
        t2 <= MAX_NANOS,
        t3 <= MAX_NANOS,
        t4 <= MAX_NANOS,
    ensures
        ({
            let first = key.failed(cooldown, t1);
            let second = first.failed(cooldown, t2);
            let third = second.failed(cooldown, t3);
            let fourth = third.failed(cooldown, t4);
            &&& first.rest_left(t1) == Some(cooldown)
            &&& second.rest_left(t2) == Some((5 * cooldown) as u128)
            &&& third.rest_left(t3) == Some((25 * cooldown) as u128)
            &&& fourth.rest_left(t4) == Some((25 * cooldown) as u128)
            &&& fourth.state.backoff == third.state.backoff
        }),
{
    let first = key.failed(cooldown, t1);
    let second = first.failed(cooldown, t2);
    let third = second.failed(cooldown, t3);
    lemma_rest_end(key, cooldown, t1);
    lemma_rest_end(first, cooldown, t2);
    lemma_rest_end(second, cooldown, t3);
    lemma_rest_end(third, cooldown, t4);
}

/// To clear the cooldown undoes every failure: the key does not rest, and the
/// next failure is again the first.
pub proof fn law_recovery_undoes_failure(key: KeyView, cooldown: u128, now: u128, later: u128)
    ensures
        key.failed(cooldown, now).recovered() == key.recovered(),
        !key.recovered().cooling(later),
        key.recovered().rest_left(later) is None,
        key.recovered().state.backoff == 0,
{
}

/// When a key says yes to a request: when its rest, if it had one, is over; when its
/// list of models is empty or one of its entries is the model that is asked for; and
/// when fewer requests than its quota were let through in the last minute's window, or
/// that window began a minute ago or earlier and the quota is not zero.
pub proof fn law_when_a_key_says_yes(key: KeyView, model: Option<Seq<char>>, now: u128)
    ensures
        key.availability_for(model, now).1 <==> {
            &&& key.state.cooldown_until matches Some(until) ==> until <= now
            &&& model matches Some(m) ==> key.models.len() == 0 || exists|i: int|
                0 <= i < key.models.len() && #[trigger] key.models[i] == m
            &&& key.max_rpm matches Some(max) ==> if now - key.state.window_start
                >= 60_000_000_000 {
                max > 0
            } else {
                key.state.window_requests < max
            }
        },
        key.availability(now).1 == key.availability_for(None, now).1,
{
    if let Some(m) = model {
        if key.models.contains(m) {
            let i = choose|i: int| 0 <= i < key.models.len() && key.models[i] == m;
            assert(key.models[i] == m);
        }
    }
}

/// The list of models decides by equality alone. A key whose list has entries, none of
/// which is the model's text, refuses a request for the model; one whose list holds the
/// text, or is empty, answers it as it would answer a request for any model.
pub proof fn law_models_are_compared_as_texts(key: KeyView, model: Seq<char>, now: u128)
    ensures
        key.models.len() > 0 && (forall|i: int|
            0 <= i < key.models.len() ==> #[trigger] key.models[i] != model)
            ==> !key.availability_for(Some(model), now).1 && !key.serves(model),
        forall|i: int|
            0 <= i < key.models.len() && #[trigger] key.models[i] == model
                ==> key.availability_for(Some(model), now) == key.availability(now)
                && key.serves(model),
        key.models.len() == 0 ==> key.availability_for(Some(model), now) == key.availability(now)
            && key.serves(model),
        key.availability_for(None, now) == key.availability(now),
{
    assert forall|i: int| 0 <= i < key.models.len() && #[trigger] key.models[i] == model implies
        key.models.contains(model) by {}
}

/// Two keys that differ only in their lists of models, of which one has the model and
/// the other has some other text in its place, answer differently: what stands at one
/// place of the list is seen.
pub proof fn law_every_entry_of_the_models_counts(key: KeyView, i: int, model: Seq<char>, now: u128)
    requires
        0 <= i < key.models.len(),
        forall|j: int| 0 <= j < key.models.len() && j != i ==> #[trigger] key.models[j] != model,
        key.availability(now).1,
    ensures
        key.availability_for(Some(model), now).1 == (key.models[i] == model),
{
    law_when_a_key_says_yes(key, Some(model), now);
    law_when_a_key_says_yes(key, None, now);
    if key.models[i] != model {
        assert forall|j: int| 0 <= j < key.models.len() implies #[trigger] key.models[j]
            != model by {}
    }
}

/// What a request that asks for a key leaves of it. A key that rests, or that has no
/// quota, stays as it is. Of any other key only the window changes: one that began a
/// minute ago or earlier gives way to one that begins now, and a request that the key
/// says yes to is counted, once.
pub proof fn law_what_asking_leaves(key: KeyView, model: Option<Seq<char>>, now: u128)
    ensures
        ({
            let (after, yes) = key.availability_for(model, now);
            let over = now - key.state.window_start >= 60_000_000_000;
            let counted: int = if yes {
                1
            } else {
                0
            };
            let rests = key.state.cooldown_until matches Some(until) && until > now;
            &&& after.id == key.id && after.key == key.key && after.provider == key.provider
            &&& after.models == key.models && after.weight == key.weight
            &&& after.base_url == key.base_url && after.max_rpm == key.max_rpm
            &&& after.state.usage_count == key.state.usage_count
            &&& after.state.cooldown_until == key.state.cooldown_until
            &&& after.state.last_used == key.state.last_used
            &&& after.state.backoff == key.state.backoff
            &&& after.state.latency == key.state.latency
            &&& rests || key.max_rpm is None ==> after == key
            &&& !rests && key.max_rpm is Some ==> {
                &&& after.state.window_start == if over {
                    now
                } else {
                    key.state.window_start
                }
                &&& after.state.window_requests == counted + if over {
                    0
                } else {
                    key.state.window_requests as int
                }
            }
        }),
{
    law_when_a_key_says_yes(key, model, now);
}

/// What becomes of a key that passes, or fails to pass, its rate limit, whether it rests
/// or not.
pub proof fn law_rate_limit(key: KeyView, now: u128)
    ensures
        ({
            let (after, passes) = key.rate_check(now);
            let over = now - key.state.window_start >= 60_000_000_000;
            &&& key.max_rpm is None ==> passes && after == key
            &&& key.max_rpm matches Some(max) ==> {
                let let_through: int = if over {
                    0
                } else {
                    key.state.window_requests as int
                };
                &&& passes == (let_through < max)
                &&& after.state.window_start == if over {
                    now
                } else {
                    key.state.window_start
                }
                &&& after.state.window_requests == let_through + if passes {
                    1int
                } else {
                    0
                }
                &&& after == KeyView {
                    state: KeyState {
                        window_start: after.state.window_start,
                        window_requests: after.state.window_requests,
                        ..key.state
                    },
                    ..key
                }
            }
            &&& key.rate_limited(now) <==> (key.max_rpm matches Some(max) && !over
                && key.state.window_requests >= max)
        }),
{
}

/// What a look at a key leaves of it: a window that began a minute ago or earlier gives
/// way to one that begins now and in which nothing is counted yet, unless the key rests
/// or has no quota.
pub proof fn law_what_looking_leaves(key: KeyView, now: u128)
    ensures
        ({
            let after = key.looked_at(now);
            let rests = key.state.cooldown_until matches Some(until) && until > now;
            let over = now - key.state.window_start >= 60_000_000_000;
            &&& !rests && over && key.max_rpm is Some ==> after == (KeyView {
                state: KeyState { window_start: now, window_requests: 0, ..key.state },
                ..key
            })
            &&& rests || !over || key.max_rpm is None ==> after == key
        }),
{
}

/// A key that a request was sent with has been used once more, and last at that time;
/// the request counts against its quota; and nothing else of it has changed.
pub proof fn law_what_sending_leaves(key: KeyView, now: u128)
    ensures
        ({
            let after = key.sent(now);
            let used = key.used(now);
            let counted = key.rate_check(now).0;
            &&& after.state.last_used == Some(now)
            &&& key.state.usage_count < u64::MAX ==> after.state.usage_count
                == key.state.usage_count + 1
            &&& key.state.usage_count == u64::MAX ==> after.state.usage_count == 0
            &&& after == KeyView {
                state: KeyState {
                    usage_count: after.state.usage_count,
                    last_used: after.state.last_used,
                    ..counted.state
                },
                ..key
            }
            &&& used == KeyView {
                state: KeyState {
                    usage_count: after.state.usage_count,
                    last_used: Some(now),
                    ..key.state
                },
                ..key
            }
        }),
{
    law_rate_limit(key, now);
}

/// What a failure leaves of a key: it rests until the time of the failure plus the
/// cooldown, which counts once for a first failure, five times for a second, and
/// twenty-five times for any later one. Nothing else changes but the count of steps.
pub proof fn law_what_a_failure_leaves(key: KeyView, cooldown: u128, now: u128)
    requires
        cooldown <= MAX_NANOS,
        now <= MAX_NANOS,
    ensures
        ({
            let after = key.failed(cooldown, now);
            &&& key.state.backoff == 0 ==> after.state.cooldown_until == Some(
                (now + cooldown) as u128,
            ) && after.state.backoff == 1
            &&& key.state.backoff == 1 ==> after.state.cooldown_until == Some(
                (now + 5 * cooldown) as u128,
            ) && after.state.backoff == 2
            &&& key.state.backoff >= 2 ==> after.state.cooldown_until == Some(
                (now + 25 * cooldown) as u128,
            ) && after.state.backoff == key.state.backoff
            &&& now + 25 * cooldown <= u128::MAX
            &&& after == KeyView {
                state: KeyState {
                    cooldown_until: after.state.cooldown_until,
                    backoff: after.state.backoff,
                    ..key.state
                },
                ..key
            }
        }),
{
    lemma_rest_end(key, cooldown, now);
}

/// How long a key still rests: from now until the end of its rest, if that lies ahead.
pub proof fn law_rest_runs_out(key: KeyView, now: u128)
    ensures
        match key.state.cooldown_until {
            Some(until) => if until > now {
                key.rest_left(now) == Some((until - now) as u128) && key.cooling(now)
            } else {
                key.rest_left(now) is None && !key.cooling(now)
            },
            None => key.rest_left(now) is None && !key.cooling(now),
        },
        key.recovered() == (KeyView {
            state: KeyState { cooldown_until: None, backoff: 0, ..key.state },
            ..key
        }),
{
}

/// The response time that counts is the last one that was noted; before the first it is
/// zero. To note one changes nothing else.
pub proof fn law_last_response_counts(key: KeyView, first: u64, last: u64)
    ensures
        key.timed(first).timed(last).latency() == last,
        key.timed(first).timed(last) == key.timed(last),
        key.state.latency is None ==> key.latency() == 0,
        key.state.latency matches Some(nanos) ==> key.latency() == nanos,
        key.timed(last) == (KeyView {
            state: KeyState { latency: Some(last), ..key.state },
            ..key
        }),
{
}

/// A new key is what it was made of: for all models, of weight one, without an address
/// or a quota of its own, never used, not resting, in a window that begins with its
/// clock, and not measured.
pub proof fn law_new_key_is_fresh(id: Seq<char>, key: Seq<char>, provider: Provider, now: u128)
    ensures
        ({
            let made = new_key(id, key, provider);
            &&& made.id == id && made.key == key && made.provider == provider
            &&& made.models.len() == 0 && made.weight == 1
            &&& made.base_url is None && made.max_rpm is None
            &&& made.state.usage_count == 0 && made.state.last_used is None
            &&& made.state.cooldown_until is None && made.state.backoff == 0
            &&& made.state.window_start == 0 && made.state.window_requests == 0
            &&& made.state.latency is None
            &&& made.availability(now) == (made, true)
        }),
{
}

/// What is seen of a key is what it holds, field by field.
pub(crate) proof fn law_key_shows_its_fields(key: KeyInfo)
    ensures
        key@.id == key.id@,
        key@.key == key.key@,
        key@.provider == key.provider,
        key@.weight == key.weight,
        key@.max_rpm == key.max_rpm,
        key@.models.len() == key.models@.len(),
        forall|i: int|
            0 <= i < key.models@.len() ==> #[trigger] key@.models[i] == key.models@[i]@,
        key.base_url is None <==> key@.base_url is None,
        key.base_url matches Some(url) ==> key@.base_url == Some(url@),
        key@.state == key.state,
        key.own_clock() == key.clock,
{
}

/// What is seen of optional texts and of lists of texts is what they hold.
pub proof fn law_texts_show_their_contents(
    strings: Seq<String>,
    string: Option<String>,
    text: Option<&str>,
)
    ensures
        texts(strings).len() == strings.len(),
        forall|i: int| 0 <= i < strings.len() ==> #[trigger] texts(strings)[i] == strings[i]@,
        match string {
            Some(s) => opt_text(string) == Some(s@),
            None => opt_text(string) is None,
        },
        match text {
            Some(t) => opt_str(text) == Some(t@),
            None => opt_str(text) is None,
        },
{
}

/// The name of a provider in messages is its own name.
pub proof fn law_providers_are_named(provider: Provider)
    ensures
        provider is OpenAI ==> provider_name(provider) == "OpenAI"@,
        provider is Anthropic ==> provider_name(provider) == "Anthropic"@,
        provider is Azure ==> provider_name(provider) == "Azure"@,
        provider is Vertex ==> provider_name(provider) == "Vertex"@,
        provider is DeepSeek ==> provider_name(provider) == "DeepSeek"@,
        provider is MiniMax ==> provider_name(provider) == "MiniMax"@,
        provider is OpenRouter ==> provider_name(provider) == "OpenRouter"@,
        provider is GLM ==> provider_name(provider) == "GLM"@,
        provider is NVIDIA ==> provider_name(provider) == "NVIDIA"@,
        provider is Other ==> provider_name(provider) == "Other"@,
{
}

} // verus!
