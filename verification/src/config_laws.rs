//! What holds of every configuration.

#![allow(unused_imports)]

use crate::config::{
    ascii_case_known, balancer_for, keys_for, law_pools_follow_config, nonempty, provider_for, strategy_for,
    ApiKeyConfig, ProviderConfig,
};
use crate::load_balancer::key_info::{KeyView, Provider, RotationStrategy};
use crate::load_balancer::key_pool::PoolView;
use crate::text::{ascii_lowered, lowercase};
use vstd::prelude::*;

verus! {

/// A name in lower case stands for a provider exactly if it is that provider's name, and
/// for the rest of them if it is none of these names.
pub proof fn law_provider_names(lower: Seq<char>)
    ensures
        provider_for(lower) is OpenAI <==> lower == "openai"@,
        provider_for(lower) is Anthropic <==> lower == "anthropic"@,
        provider_for(lower) is Azure <==> lower == "azure"@,
        provider_for(lower) is Vertex <==> lower == "vertex"@,
        provider_for(lower) is DeepSeek <==> lower == "deepseek"@,
        provider_for(lower) is MiniMax <==> lower == "minimax"@,
        provider_for(lower) is OpenRouter <==> lower == "openrouter"@,
        provider_for(lower) is GLM <==> lower == "glm"@,
        provider_for(lower) is NVIDIA <==> lower == "nvidia"@,
        provider_for(lower) is Other <==> lower != "openai"@ && lower != "anthropic"@ && lower
            != "azure"@ && lower != "vertex"@ && lower != "deepseek"@ && lower != "minimax"@
            && lower != "openrouter"@ && lower != "glm"@ && lower != "nvidia"@,
{
    reveal_strlit("openai");
    reveal_strlit("anthropic");
    reveal_strlit("azure");
    reveal_strlit("vertex");
    reveal_strlit("deepseek");
    reveal_strlit("minimax");
    reveal_strlit("openrouter");
    reveal_strlit("glm");
    reveal_strlit("nvidia");
    assert("openai"@[0] == 'o' && "azure"@[1] == 'z' && "vertex"@[0] == 'v');
    assert("anthropic"@[0] == 'a' && "anthropic"@[1] == 'n' && "azure"@[0] == 'a');
    assert("deepseek"@[0] == 'd' && "minimax"@[0] == 'm' && "openrouter"@.len() == 10);
    assert("glm"@[0] == 'g' && "nvidia"@[0] == 'n');
}

/// A name in lower case stands for a strategy exactly if it is that strategy's name; the
/// rotation is what all other names stand for.
pub proof fn law_strategy_names(lower: Seq<char>)
    ensures
        strategy_for(lower) is WeightedRandom <==> lower == "weighted_random"@,
        strategy_for(lower) is LeastUsed <==> lower == "least_used"@,
        strategy_for(lower) is LatencyBased <==> lower == "latency_based"@,
        strategy_for(lower) is RoundRobin <==> lower != "weighted_random"@ && lower
            != "least_used"@ && lower != "latency_based"@,
{
    reveal_strlit("weighted_random");
    reveal_strlit("least_used");
    reveal_strlit("latency_based");
    assert("weighted_random"@.len() == 15 && "least_used"@.len() == 10 && "latency_based"@.len()
        == 13);
}

/// How many keys the first `n` entries of a configuration have for a provider.
pub open spec fn configured_before(
    providers: Seq<ProviderConfig>,
    n: int,
    provider: Provider,
) -> int
    decreases n,
{
    if n <= 0 {
        0
    } else {
        configured_before(providers, n - 1, provider) + if provider_for(
            lowercase(providers[n - 1].name@),
        ) == provider {
            providers[n - 1].api_keys@.len() as int
        } else {
            0
        }
    }
}

/// A key is what its entry in the configuration says.
spec fn is_configured_as(
    key: KeyView,
    provider: ProviderConfig,
    entry: ApiKeyConfig,
) -> bool {
    &&& key.id == entry.id@
    &&& key.key == entry.key@
    &&& key.provider == provider_for(lowercase(provider.name@))
    &&& key.models.len() == entry.models@.len()
    &&& forall|m: int|
        0 <= m < entry.models@.len() ==> #[trigger] key.models[m] == entry.models@[m]@
    &&& key.weight == entry.weight
    &&& key.max_rpm == entry.max_rpm
    &&& match provider.base_url {
        Some(url) => key.base_url == Some(url@),
        None => key.base_url is None,
    }
    &&& key.state.usage_count == 0 && key.state.last_used is None
    &&& key.state.cooldown_until is None && key.state.backoff == 0
    &&& key.state.window_start == 0 && key.state.window_requests == 0
    &&& key.state.latency is None
}

/// Every key of a configuration stands in the pool of its provider, behind those of the
/// same provider that stand before it, with exactly the values that are configured for
/// it, whichever the provider: id, key, models, weight and quota are the entry's own, and
/// the address is that of the provider under which the entry stands. It has not been
/// used. The pool has no other keys, and has the configured strategy.
pub proof fn law_configured_keys(
    strategy: RotationStrategy,
    providers: Seq<ProviderConfig>,
    p: int,
    c: int,
)
    requires
        0 <= p < providers.len(),
        0 <= c < providers[p].api_keys@.len(),
    ensures
        ({
            let provider = provider_for(lowercase(providers[p].name@));
            let at = configured_before(providers, p, provider) + c;
            balancer_for(strategy, providers).pool_of(provider) matches Some(pool) && {
                &&& 0 <= at < pool.keys.len()
                &&& pool.keys.len() == configured_before(
                    providers,
                    providers.len() as int,
                    provider,
                )
                &&& pool.provider == provider
                &&& pool.strategy == strategy
                &&& pool.cursor == 0
                &&& pool.keys[at].id == providers[p].api_keys@[c].id@
                &&& pool.keys[at].key == providers[p].api_keys@[c].key@
                &&& pool.keys[at].provider == provider
                &&& pool.keys[at].models.len() == providers[p].api_keys@[c].models@.len()
                &&& forall|m: int|
                    0 <= m < pool.keys[at].models.len() ==> #[trigger] pool.keys[at].models[m]
                        == providers[p].api_keys@[c].models@[m]@
                &&& pool.keys[at].weight == providers[p].api_keys@[c].weight
                &&& pool.keys[at].max_rpm == providers[p].api_keys@[c].max_rpm
                &&& providers[p].base_url matches Some(url) ==> pool.keys[at].base_url == Some(
                    url@,
                )
                &&& providers[p].base_url is None ==> pool.keys[at].base_url is None
                &&& pool.keys[at].state.usage_count == 0
                &&& pool.keys[at].state.last_used is None
                &&& pool.keys[at].state.cooldown_until is None
                &&& pool.keys[at].state.backoff == 0
                &&& pool.keys[at].state.window_start == 0
                &&& pool.keys[at].state.window_requests == 0
                &&& pool.keys[at].state.latency is None
            }
        }),
{
    let provider = provider_for(lowercase(providers[p].name@));
    law_pools_follow_config(strategy, providers, provider);
    assert(providers[p].provider() == provider);
    lemma_keys_for(providers, provider, p, c);
    lemma_keys_counted(providers, provider);
}

/// Every key of a pool stems from an entry of the configuration for its provider, the one
/// whose place among these entries it has; a provider that is not configured has no pool.
pub proof fn law_no_other_keys(
    strategy: RotationStrategy,
    providers: Seq<ProviderConfig>,
    provider: Provider,
    k: int,
)
    ensures
        balancer_for(strategy, providers).default_strategy == strategy,
        balancer_for(strategy, providers).pool_of(provider) is None <==> forall|p: int|
            0 <= p < providers.len() ==> provider_for(lowercase((#[trigger] providers[p]).name@))
                != provider,
        balancer_for(strategy, providers).pool_of(provider) matches Some(pool) ==> (0 <= k
            < pool.keys.len() ==> exists|p: int, c: int|
            #![trigger providers[p].api_keys@[c]]
            0 <= p < providers.len() && 0 <= c < providers[p].api_keys@.len() && provider_for(
                lowercase(providers[p].name@),
            ) == provider && k == configured_before(providers, p, provider) + c),
{
    law_pools_follow_config(strategy, providers, provider);
    if let Some(pool) = balancer_for(strategy, providers).pool_of(provider) {
        let p = choose|p: int|
            0 <= p < providers.len() && (#[trigger] providers[p]).provider() == provider;
        assert(provider_for(lowercase(providers[p].name@)) == provider);
        if 0 <= k < pool.keys.len() {
            lemma_keys_counted(providers, provider);
            let (p, c) = lemma_place(providers, providers.len() as int, provider, k);
            assert(providers[p].api_keys@.contains(providers[p].api_keys@[c]));
        }
    } else {
        assert forall|p: int| 0 <= p < providers.len() implies provider_for(
            lowercase((#[trigger] providers[p]).name@),
        ) != provider by {
            assert(providers[p].provider() != provider);
        }
    }
}

/// Every place below the number of a provider's keys is that of one of its entries.
proof fn lemma_place(
    providers: Seq<ProviderConfig>,
    n: int,
    provider: Provider,
    k: int,
) -> (place: (int, int))
    requires
        0 <= n <= providers.len(),
        0 <= k < configured_before(providers, n, provider),
    ensures
        0 <= place.0 < n,
        0 <= place.1 < providers[place.0].api_keys@.len(),
        provider_for(lowercase(providers[place.0].name@)) == provider,
        k == configured_before(providers, place.0, provider) + place.1,
    decreases n,
{
    let before = configured_before(providers, n - 1, provider);
    if k < before {
        lemma_place(providers, n - 1, provider, k)
    } else {
        (n - 1, k - before)
    }
}

proof fn lemma_key_from(config: ProviderConfig, c: int)
    requires
        0 <= c < config.api_keys@.len(),
    ensures
        config.keys().len() == config.api_keys@.len(),
        is_configured_as(config.keys()[c], config, config.api_keys@[c]),
{
    assert(config.keys()[c] == config.key_from(config.api_keys@[c]));
}

proof fn lemma_keys_counted(providers: Seq<ProviderConfig>, provider: Provider)
    ensures
        keys_for(providers, provider).len() == configured_before(
            providers,
            providers.len() as int,
            provider,
        ),
    decreases providers.len(),
{
    if providers.len() > 0 {
        let rest = providers.drop_last();
        lemma_keys_counted(rest, provider);
        lemma_same_count(rest, providers, rest.len() as int, provider);
    }
}

proof fn lemma_same_count(
    some: Seq<ProviderConfig>,
    all: Seq<ProviderConfig>,
    n: int,
    provider: Provider,
)
    requires
        0 <= n <= some.len() <= all.len(),
        forall|i: int| 0 <= i < some.len() ==> #[trigger] some[i] == all[i],
    ensures
        configured_before(some, n, provider) == configured_before(all, n, provider),
    decreases n,
{
    if n > 0 {
        lemma_same_count(some, all, n - 1, provider);
        assert(some[n - 1] == all[n - 1]);
    }
}

proof fn lemma_keys_for(
    providers: Seq<ProviderConfig>,
    provider: Provider,
    p: int,
    c: int,
)
    requires
        0 <= p < providers.len(),
        0 <= c < providers[p].api_keys@.len(),
        provider_for(lowercase(providers[p].name@)) == provider,
    ensures
        ({
            let at = configured_before(providers, p, provider) + c;
            let keys = keys_for(providers, provider);
            &&& 0 <= at < keys.len()
            &&& is_configured_as(keys[at], providers[p], providers[p].api_keys@[c])
        }),
    decreases providers.len(),
{
    let rest = providers.drop_last();
    let last = providers.len() - 1;
    lemma_keys_counted(rest, provider);
    lemma_same_count(rest, providers, last, provider);
    if p < last {
        assert(rest[p] == providers[p]);
        lemma_keys_for(rest, provider, p, c);
        lemma_same_count(rest, providers, p, provider);
    } else {
        lemma_key_from(providers[p], c);
    }
}

/// A configured text counts unless it is missing or empty, and then as it is.
pub proof fn law_empty_counts_as_missing(configured: Option<String>)
    ensures
        match configured {
            Some(s) => if s@.len() == 0 {
                nonempty(configured) is None
            } else {
                nonempty(configured) == Some(s@)
            },
            None => nonempty(configured) is None,
        },
{
}

/// Of a text of ASCII characters whose lower-case form is known, it is the text with the
/// capitals made small.
pub proof fn law_known_case(s: Seq<char>)
    requires
        ascii_case_known(s),
        forall|i: int| 0 <= i < s.len() ==> (#[trigger] s[i]) as u32 <= 127,
    ensures
        lowercase(s) == ascii_lowered(s),
{
}

} // verus!
