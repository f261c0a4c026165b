//! The configuration of the broker, and the load balancer that follows from it.

use crate::load_balancer::key_info::{KeyInfo, Provider, RotationStrategy};
use crate::load_balancer::{KeyPool, LoadBalancer};
use crate::text::{join_host_port, same_text};
use vstd::prelude::*;
#[allow(unused_imports)]
use crate::load_balancer::key_info::{new_key, opt_text, texts, KeyView};
#[allow(unused_imports)]
use crate::load_balancer::key_pool::{new_pool, PoolView};
#[allow(unused_imports)]
use crate::load_balancer::balancer_laws::{law_pools_are_kept_apart, lemma_with_pool_housed};
#[allow(unused_imports)]
use crate::load_balancer::BalancerView;
#[allow(unused_imports)]
use crate::text::{all_ascii, ascii_lowered, host_port, lowercase};

verus! {

/// The whole configuration.
#[derive(Debug, Clone)]
pub struct Config {
    pub server: ServerConfig,
    pub proxy_type: Option<String>,
    pub providers: Vec<ProviderConfig>,
    pub load_balancing: LoadBalancingConfig,
}

/// Where and how the broker listens.
#[derive(Debug, Clone)]
pub struct ServerConfig {
    pub host: String,
    pub port: u16,
    pub threads: Option<usize>,
    pub daemon: bool,
    pub pid_file: Option<String>,
    pub user: Option<String>,
    pub group: Option<String>,
}

/// A provider and its keys.
#[derive(Debug, Clone)]
pub struct ProviderConfig {
    pub name: String,
    pub base_url: Option<String>,
    pub api_keys: Vec<ApiKeyConfig>,
}

/// One key.
#[derive(Debug, Clone)]
pub struct ApiKeyConfig {
    pub id: String,
    pub key: String,
    pub models: Vec<String>,
    pub weight: u32,
    pub max_rpm: Option<u32>,
}

/// How keys are chosen, and how long a key rests after its first failure.
#[derive(Debug, Clone)]
pub struct LoadBalancingConfig {
    pub strategy: String,
    pub initial_cooldown_secs: u64,
}

/// The weight of a key for which none is configured.
pub fn default_weight() -> (weight: u32)
    ensures
        weight == 1,
{
    1
}

/// The cooldown in seconds, if none is configured.
pub fn default_cooldown() -> (cooldown: u64)
    ensures
        cooldown == 60,
{
    60
}

/// The strategy, if none is configured.
pub fn default_strategy() -> (name: String)
    ensures
        name@ == "round_robin"@,
{
    "round_robin".to_owned()
}

/// The address to listen on, if none is configured.
pub fn default_host() -> (host: String)
    ensures
        host@ == "0.0.0.0"@,
{
    "0.0.0.0".to_owned()
}

/// The port to listen on, if none is configured.
pub fn default_port() -> (port: u16)
    ensures
        port == 8080,
{
    8080
}

impl Default for LoadBalancingConfig {
    fn default() -> (config: LoadBalancingConfig)
        ensures
            config.strategy@ == "round_robin"@,
            config.initial_cooldown_secs == 60,
    {
        LoadBalancingConfig {
            strategy: default_strategy(),
            initial_cooldown_secs: default_cooldown(),
        }
    }
}

/// The settings of a Pingora server that the configuration can override.
#[derive(Debug, Clone)]
pub struct PingoraConf {
    pub threads: usize,
    pub daemon: bool,
    pub pid_file: String,
    pub user: Option<String>,
    pub group: Option<String>,
}

/// A configured text, unless it is missing or empty.
pub open spec fn nonempty(configured: Option<String>) -> Option<Seq<char>> {
    match configured {
        Some(s) if s@.len() > 0 => Some(s@),
        _ => None,
    }
}

/// A configured text, unless it is missing or empty.
fn nonempty_text(configured: &Option<String>) -> (text: Option<String>)
    ensures
        opt_text(text) == nonempty(*configured),
{
    match configured {
        Some(s) => if s.as_str().is_empty() {
            None
        } else {
            Some(s.clone())
        },
        None => None,
    }
}

impl ServerConfig {
    /// The address and the port to listen on.
    pub fn listen_address(&self) -> (address: String)
        ensures
            address@ == host_port(self.host@, self.port),
    {
        join_host_port(self.host.as_str(), self.port)
    }

    /// The settings of the Pingora server: those that it has by itself, and in
    /// their place what is configured. An empty text counts as not configured.
    pub fn to_pingora_conf(&self, defaults: PingoraConf) -> (conf: PingoraConf)
        ensures
            conf.threads == (match self.threads {
                Some(threads) => threads,
                None => defaults.threads,
            }),
            conf.daemon == (self.daemon || defaults.daemon),
            conf.pid_file@ == (match nonempty(self.pid_file) {
                Some(pid_file) => pid_file,
                None => defaults.pid_file@,
            }),
            opt_text(conf.user) == (match nonempty(self.user) {
                Some(user) => Some(user),
                None => opt_text(defaults.user),
            }),
            opt_text(conf.group) == (match nonempty(self.group) {
                Some(group) => Some(group),
                None => opt_text(defaults.group),
            }),
    {
        let mut conf = defaults;
        if let Some(threads) = self.threads {
            conf.threads = threads;
        }
        if self.daemon {
            conf.daemon = true;
        }
        if let Some(pid_file) = nonempty_text(&self.pid_file) {
            conf.pid_file = pid_file;
        }
        if let Some(user) = nonempty_text(&self.user) {
            conf.user = Some(user);
        }
        if let Some(group) = nonempty_text(&self.group) {
            conf.group = Some(group);
        }
        conf
    }
}

/// The strategy that a name in lower case stands for; all other names stand for
/// the rotation.
pub open spec fn strategy_for(lower: Seq<char>) -> RotationStrategy {
    if lower == "weighted_random"@ {
        RotationStrategy::WeightedRandom
    } else if lower == "least_used"@ {
        RotationStrategy::LeastUsed
    } else if lower == "latency_based"@ {
        RotationStrategy::LatencyBased
    } else {
        RotationStrategy::RoundRobin
    }
}

/// The strategy that a name in lower case stands for.
pub fn strategy_from_lowercase(lower: &str) -> (strategy: RotationStrategy)
    ensures
        strategy == strategy_for(lower@),
{
    if same_text(lower, "weighted_random") {
        RotationStrategy::WeightedRandom
    } else if same_text(lower, "least_used") {
        RotationStrategy::LeastUsed
    } else if same_text(lower, "latency_based") {
        RotationStrategy::LatencyBased
    } else {
        RotationStrategy::RoundRobin
    }
}

/// The provider that a name in lower case stands for.
pub open spec fn provider_for(lower: Seq<char>) -> Provider {
    if lower == "openai"@ {
        Provider::OpenAI
    } else if lower == "anthropic"@ {
        Provider::Anthropic
    } else if lower == "azure"@ {
        Provider::Azure
    } else if lower == "vertex"@ {
        Provider::Vertex
    } else if lower == "deepseek"@ {
        Provider::DeepSeek
    } else if lower == "minimax"@ {
        Provider::MiniMax
    } else if lower == "openrouter"@ {
        Provider::OpenRouter
    } else if lower == "glm"@ {
        Provider::GLM
    } else if lower == "nvidia"@ {
        Provider::NVIDIA
    } else {
        Provider::Other
    }
}

/// The provider that a name in lower case stands for.
pub fn provider_from_lowercase(lower: &str) -> (provider: Provider)
    ensures
        provider == provider_for(lower@),
{
    if same_text(lower, "openai") {
        Provider::OpenAI
    } else if same_text(lower, "anthropic") {
        Provider::Anthropic
    } else if same_text(lower, "azure") {
        Provider::Azure
    } else if same_text(lower, "vertex") {
        Provider::Vertex
    } else if same_text(lower, "deepseek") {
        Provider::DeepSeek
    } else if same_text(lower, "minimax") {
        Provider::MiniMax
    } else if same_text(lower, "openrouter") {
        Provider::OpenRouter
    } else if same_text(lower, "glm") {
        Provider::GLM
    } else if same_text(lower, "nvidia") {
        Provider::NVIDIA
    } else {
        Provider::Other
    }
}

/// The lower-case form of an ASCII text is known.
pub open spec fn ascii_case_known(s: Seq<char>) -> bool {
    all_ascii(s) ==> lowercase(s) == ascii_lowered(s)
}

/// The strategy of that name, in whatever case it is written.
pub fn strategy_from_name(name: &str) -> (strategy: RotationStrategy)
    ensures
        strategy == strategy_for(lowercase(name@)),
        ascii_case_known(name@),
{
    let lower = name.to_lowercase();
    strategy_from_lowercase(lower.as_str())
}

/// The provider of that name, in whatever case it is written.
pub fn provider_from_name(name: &str) -> (provider: Provider)
    ensures
        provider == provider_for(lowercase(name@)),
        ascii_case_known(name@),
{
    let lower = name.to_lowercase();
    provider_from_lowercase(lower.as_str())
}

impl ProviderConfig {
    /// The provider that the name stands for.
    pub open spec fn provider(self) -> Provider {
        provider_for(lowercase(self.name@))
    }

    /// The key that a configured key stands for.
    pub open spec fn key_from(self, key: ApiKeyConfig) -> KeyView {
        KeyView {
            models: texts(key.models@),
            weight: key.weight,
            base_url: opt_text(self.base_url),
            max_rpm: key.max_rpm,
            ..new_key(key.id@, key.key@, self.provider())
        }
    }

    /// The keys of the provider, in the order in which they are configured.
    pub open spec fn keys(self) -> Seq<KeyView> {
        self.api_keys@.map_values(|key: ApiKeyConfig| self.key_from(key))
    }
}

/// The load balancer for a list of providers: each in turn puts its keys behind
/// those that its pool holds.
pub open spec fn balancer_for(
    strategy: RotationStrategy,
    providers: Seq<ProviderConfig>,
) -> BalancerView
    decreases providers.len(),
{
    if providers.len() == 0 {
        BalancerView { pools: Seq::empty(), default_strategy: strategy }
    } else {
        let before = balancer_for(strategy, providers.drop_last());
        let config = providers.last();
        let pool = before.pool_or_new(config.provider());
        before.with_pool(config.provider(), PoolView { keys: pool.keys + config.keys(), ..pool })
    }
}

/// Puts the keys of a provider into its pool.
fn add_keys(pool: &mut KeyPool, config: &ProviderConfig, provider: Provider)
    requires
        provider == config.provider(),
    ensures
        final(pool)@ == (PoolView { keys: old(pool)@.keys + config.keys(), ..old(pool)@ }),
{
    let ghost before = pool@;
    let ghost all = config.keys();
    let mut i: usize = 0;
    assert(before.keys + all.take(0) =~= before.keys);
    while i < config.api_keys.len()
        invariant
            i <= config.api_keys@.len() == all.len(),
            all == config.keys(),
            provider == config.provider(),
            pool@ == (PoolView { keys: before.keys + all.take(i as int), ..before }),
        decreases config.api_keys.len() - i,
    {
        let key_config = &config.api_keys[i];
        let mut key = KeyInfo::new(key_config.id.clone(), key_config.key.clone(), provider)
            .with_weight(key_config.weight)
            .with_base_url(config.base_url.clone())
            .with_max_rpm(key_config.max_rpm);
        if key_config.models.len() > 0 {
            key = key.with_models(key_config.models.clone());
        }
        assert(texts(key.models@) =~= texts(key_config.models@));
        assert(key@ == all[i as int]);
        pool.add_key(key);
        assert(all.take(i + 1) =~= all.take(i as int).push(all[i as int]));
        assert(before.keys + all.take(i + 1) =~= (before.keys + all.take(i as int)).push(
            all[i as int],
        ));
        i = i + 1;
    }
    assert(all.take(i as int) =~= all);
}

impl Config {
    /// The load balancer with the configured strategy and the pools of the
    /// configured providers. Providers that stand for the same one share a pool.
    pub fn load_balancer(&self) -> (balancer: LoadBalancer)
        ensures
            balancer@ == balancer_for(
                strategy_for(lowercase(self.load_balancing.strategy@)),
                self.providers@,
            ),
            balancer@.distinct(),
            ascii_case_known(self.load_balancing.strategy@),
            forall|i: int|
                0 <= i < self.providers@.len() ==> ascii_case_known(
                    (#[trigger] self.providers@[i]).name@,
                ),
    {
        let strategy = strategy_from_name(self.load_balancing.strategy.as_str());
        let mut balancer = LoadBalancer::new().with_strategy(strategy);
        let ghost providers = self.providers@;
        let mut i: usize = 0;
        assert(providers.take(0) =~= Seq::empty());
        while i < self.providers.len()
            invariant
                i <= providers.len(),
                providers == self.providers@,
                balancer@ == balancer_for(strategy, providers.take(i as int)),
                balancer@.distinct(),
                forall|j: int| 0 <= j < i ==> ascii_case_known((#[trigger] providers[j]).name@),
            decreases self.providers.len() - i,
        {
            assert(providers.take(i + 1).drop_last() =~= providers.take(i as int));
            let config = &self.providers[i];
            let provider = provider_from_name(config.name.as_str());
            let pool = balancer.get_or_create_pool(provider);
            add_keys(pool, config, provider);
            i = i + 1;
        }
        assert(providers.take(i as int) =~= providers);
        balancer
    }
}

/// All keys that are configured for a provider, in the order in which they stand
/// in the configuration.
pub open spec fn keys_for(providers: Seq<ProviderConfig>, provider: Provider) -> Seq<KeyView>
    decreases providers.len(),
{
    if providers.len() == 0 {
        Seq::empty()
    } else {
        let before = keys_for(providers.drop_last(), provider);
        if providers.last().provider() == provider {
            before + providers.last().keys()
        } else {
            before
        }
    }
}

/// A provider stands in the configuration.
pub open spec fn is_configured(providers: Seq<ProviderConfig>, provider: Provider) -> bool {
    exists|i: int| 0 <= i < providers.len() && (#[trigger] providers[i]).provider() == provider
}

/// A provider has a pool exactly when it stands in the configuration. The pool
/// holds all keys that are configured for it, in their order, and has the
/// configured strategy. No provider has two pools, and every pool is kept under its
/// own.
pub proof fn law_pools_follow_config(
    strategy: RotationStrategy,
    providers: Seq<ProviderConfig>,
    provider: Provider,
)
    ensures
        balancer_for(strategy, providers).distinct(),
        balancer_for(strategy, providers).housed(),
        balancer_for(strategy, providers).default_strategy == strategy,
        balancer_for(strategy, providers).pool_of(provider) == if is_configured(
            providers,
            provider,
        ) {
            Some(
                PoolView {
                    keys: keys_for(providers, provider),
                    ..new_pool(provider, strategy)
                },
            )
        } else {
            None
        },
        !is_configured(providers, provider) ==> keys_for(providers, provider).len() == 0,
    decreases providers.len(),
{
    if providers.len() > 0 {
        let rest = providers.drop_last();
        let config = providers.last();
        let added = config.provider();
        let before = balancer_for(strategy, rest);
        law_pools_follow_config(strategy, rest, provider);
        law_pools_follow_config(strategy, rest, added);
        let pool = before.pool_or_new(added);
        let grown = PoolView { keys: pool.keys + config.keys(), ..pool };
        law_pools_are_kept_apart(before, added, grown, provider);
        lemma_with_pool_housed(before, added, grown);
        assert(providers[providers.len() - 1] == config);
        if is_configured(rest, provider) {
            let i = choose|i: int|
                0 <= i < rest.len() && (#[trigger] rest[i]).provider() == provider;
            assert(providers[i] == rest[i]);
        }
        if is_configured(providers, provider) && added != provider {
            let i = choose|i: int|
                0 <= i < providers.len() && (#[trigger] providers[i]).provider() == provider;
            assert(rest[i] == providers[i]);
        }
        assert(Seq::<KeyView>::empty() + config.keys() =~= config.keys());
        if added == provider {
            assert(grown.keys =~= keys_for(providers, provider));
        }
    }
}

/// Names that differ only in the case of ASCII letters stand for the same.
pub proof fn law_names_ignore_case(a: Seq<char>, b: Seq<char>)
    requires
        ascii_case_known(a),
        ascii_case_known(b),
        all_ascii(a),
        all_ascii(b),
        ascii_lowered(a) == ascii_lowered(b),
    ensures
        provider_for(lowercase(a)) == provider_for(lowercase(b)),
        strategy_for(lowercase(a)) == strategy_for(lowercase(b)),
{
}

/// The implementation of the proxy that is to run.
#[derive(Debug, Clone, Copy, PartialEq, Eq, Structural)]
pub enum ProxyKind {
    Pingora,
    Reqwest,
}

/// The proxy to run: what the command line names goes before what is configured,
/// and without either it is Pingora. Any name but `pingora` stands for the other.
pub fn proxy_kind(argument: Option<String>, configured: Option<String>) -> (kind: ProxyKind)
    ensures
        kind == (match (argument, configured) {
            (Some(name), _) => if name@ == "pingora"@ {
                ProxyKind::Pingora
            } else {
                ProxyKind::Reqwest
            },
            (None, Some(name)) => if name@ == "pingora"@ {
                ProxyKind::Pingora
            } else {
                ProxyKind::Reqwest
            },
            (None, None) => ProxyKind::Pingora,
        }),
{
    let name = match argument {
        Some(name) => name,
        None => match configured {
            Some(name) => name,
            None => "pingora".to_owned(),
        },
    };
    if same_text(name.as_str(), "pingora") {
        ProxyKind::Pingora
    } else {
        ProxyKind::Reqwest
    }
}

/// The configuration file to read: the one that is named, if it exists; else the
/// one in the home directory, if there is a home directory; else the named one.
pub fn config_path(named: String, named_exists: bool, in_home: Option<String>) -> (path: String)
    ensures
        path@ == (match in_home {
            Some(home_path) if !named_exists => home_path@,
            _ => named@,
        }),
{
    if named_exists {
        named
    } else {
        match in_home {
            Some(home_path) => home_path,
            None => named,
        }
    }
}

} // verus!
