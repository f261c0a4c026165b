use aibroker::config::{
    config_path, default_cooldown, default_host, default_port, default_strategy, default_weight,
    provider_from_lowercase, provider_from_name, proxy_kind, strategy_from_lowercase,
    strategy_from_name, ApiKeyConfig, Config, LoadBalancingConfig, PingoraConf, ProviderConfig,
    ProxyKind, ServerConfig,
};
use aibroker::load_balancer::key_info::{Provider, RotationStrategy};
use aibroker::text::{
    decimal, join_host_port, joined, same_text, trim_trailing_slashes,
};

fn server() -> ServerConfig {
    ServerConfig {
        host: default_host(),
        port: default_port(),
        threads: None,
        daemon: false,
        pid_file: None,
        user: None,
        group: None,
    }
}

fn api_key(id: &str) -> ApiKeyConfig {
    ApiKeyConfig {
        id: id.to_string(),
        key: format!("sk-{}", id),
        models: vec![],
        weight: default_weight(),
        max_rpm: None,
    }
}

fn provider(name: &str, base_url: Option<&str>, keys: Vec<ApiKeyConfig>) -> ProviderConfig {
    ProviderConfig {
        name: name.to_string(),
        base_url: base_url.map(|url| url.to_string()),
        api_keys: keys,
    }
}

fn config(strategy: &str, providers: Vec<ProviderConfig>) -> Config {
    Config {
        server: server(),
        proxy_type: None,
        providers,
        load_balancing: LoadBalancingConfig {
            strategy: strategy.to_string(),
            initial_cooldown_secs: default_cooldown(),
        },
    }
}

#[test]
fn defaults_are_the_documented_ones() {
    assert_eq!(default_weight(), 1);
    assert_eq!(default_cooldown(), 60);
    assert_eq!(default_strategy(), "round_robin");
    assert_eq!(default_host(), "0.0.0.0");
    assert_eq!(default_port(), 8080);
    let balancing = LoadBalancingConfig::default();
    assert_eq!(balancing.initial_cooldown_secs, 60);
    assert_eq!(balancing.strategy, "round_robin");
    assert_eq!(server().listen_address(), "0.0.0.0:8080");
}

#[test]
fn balancer_follows_the_configuration() {
    let mut first = api_key("key1");
    first.models = vec!["gpt-4".to_string(), "gpt-3.5-turbo".to_string()];
    first.weight = 2;
    first.max_rpm = Some(500);
    let config = config(
        "weighted_random",
        vec![
            provider("openai", Some("https://api.openai.com/v1"), vec![first, api_key("key2")]),
            provider("AZURE", None, vec![api_key("key3")]),
            provider("OpenAI", None, vec![api_key("key4")]),
            provider("mistral", None, vec![]),
        ],
    );
    let balancer = config.load_balancer();
    assert_eq!(balancer.pools().len(), 3);

    let openai = balancer.pool(&Provider::OpenAI).unwrap();
    assert_eq!(*openai.strategy(), RotationStrategy::WeightedRandom);
    let keys = openai.keys();
    assert_eq!(keys.len(), 3);
    assert_eq!(keys[0].id, "key1");
    assert_eq!(keys[0].key, "sk-key1");
    assert_eq!(keys[0].models, vec!["gpt-4", "gpt-3.5-turbo"]);
    assert_eq!(keys[0].weight, 2);
    assert_eq!(keys[0].max_rpm, Some(500));
    assert_eq!(keys[0].base_url.as_deref(), Some("https://api.openai.com/v1"));
    assert_eq!(keys[0].provider, Provider::OpenAI);
    assert_eq!(keys[1].id, "key2");
    assert!(keys[1].models.is_empty());
    assert_eq!(keys[2].id, "key4");
    assert_eq!(keys[2].base_url, None);

    assert_eq!(balancer.pool(&Provider::Azure).unwrap().keys().len(), 1);
    assert!(balancer.pool(&Provider::Other).unwrap().keys().is_empty());
    assert!(balancer.pool(&Provider::GLM).is_none());
}

#[test]
fn strategy_names() {
    assert_eq!(strategy_from_lowercase("weighted_random"), RotationStrategy::WeightedRandom);
    assert_eq!(strategy_from_lowercase("least_used"), RotationStrategy::LeastUsed);
    assert_eq!(strategy_from_lowercase("latency_based"), RotationStrategy::LatencyBased);
    assert_eq!(strategy_from_lowercase("round_robin"), RotationStrategy::RoundRobin);
    assert_eq!(strategy_from_lowercase(""), RotationStrategy::RoundRobin);
    assert_eq!(strategy_from_lowercase("Least_Used"), RotationStrategy::RoundRobin);
    assert_eq!(strategy_from_name("Least_Used"), RotationStrategy::LeastUsed);
    assert_eq!(
        strategy_from_name(default_strategy().as_str()),
        RotationStrategy::RoundRobin
    );
}

#[test]
fn provider_names() {
    let names = [
        ("openai", Provider::OpenAI),
        ("anthropic", Provider::Anthropic),
        ("azure", Provider::Azure),
        ("vertex", Provider::Vertex),
        ("deepseek", Provider::DeepSeek),
        ("minimax", Provider::MiniMax),
        ("openrouter", Provider::OpenRouter),
        ("glm", Provider::GLM),
        ("nvidia", Provider::NVIDIA),
        ("ollama", Provider::Other),
    ];
    for (name, provider) in names {
        assert_eq!(provider_from_lowercase(name), provider);
        assert_eq!(provider_from_name(name.to_uppercase().as_str()), provider);
    }
    assert_eq!(provider_from_lowercase("OpenAI"), Provider::Other);
    // The Kelvin sign is a letter beyond ASCII whose lower-case form is `k`.
    assert_eq!(provider_from_name("DEEPSEE\u{212A}"), Provider::DeepSeek);
}

fn pingora_defaults() -> PingoraConf {
    PingoraConf {
        threads: 1,
        daemon: false,
        pid_file: "/tmp/pingora.pid".to_string(),
        user: None,
        group: None,
    }
}

#[test]
fn pingora_keeps_its_defaults() {
    let mut server = server();
    server.pid_file = Some(String::new());
    server.user = Some(String::new());
    server.group = Some(String::new());
    let conf = server.to_pingora_conf(pingora_defaults());
    assert_eq!(conf.threads, 1);
    assert!(!conf.daemon);
    assert_eq!(conf.pid_file, "/tmp/pingora.pid");
    assert_eq!(conf.user, None);
    assert_eq!(conf.group, None);
}

#[test]
fn pingora_is_configured() {
    let mut server = server();
    server.threads = Some(8);
    server.daemon = true;
    server.pid_file = Some("/run/broker.pid".to_string());
    server.user = Some("broker".to_string());
    server.group = Some("www".to_string());
    let conf = server.to_pingora_conf(pingora_defaults());
    assert_eq!(conf.threads, 8);
    assert!(conf.daemon);
    assert_eq!(conf.pid_file, "/run/broker.pid");
    assert_eq!(conf.user.as_deref(), Some("broker"));
    assert_eq!(conf.group.as_deref(), Some("www"));
}

#[test]
fn command_line_goes_before_configuration() {
    let text = |s: &str| Some(s.to_string());
    assert_eq!(proxy_kind(None, None), ProxyKind::Pingora);
    assert_eq!(proxy_kind(None, text("reqwest")), ProxyKind::Reqwest);
    assert_eq!(proxy_kind(text("pingora"), text("reqwest")), ProxyKind::Pingora);
    assert_eq!(proxy_kind(text("reqwest"), text("pingora")), ProxyKind::Reqwest);
    assert_eq!(proxy_kind(text("other"), None), ProxyKind::Reqwest);
}

#[test]
fn configuration_file_is_sought_in_two_places() {
    let home = || Some("/home/u/.config/aibroker/config.toml".to_string());
    assert_eq!(config_path("config.toml".to_string(), true, home()), "config.toml");
    assert_eq!(
        config_path("config.toml".to_string(), false, home()),
        "/home/u/.config/aibroker/config.toml"
    );
    assert_eq!(config_path("config.toml".to_string(), false, None), "config.toml");
}

#[test]
fn text_functions() {
    for n in [0, 7, 10, 65535, 429, u32::MAX] {
        assert_eq!(decimal(n), n.to_string());
    }
    assert!(same_text("abc", "abc"));
    assert!(!same_text("abc", "ABC"));
    assert_eq!(joined("ab", "c"), "abc");
    assert_eq!(join_host_port("h", 443), "h:443");
    assert_eq!(trim_trailing_slashes("https://x/v1//"), "https://x/v1");
    assert_eq!(trim_trailing_slashes("https://x/v1"), "https://x/v1");
    assert_eq!(trim_trailing_slashes("h\u{e4}//"), "h\u{e4}");
    assert_eq!(trim_trailing_slashes("///"), "");
    assert_eq!(trim_trailing_slashes(""), "");
}
