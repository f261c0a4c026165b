use aibroker::clock::{secs, MAX_NANOS};
use aibroker::error::LlmBrokerError;
use aibroker::load_balancer::key_info::{KeyInfo, Provider, RotationStrategy};
use aibroker::load_balancer::key_pool::Choice;
use aibroker::load_balancer::{AnyChoice, AnyKey, KeyPool, LoadBalancer, PoolReads};

fn numbered_key(n: u32) -> KeyInfo {
    KeyInfo::new(format!("key{}", n), format!("sk-xxx{}", n), Provider::OpenAI)
}

fn pool_of(strategy: RotationStrategy, keys: Vec<KeyInfo>) -> KeyPool {
    let mut pool = KeyPool::new(Provider::OpenAI).with_strategy(strategy);
    for key in keys {
        pool.add_key(key);
    }
    pool
}

fn ids(keys: &[KeyInfo]) -> Vec<String> {
    keys.iter().map(|k| k.id.clone()).collect()
}

fn ids_of(keys: Vec<&KeyInfo>) -> Vec<String> {
    keys.into_iter().map(|k| k.id.clone()).collect()
}

#[test]
fn test_round_robin_selection() {
    let mut pool = KeyPool::new(Provider::OpenAI).with_strategy(RotationStrategy::RoundRobin);
    pool.add_key(KeyInfo::new(
        "key1".to_string(),
        "sk-xxx1".to_string(),
        Provider::OpenAI,
    ));
    pool.add_key(KeyInfo::new(
        "key2".to_string(),
        "sk-xxx2".to_string(),
        Provider::OpenAI,
    ));

    let key1 = pool.select_key(None).unwrap().id.clone();
    let key2 = pool.select_key(None).unwrap().id.clone();
    let key3 = pool.select_key(None).unwrap().id.clone();

    assert_eq!(key1, "key1");
    assert_eq!(key2, "key2");
    assert_eq!(key3, "key1");
}

#[test]
fn test_least_used_skips_busy_key() {
    let mut pool = KeyPool::new(Provider::OpenAI).with_strategy(RotationStrategy::LeastUsed);
    pool.add_key(KeyInfo::new(
        "key1".to_string(),
        "sk-xxx1".to_string(),
        Provider::OpenAI,
    ));
    pool.add_key(KeyInfo::new(
        "key2".to_string(),
        "sk-xxx2".to_string(),
        Provider::OpenAI,
    ));

    pool.mark_key_failed("key1", secs(60));

    let key = pool.select_key(None).unwrap();
    assert_eq!(
        key.id, "key2",
        "least_used should skip key1 which is in cooldown"
    );
}

#[test]
fn test_no_available_keys_error() {
    let mut pool = KeyPool::new(Provider::OpenAI);
    let result = pool.select_key(None);
    assert!(result.is_err());
}

#[test]
fn test_all_keys_rate_limited() {
    let mut pool = KeyPool::new(Provider::OpenAI);
    pool.add_key(
        KeyInfo::new("key1".to_string(), "sk-xxx1".to_string(), Provider::OpenAI)
            .with_max_rpm(Some(2)),
    );

    assert!(
        !pool.all_keys_rate_limited(),
        "Should not be rate limited initially"
    );

    pool.select_key(None).unwrap();
    pool.select_key(None).unwrap();

    assert!(
        pool.all_keys_rate_limited(),
        "After 2 requests, key should be rate limited (count=2, max=2)"
    );

    let result = pool.select_key(None);
    assert!(
        result.is_err(),
        "3rd request should fail - key rate limited"
    );
}

#[test]
fn test_all_keys_unavailable_due_to_rate_limit() {
    let mut pool = KeyPool::new(Provider::OpenAI);
    pool.add_key(
        KeyInfo::new("key1".to_string(), "sk-xxx1".to_string(), Provider::OpenAI)
            .with_max_rpm(Some(2)),
    );

    pool.select_key(None).unwrap();
    pool.select_key(None).unwrap();
    assert!(
        pool.all_keys_unavailable(),
        "Key should be unavailable due to rate limit"
    );
    assert!(
        pool.all_keys_rate_limited(),
        "Key should also show as rate limited"
    );

    let result = pool.select_key(None);
    assert!(
        result.is_err(),
        "select_key should fail when all keys rate limited"
    );
}

#[test]
fn empty_pool_names_its_provider() {
    let mut pool = KeyPool::new(Provider::MiniMax);
    match pool.select_key(None) {
        Err(LlmBrokerError::NoKeysAvailable(name)) => assert_eq!(name, "MiniMax"),
        _ => panic!("an empty pool has no key"),
    }
    assert_eq!(pool.choose_key_at(None, &vec![], 0), Choice::NoKeys);
    assert!(!pool.all_keys_rate_limited());
    assert!(!pool.all_keys_unavailable());
    assert!(!pool.has_rate_limited_keys());
}

#[test]
fn rotation_passes_over_keys_that_say_no() {
    let mut pool = pool_of(
        RotationStrategy::RoundRobin,
        vec![numbered_key(1), numbered_key(2), numbered_key(3)],
    );
    pool.mark_key_failed_at("key2", secs(60), 0);
    let times = vec![secs(1); 3];
    assert_eq!(pool.choose_key_at(None, &times, 0), Choice::Key(0));
    assert_eq!(pool.choose_key_at(None, &times, 0), Choice::Key(2));
    assert_eq!(pool.choose_key_at(None, &times, 0), Choice::Key(0));
    // With the rest over, the fourth turn falls to the first of three again.
    let times = vec![secs(60); 3];
    assert_eq!(pool.choose_key_at(None, &times, 0), Choice::Key(0));
    assert_eq!(pool.choose_key_at(None, &times, 0), Choice::Key(1));
}

#[test]
fn rotation_is_fair() {
    let mut pool = pool_of(
        RotationStrategy::RoundRobin,
        vec![numbered_key(1), numbered_key(2), numbered_key(3)],
    );
    let times = vec![0; 3];
    let mut chosen = Vec::new();
    for _ in 0..6 {
        match pool.choose_key_at(None, &times, 0) {
            Choice::Key(i) => chosen.push(i),
            other => panic!("{:?}", other),
        }
    }
    assert_eq!(chosen, vec![0, 1, 2, 0, 1, 2]);
}

#[test]
fn weighted_draw_hits_each_key_by_its_weight() {
    let mut pool = pool_of(
        RotationStrategy::WeightedRandom,
        vec![
            numbered_key(1).with_weight(2),
            numbered_key(2).with_weight(0),
            numbered_key(3).with_weight(3),
        ],
    );
    let times = vec![0; 3];
    let mut hits = vec![0, 0, 0];
    for random in 0..5 {
        match pool.choose_key_at(None, &times, random) {
            Choice::Key(i) => hits[i] += 1,
            other => panic!("{:?}", other),
        }
    }
    assert_eq!(hits, vec![2, 0, 3]);
    assert_eq!(pool.choose_key_at(None, &times, 5), Choice::Key(0));
    assert_eq!(pool.choose_key_at(None, &times, 7), Choice::Key(2));
}

#[test]
fn weights_that_add_up_to_nothing_admit_no_draw() {
    let mut pool = pool_of(
        RotationStrategy::WeightedRandom,
        vec![numbered_key(1).with_weight(0)],
    );
    assert_eq!(pool.choose_key_at(None, &vec![0], 1), Choice::Unweighted);
    assert!(pool.try_select_key(None).is_none());

    let mut heavy = pool_of(
        RotationStrategy::WeightedRandom,
        vec![
            numbered_key(1).with_weight(u32::MAX),
            numbered_key(2).with_weight(1),
        ],
    );
    assert_eq!(heavy.choose_key_at(None, &vec![0, 0], 1), Choice::Unweighted);
    heavy.mark_key_failed_at("key2", secs(60), 0);
    assert_eq!(heavy.choose_key_at(None, &vec![0, 0], 1), Choice::Key(0));
}

#[test]
fn weighted_selection_gives_a_key() {
    let mut pool = pool_of(
        RotationStrategy::WeightedRandom,
        vec![numbered_key(1).with_weight(2), numbered_key(2)],
    );
    for _ in 0..20 {
        assert!(pool.select_key(None).is_ok());
    }
    match pool.try_select_key(None) {
        Some(Ok(key)) => assert!(key.usage_count() > 0),
        _ => panic!("both keys may be used"),
    }
}

#[test]
fn least_used_takes_the_first_of_the_least() {
    let mut pool = pool_of(
        RotationStrategy::LeastUsed,
        vec![numbered_key(1), numbered_key(2), numbered_key(3)],
    );
    let times = vec![0; 3];
    assert_eq!(pool.choose_key_at(None, &times, 0), Choice::Key(0));
    assert_eq!(pool.choose_key_at(None, &times, 0), Choice::Key(1));
    assert_eq!(pool.choose_key_at(None, &times, 0), Choice::Key(2));
    assert_eq!(pool.choose_key_at(None, &times, 0), Choice::Key(0));
    assert_eq!(pool.keys()[0].usage_count(), 2);
    assert_eq!(pool.keys()[1].usage_count(), 1);
}

#[test]
fn selection_by_model() {
    let mut pool = pool_of(
        RotationStrategy::RoundRobin,
        vec![
            numbered_key(1).with_models(vec!["gpt-4".to_string()]),
            numbered_key(2).with_models(vec!["gemini-pro".to_string()]),
            numbered_key(3),
        ],
    );
    assert_eq!(ids_of(pool.available_keys_for_model("gemini-pro")), vec!["key2", "key3"]);
    assert_eq!(ids_of(pool.available_keys()), vec!["key1", "key2", "key3"]);
    assert_eq!(pool.select_key(Some("gpt-4")).unwrap().id, "key1");
    assert_eq!(pool.select_key(Some("gemini-pro")).unwrap().id, "key3");
    assert_eq!(pool.select_key(Some("other")).unwrap().id, "key3");
}

#[test]
fn rate_limited_keys_are_listed() {
    let mut pool = pool_of(
        RotationStrategy::RoundRobin,
        vec![
            numbered_key(1).with_max_rpm(Some(1)),
            numbered_key(2),
            numbered_key(3).with_max_rpm(Some(1)),
        ],
    );
    assert!(!pool.has_rate_limited_keys());
    assert_eq!(pool.select_key(None).unwrap().id, "key1");
    assert_eq!(ids_of(pool.rate_limited_keys()), vec!["key1"]);
    assert_eq!(pool.select_key(None).unwrap().id, "key3");
    assert!(pool.has_rate_limited_keys());
    assert!(!pool.all_keys_rate_limited());
    assert_eq!(ids_of(pool.rate_limited_keys()), vec!["key1", "key3"]);
    assert!(pool.rate_limited_keys_at(&vec![secs(60), 0, secs(59)]).len() == 1);
}

#[test]
fn spent_quota_switches_to_the_next_key() {
    let mut pool = pool_of(
        RotationStrategy::RoundRobin,
        vec![
            numbered_key(1).with_max_rpm(Some(1)),
            numbered_key(2).with_max_rpm(Some(1)),
        ],
    );
    assert_eq!(pool.select_key(None).unwrap().id, "key1");
    assert_eq!(pool.select_key(None).unwrap().id, "key2");
    assert!(pool.select_key(None).is_err());
}

#[test]
fn handed_out_key_is_the_pools_own() {
    let mut pool = pool_of(RotationStrategy::RoundRobin, vec![numbered_key(1), numbered_key(2)]);
    let key = pool.select_key(None).unwrap();
    assert_eq!(key.id, "key1");
    assert_eq!(key.usage_count(), 1);
    key.set_cooldown(secs(60));
    assert!(pool.keys()[0].cooldown_remaining().is_some());
    for _ in 0..3 {
        assert_eq!(pool.select_key(None).unwrap().id, "key2");
    }
    assert!(ids_of(pool.available_keys()) == vec!["key2"]);

    let mut balancer = LoadBalancer::new();
    balancer.get_or_create_pool(Provider::OpenAI).add_key(numbered_key(1));
    balancer
        .select_key(&Provider::OpenAI, None)
        .unwrap()
        .set_cooldown(secs(60));
    assert!(balancer.select_key(&Provider::OpenAI, None).is_err());
    match balancer.try_select_key(&Provider::OpenAI, None) {
        Some(Err(_)) => {}
        _ => panic!("the only key rests"),
    }
}

#[test]
fn any_key_that_is_handed_out_is_the_balancers_own() {
    let mut balancer = LoadBalancer::new();
    for provider in [Provider::OpenAI, Provider::Azure] {
        balancer.get_or_create_pool(provider).add_key(numbered_key(1));
    }
    match balancer.select_any() {
        AnyKey::Key(key, provider) => {
            assert_eq!(provider, Provider::OpenAI);
            key.set_cooldown(secs(60));
        }
        _ => panic!("both keys are free"),
    }
    match balancer.select_any() {
        AnyKey::Key(_, provider) => assert_eq!(provider, Provider::Azure),
        _ => panic!("one key is free"),
    }
}

#[test]
fn zero_quota_counts_as_spent_once_asked() {
    let mut pool = pool_of(
        RotationStrategy::RoundRobin,
        vec![numbered_key(1).with_max_rpm(Some(0))],
    );
    assert!(pool.all_keys_rate_limited_at(&vec![0]));
    assert!(!pool.all_keys_rate_limited_at(&vec![secs(61)]));
    assert_eq!(pool.choose_key_at(None, &vec![secs(61)], 0), Choice::NoKeys);
    assert!(pool.all_keys_rate_limited_at(&vec![secs(61)]));
    assert!(pool.all_keys_rate_limited_at(&vec![secs(62)]));
    assert!(!pool.all_keys_rate_limited_at(&vec![secs(121)]));
}

#[test]
fn windows_of_all_keys_are_looked_at() {
    let mut pool = pool_of(
        RotationStrategy::RoundRobin,
        vec![
            numbered_key(1).with_max_rpm(Some(1)),
            numbered_key(2).with_max_rpm(Some(1)),
        ],
    );
    assert_eq!(pool.choose_key_at(None, &vec![secs(61); 2], 0), Choice::Key(0));
    assert_eq!(pool.choose_key_at(None, &vec![secs(100); 2], 0), Choice::Key(1));
    assert_eq!(pool.choose_key_at(None, &vec![secs(121) - 1; 2], 0), Choice::NoKeys);
    // The windows of both keys began at the sixty-first second.
    assert_eq!(pool.able_keys_at(None, &vec![secs(121); 2]), vec![0, 1]);
    // A key that rests is not looked at.
    pool.mark_key_failed_at("key1", secs(60), secs(121));
    pool.look_at_all(&vec![secs(125); 2]);
    assert!(pool.keys()[0].is_rate_limited_at(secs(120)));
    assert!(!pool.keys()[1].is_rate_limited_at(secs(125)));
}

#[test]
fn failed_key_stays_out_for_many_requests() {
    let mut pool = pool_of(
        RotationStrategy::RoundRobin,
        vec![numbered_key(1), numbered_key(2), numbered_key(3)],
    );
    pool.mark_key_failed_at("key2", secs(60), secs(10));
    for second in 10..70u64 {
        assert_ne!(
            pool.choose_key_at(None, &vec![secs(second); 3], 0),
            Choice::Key(1)
        );
    }
    // A key whose rest is over takes its turns again.
    let mut chosen = Vec::new();
    for _ in 0..3 {
        chosen.push(pool.choose_key_at(None, &vec![secs(70); 3], 0));
    }
    assert_eq!(chosen, vec![Choice::Key(0), Choice::Key(1), Choice::Key(2)]);
}

#[test]
fn request_is_counted_against_the_chosen_key_alone() {
    for strategy in [
        RotationStrategy::RoundRobin,
        RotationStrategy::WeightedRandom,
        RotationStrategy::LeastUsed,
        RotationStrategy::LatencyBased,
    ] {
        let keys = (1..4).map(|n| numbered_key(n).with_max_rpm(Some(2))).collect();
        let mut pool = pool_of(strategy, keys);
        let mut chosen = vec![0, 0, 0];
        for second in 0..6u64 {
            match pool.choose_key_at(None, &vec![secs(second); 3], 4) {
                Choice::Key(i) => chosen[i] += 1,
                other => panic!("{:?}", other),
            }
        }
        assert_eq!(chosen, vec![2, 2, 2]);
        assert_eq!(pool.choose_key_at(None, &vec![secs(59); 3], 4), Choice::NoKeys);
        assert!(matches!(pool.choose_key_at(None, &vec![secs(60); 3], 4), Choice::Key(_)));
    }
}

#[test]
fn request_without_a_key_is_not_counted() {
    let mut pool = pool_of(
        RotationStrategy::WeightedRandom,
        vec![numbered_key(1)
            .with_weight(0)
            .with_max_rpm(Some(1))
            .with_models(vec!["gpt-4".to_string()])],
    );
    assert_eq!(pool.choose_key_at(Some("gpt-4"), &vec![0], 0), Choice::Unweighted);
    assert_eq!(pool.choose_key_at(Some("gemini-pro"), &vec![0], 0), Choice::NoKeys);
    assert!(!pool.keys()[0].is_rate_limited_at(0));
    assert_eq!(pool.keys()[0].usage_count(), 0);
    assert_eq!(pool.able_keys_at(Some("gpt-4"), &vec![0]), vec![0]);
}

#[test]
fn unserved_model_leaves_the_quota_to_others() {
    let mut pool = pool_of(
        RotationStrategy::RoundRobin,
        vec![
            numbered_key(1)
                .with_models(vec!["gpt-4".to_string()])
                .with_max_rpm(Some(1)),
            numbered_key(2),
        ],
    );
    assert_eq!(pool.select_key(Some("gemini-pro")).unwrap().id, "key2");
    pool.mark_key_failed("key2", secs(60));
    assert_eq!(pool.select_key(Some("gpt-4")).unwrap().id, "key1");
}

#[test]
fn latency_based_takes_the_fastest() {
    let mut pool = pool_of(
        RotationStrategy::LatencyBased,
        vec![numbered_key(1), numbered_key(2), numbered_key(3)],
    );
    let times = vec![0; 3];
    // A key that has not been measured goes first.
    assert_eq!(pool.choose_key_at(None, &times, 0), Choice::Key(0));
    pool.note_latency("key1", 500);
    assert_eq!(pool.choose_key_at(None, &times, 0), Choice::Key(1));
    pool.note_latency("key2", 200);
    assert_eq!(pool.choose_key_at(None, &times, 0), Choice::Key(2));
    pool.note_latency("key3", 200);
    // Of two that are as fast, the first.
    assert_eq!(pool.choose_key_at(None, &times, 0), Choice::Key(1));
    assert_eq!(pool.choose_key_at(None, &times, 0), Choice::Key(1));
    pool.note_latency("key2", 900);
    assert_eq!(pool.choose_key_at(None, &times, 0), Choice::Key(2));
    pool.note_latency("nobody", 1);
    pool.mark_key_failed_at("key3", secs(60), 0);
    assert_eq!(pool.choose_key_at(None, &times, 0), Choice::Key(0));
    assert_eq!(pool.select_key(None).unwrap().id, "key1");
}

#[test]
fn response_times_are_kept_to_their_provider() {
    let mut balancer = LoadBalancer::new().with_strategy(RotationStrategy::LatencyBased);
    for provider in [Provider::OpenAI, Provider::Azure] {
        let pool = balancer.get_or_create_pool(provider);
        pool.add_key(numbered_key(1));
        pool.add_key(numbered_key(2));
    }
    balancer.note_latency(&Provider::Azure, "key1", 9);
    balancer.note_latency(&Provider::GLM, "key1", 9);
    assert_eq!(balancer.select_key(&Provider::OpenAI, None).unwrap().id, "key1");
    assert_eq!(balancer.select_key(&Provider::Azure, None).unwrap().id, "key2");
}

#[test]
fn balancer_tells_when_no_draw_is_defined() {
    let mut balancer = LoadBalancer::new().with_strategy(RotationStrategy::WeightedRandom);
    let pool = balancer.get_or_create_pool(Provider::OpenAI);
    pool.add_key(numbered_key(1).with_weight(0));
    pool.add_key(numbered_key(2));
    match balancer.try_select_key(&Provider::OpenAI, None) {
        Some(Ok(key)) => assert_eq!(key.id, "key2"),
        _ => panic!("one key has a weight"),
    }
    balancer.mark_failure(&Provider::OpenAI, "key2", secs(60));
    assert!(balancer.try_select_key(&Provider::OpenAI, None).is_none());
    balancer.mark_failure(&Provider::OpenAI, "key1", secs(60));
    assert!(matches!(balancer.try_select_key(&Provider::OpenAI, None), Some(Err(_))));
    assert!(matches!(balancer.try_select_key(&Provider::GLM, None), Some(Err(_))));
}

#[test]
fn asking_stops_at_the_first_yes() {
    let mut pool = pool_of(
        RotationStrategy::RoundRobin,
        vec![
            numbered_key(1).with_max_rpm(Some(1)),
            numbered_key(2).with_max_rpm(Some(1)),
        ],
    );
    let times = vec![0, 0];
    assert!(!pool.all_keys_unavailable_at(&times));
    // The first key said yes, and the second was not asked.
    assert!(pool.keys()[0].is_rate_limited_at(0));
    assert!(!pool.keys()[1].is_rate_limited_at(0));
    assert!(!pool.all_keys_unavailable_at(&times));
    assert!(pool.all_keys_unavailable_at(&times));
}

#[test]
fn failure_of_an_unknown_key_changes_nothing() {
    let mut pool = pool_of(RotationStrategy::RoundRobin, vec![numbered_key(1)]);
    pool.mark_key_failed("nobody", secs(60));
    assert_eq!(pool.select_key(None).unwrap().id, "key1");
    assert_eq!(pool.find_key("key1"), Some(0));
    assert_eq!(pool.find_key("nobody"), None);
}

#[test]
fn failure_rests_the_first_key_of_that_id() {
    let mut pool = pool_of(
        RotationStrategy::RoundRobin,
        vec![numbered_key(1), numbered_key(1)],
    );
    pool.mark_key_failed("key1", secs(60));
    assert!(pool.keys()[0].cooldown_remaining().is_some());
    assert!(pool.keys()[1].cooldown_remaining().is_none());
}

#[test]
fn pool_tells_its_settings() {
    let pool = pool_of(RotationStrategy::LeastUsed, vec![]);
    assert_eq!(*pool.provider(), Provider::OpenAI);
    assert_eq!(*pool.strategy(), RotationStrategy::LeastUsed);
    assert!(pool.keys().is_empty());
    assert!(pool.read_clocks().is_empty());
}

#[test]
fn pools_are_made_once_with_the_default_strategy() {
    let mut balancer = LoadBalancer::new().with_strategy(RotationStrategy::LeastUsed);
    balancer
        .get_or_create_pool(Provider::Azure)
        .add_key(numbered_key(1));
    balancer
        .get_or_create_pool(Provider::GLM)
        .add_key(numbered_key(2));
    balancer
        .get_or_create_pool(Provider::Azure)
        .add_key(numbered_key(3));
    assert_eq!(balancer.pools().len(), 2);
    let azure = balancer.pool(&Provider::Azure).unwrap();
    assert_eq!(ids(azure.keys()), vec!["key1", "key3"]);
    assert_eq!(*azure.strategy(), RotationStrategy::LeastUsed);
    assert_eq!(*azure.provider(), Provider::Azure);
    assert!(balancer.pool(&Provider::OpenAI).is_none());
    assert!(LoadBalancer::default().pools().is_empty());
}

#[test]
fn balancer_selects_from_the_providers_pool() {
    let mut balancer = LoadBalancer::new();
    balancer
        .get_or_create_pool(Provider::Anthropic)
        .add_key(numbered_key(1));
    assert_eq!(balancer.select_key(&Provider::Anthropic, None).unwrap().id, "key1");
    match balancer.select_key(&Provider::DeepSeek, None) {
        Err(error) => assert_eq!(error.message(), "No available keys for provider DeepSeek"),
        Ok(_) => panic!("there is no such pool"),
    }
}

#[test]
fn failure_is_kept_to_its_provider() {
    let mut balancer = LoadBalancer::new();
    for provider in [Provider::OpenAI, Provider::Azure] {
        balancer.get_or_create_pool(provider).add_key(numbered_key(1));
    }
    balancer.mark_failure(&Provider::Azure, "key1", secs(60));
    balancer.mark_failure(&Provider::GLM, "key1", secs(60));
    assert!(balancer.select_key(&Provider::OpenAI, None).is_ok());
    assert!(balancer.select_key(&Provider::Azure, None).is_err());
}

fn reads_at(balancer: &LoadBalancer, now: u128) -> Vec<PoolReads> {
    balancer
        .pools()
        .iter()
        .map(|entry| PoolReads {
            times: vec![now; entry.pool.keys().len()],
            random: 0,
        })
        .collect()
}

#[test]
fn any_key_comes_from_the_first_pool_that_has_one() {
    let mut balancer = LoadBalancer::new();
    balancer.get_or_create_pool(Provider::Vertex);
    for provider in [Provider::OpenAI, Provider::Azure] {
        balancer.get_or_create_pool(provider).add_key(numbered_key(1));
    }
    let reads = reads_at(&balancer, 0);
    assert_eq!(balancer.choose_any_at(&reads), AnyChoice::Key(1, 0));
    balancer.mark_failure_at(&Provider::OpenAI, "key1", secs(60), 0);
    assert_eq!(balancer.choose_any_at(&reads), AnyChoice::Key(2, 0));
    balancer.mark_failure_at(&Provider::Azure, "key1", secs(60), 0);
    assert_eq!(balancer.choose_any_at(&reads), AnyChoice::NoKeys);
    let later = reads_at(&balancer, secs(60));
    assert_eq!(balancer.choose_any_at(&later), AnyChoice::Key(1, 0));
}

#[test]
fn any_key_is_handed_out_with_its_provider() {
    let mut balancer = LoadBalancer::new().with_strategy(RotationStrategy::WeightedRandom);
    balancer
        .get_or_create_pool(Provider::OpenRouter)
        .add_key(numbered_key(4).with_weight(0));
    match balancer.select_any() {
        AnyKey::Unweighted(provider) => assert_eq!(provider, Provider::OpenRouter),
        _ => panic!("the only key has no weight"),
    }
    balancer
        .get_or_create_pool(Provider::OpenRouter)
        .add_key(numbered_key(5));
    match balancer.select_any() {
        AnyKey::Key(key, provider) => {
            assert_eq!(key.id, "key5");
            assert_eq!(provider, Provider::OpenRouter);
        }
        _ => panic!("one key has a weight"),
    }
    assert!(matches!(LoadBalancer::new().select_any(), AnyKey::NoKeys));
}

#[test]
fn failover_lasts_for_the_cooldown() {
    let mut balancer = LoadBalancer::new();
    let pool = balancer.get_or_create_pool(Provider::OpenAI);
    pool.add_key(numbered_key(1));
    pool.add_key(numbered_key(2));
    balancer.mark_failure_at(&Provider::OpenAI, "key1", secs(60), secs(5));
    for now in [secs(5), secs(30), secs(65) - 1] {
        let reads = reads_at(&balancer, now);
        assert_eq!(balancer.choose_any_at(&reads), AnyChoice::Key(0, 1));
    }
    balancer.mark_failure_at(&Provider::OpenAI, "key2", MAX_NANOS, secs(65));
    let reads = reads_at(&balancer, secs(65));
    assert_eq!(balancer.choose_any_at(&reads), AnyChoice::Key(0, 0));
}

#[test]
fn error_messages() {
    let name = || "x".to_string();
    let messages = [
        (LlmBrokerError::NoKeysAvailable(name()), "No available keys for provider x"),
        (LlmBrokerError::AllKeysInCooldown(name()), "All keys in cooldown for provider x"),
        (LlmBrokerError::KeyNotFound(name()), "Key not found: x"),
        (LlmBrokerError::InvalidConfig(name()), "Invalid configuration: x"),
        (LlmBrokerError::ProxyError(name()), "Proxy error: x"),
        (LlmBrokerError::SerializationError(name()), "Serialization error: x"),
    ];
    for (error, message) in messages {
        assert_eq!(error.message(), message);
    }
}

#[test]
fn keys_stay_themselves() {
    let mut pool = pool_of(
        RotationStrategy::LeastUsed,
        vec![
            numbered_key(1)
                .with_models(vec!["gpt-4".to_string()])
                .with_max_rpm(Some(2)),
            numbered_key(2).with_weight(5),
        ],
    );
    for now in 0..5u64 {
        pool.choose_key_at(Some("gpt-4"), &vec![secs(now * 40); 2], 3);
        pool.mark_key_failed_at("key2", secs(1), secs(now * 40));
    }
    let keys = pool.keys();
    assert_eq!(ids(keys), vec!["key1", "key2"]);
    assert_eq!(keys[0].key, "sk-xxx1");
    assert_eq!(keys[0].models, vec!["gpt-4"]);
    assert_eq!(keys[0].max_rpm, Some(2));
    assert_eq!(keys[0].weight, 1);
    assert_eq!(keys[1].weight, 5);
    assert_eq!(*pool.strategy(), RotationStrategy::LeastUsed);
}

#[test]
fn quotas_hold_over_all_pools() {
    let mut balancer = LoadBalancer::new();
    for provider in [Provider::OpenAI, Provider::Azure] {
        balancer
            .get_or_create_pool(provider)
            .add_key(numbered_key(1).with_max_rpm(Some(2)));
    }
    let mut given = Vec::new();
    for second in 0..10u64 {
        let reads = reads_at(&balancer, secs(second));
        given.push(balancer.choose_any_at(&reads));
    }
    assert_eq!(given[0], AnyChoice::Key(0, 0));
    assert_eq!(given[1], AnyChoice::Key(0, 0));
    assert_eq!(given[2], AnyChoice::Key(1, 0));
    assert_eq!(given[3], AnyChoice::Key(1, 0));
    assert!(given[4..].iter().all(|choice| *choice == AnyChoice::NoKeys));
}
