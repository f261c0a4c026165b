use aibroker::clock::{rand_u32, scramble, secs, Clock, MAX_NANOS};
use aibroker::load_balancer::key_info::{KeyInfo, Provider, RotationStrategy};
use aibroker::load_balancer::KeyPool;

fn new_test_key() -> KeyInfo {
    KeyInfo::new("test".to_string(), "sk-xxx".to_string(), Provider::OpenAI)
}

#[test]
fn test_key_available_when_not_in_cooldown() {
    let mut key = KeyInfo::new("test".to_string(), "sk-xxx".to_string(), Provider::OpenAI);
    assert!(key.is_available());
}

#[test]
fn test_key_unavailable_during_cooldown() {
    let mut key = KeyInfo::new("test".to_string(), "sk-xxx".to_string(), Provider::OpenAI);
    key.set_cooldown(secs(60));
    assert!(!key.is_available());
}

#[test]
fn test_model_filtering() {
    let mut key = KeyInfo::new("test".to_string(), "sk-xxx".to_string(), Provider::OpenAI)
        .with_models(vec!["gpt-4".to_string(), "gpt-3.5-turbo".to_string()]);

    assert!(key.is_available_for_model("gpt-4"));
    assert!(key.is_available_for_model("gpt-3.5-turbo"));
    assert!(!key.is_available_for_model("gemini-pro"));
}

#[test]
fn test_empty_model_list_accepts_all() {
    let mut key = KeyInfo::new("test".to_string(), "sk-xxx".to_string(), Provider::OpenAI);
    assert!(key.is_available_for_model("any-model"));
}

#[test]
fn test_check_rate_limit_allows_requests_under_limit() {
    let mut key = KeyInfo::new("test".to_string(), "sk-xxx".to_string(), Provider::OpenAI)
        .with_max_rpm(Some(5));

    for i in 1..=5 {
        assert!(
            key.check_rate_limit(),
            "Request {} should be allowed (limit is 5)",
            i
        );
    }
}

#[test]
fn test_check_rate_limit_blocks_requests_over_limit() {
    let mut key = KeyInfo::new("test".to_string(), "sk-xxx".to_string(), Provider::OpenAI)
        .with_max_rpm(Some(3));

    key.check_rate_limit();
    key.check_rate_limit();
    key.check_rate_limit();

    assert!(
        !key.check_rate_limit(),
        "Request 4 should be blocked (limit is 3)"
    );
    assert!(!key.check_rate_limit(), "Request 5 should also be blocked");
}

#[test]
fn test_is_rate_limited_does_not_increment() {
    let mut key = KeyInfo::new("test".to_string(), "sk-xxx".to_string(), Provider::OpenAI)
        .with_max_rpm(Some(2));

    assert!(
        !key.is_rate_limited(),
        "Should not be rate limited initially"
    );

    assert!(
        !key.is_rate_limited(),
        "Calling is_rate_limited should not increment"
    );
    assert!(
        !key.is_rate_limited(),
        "Calling is_rate_limited should not increment"
    );

    let available = key.check_rate_limit();
    let available2 = key.check_rate_limit();
    assert!(
        available && available2,
        "Should still have 2 requests available"
    );
}

#[test]
fn test_no_max_rpm_means_never_rate_limited() {
    let mut key = KeyInfo::new("test".to_string(), "sk-xxx".to_string(), Provider::OpenAI);

    assert!(
        !key.is_rate_limited(),
        "Key without max_rpm should not be rate limited"
    );
    assert!(
        key.check_rate_limit(),
        "check_rate_limit should always return true without max_rpm"
    );
}

#[test]
fn test_rate_limit_tracks_per_key_independently() {
    let mut key1 = KeyInfo::new("key1".to_string(), "sk-xxx1".to_string(), Provider::OpenAI)
        .with_max_rpm(Some(2));
    let mut key2 = KeyInfo::new("key2".to_string(), "sk-xxx2".to_string(), Provider::OpenAI)
        .with_max_rpm(Some(5));

    key1.check_rate_limit();
    key1.check_rate_limit();
    key2.check_rate_limit();
    key2.check_rate_limit();
    key2.check_rate_limit();

    assert!(
        key1.is_rate_limited(),
        "key1 (limit 2) should be rate limited after 2 requests"
    );
    assert!(
        !key2.is_rate_limited(),
        "key2 (limit 5) should not be rate limited after 3 requests"
    );

    assert!(!key1.check_rate_limit(), "key1 should be blocked");
    assert!(
        key2.check_rate_limit(),
        "key2 should allow one more request"
    );
}

#[test]
fn test_rate_limit_window_resets_on_expire() {
    let mut key = KeyInfo::new("test".to_string(), "sk-xxx".to_string(), Provider::OpenAI)
        .with_max_rpm(Some(2));

    key.check_rate_limit();
    key.check_rate_limit();
    assert!(
        key.is_rate_limited(),
        "Should be rate limited after 2 requests"
    );

    let mut pool = KeyPool::new(Provider::OpenAI);
    pool.add_key(key);
    let mut key = pool.keys().first().unwrap().clone();
    drop(pool);

    let after_61_secs = key.now() + secs(61);
    assert!(
        !key.is_rate_limited_at(after_61_secs),
        "Should not be rate limited after window expires"
    );
    assert!(
        key.check_rate_limit_at(after_61_secs),
        "check_rate_limit should allow request after window reset"
    );
}

#[test]
fn window_is_over_after_exactly_one_minute() {
    let mut key = new_test_key().with_max_rpm(Some(1));
    assert!(key.check_rate_limit_at(0));
    assert!(!key.check_rate_limit_at(secs(60) - 1));
    assert!(key.is_rate_limited_at(secs(60) - 1));
    assert!(!key.is_rate_limited_at(secs(60)));
    assert!(key.check_rate_limit_at(secs(60)));
    // The new window began at the sixtieth second.
    assert!(!key.check_rate_limit_at(secs(120) - 1));
    assert!(key.check_rate_limit_at(secs(120)));
}

#[test]
fn clock_that_stands_before_the_window_does_not_end_it() {
    let mut key = new_test_key().with_max_rpm(Some(1));
    assert!(key.check_rate_limit_at(secs(100)));
    assert!(!key.check_rate_limit_at(secs(10)));
    assert!(key.is_rate_limited_at(secs(10)));
}

#[test]
fn zero_quota_lets_nothing_through() {
    let mut key = new_test_key().with_max_rpm(Some(0));
    assert!(key.is_rate_limited_at(0));
    assert!(!key.check_rate_limit_at(0));
    assert!(!key.is_rate_limited_at(secs(60)));
    assert!(!key.check_rate_limit_at(secs(60)));
}

#[test]
fn quota_admits_exactly_its_number_in_a_window() {
    let mut key = new_test_key().with_max_rpm(Some(3));
    let mut passed = 0;
    for i in 0..10u64 {
        if key.check_rate_limit_at(secs(i)) {
            passed += 1;
        }
    }
    assert_eq!(passed, 3);
}

#[test]
fn backoff_rests_one_five_and_twenty_five_minutes() {
    let mut key = new_test_key();
    key.set_cooldown_at(secs(60), 0);
    assert_eq!(key.cooldown_remaining_at(0), Some(secs(60)));
    assert!(!key.is_available_at(secs(60) - 1));
    assert!(key.is_available_at(secs(60)));

    key.set_cooldown_at(secs(60), secs(100));
    assert_eq!(key.cooldown_remaining_at(secs(100)), Some(secs(300)));
    key.set_cooldown_at(secs(60), secs(500));
    assert_eq!(key.cooldown_remaining_at(secs(500)), Some(secs(1500)));
    key.set_cooldown_at(secs(60), secs(5000));
    assert_eq!(key.cooldown_remaining_at(secs(5000)), Some(secs(1500)));
    assert_eq!(key.cooldown_remaining_at(secs(6500)), None);
}

#[test]
fn clear_cooldown_ends_the_rest_and_the_backoff() {
    let mut key = new_test_key();
    key.set_cooldown_at(secs(60), 0);
    key.set_cooldown_at(secs(60), 0);
    key.clear_cooldown();
    assert!(key.is_available_at(0));
    assert_eq!(key.cooldown_remaining_at(0), None);
    key.set_cooldown_at(secs(60), 0);
    assert_eq!(key.cooldown_remaining_at(0), Some(secs(60)));
}

#[test]
fn longest_cooldown_does_not_overflow() {
    let mut key = new_test_key();
    for _ in 0..3 {
        key.set_cooldown_at(MAX_NANOS, MAX_NANOS);
    }
    assert_eq!(key.cooldown_remaining_at(MAX_NANOS), Some(25 * MAX_NANOS));
}

#[test]
fn resting_key_does_not_spend_its_quota() {
    let mut key = new_test_key().with_max_rpm(Some(1));
    key.set_cooldown_at(secs(10), 0);
    assert!(!key.is_available_at(secs(5)));
    assert!(key.is_available_at(secs(10)));
    assert!(!key.is_available_at(secs(11)));
}

#[test]
fn request_for_another_model_spends_no_quota() {
    let mut key = new_test_key()
        .with_models(vec!["gpt-4".to_string()])
        .with_max_rpm(Some(1));
    assert!(!key.is_available_for_at(Some("gemini-pro"), 0));
    assert!(!key.is_rate_limited_at(0));
    assert!(key.is_available_for_at(Some("gpt-4"), 0));
    assert!(key.is_rate_limited_at(0));
}

#[test]
fn question_changes_nothing() {
    let mut key = new_test_key()
        .with_models(vec!["gpt-4".to_string()])
        .with_max_rpm(Some(1));
    for _ in 0..3 {
        assert!(key.may_serve_at(Some("gpt-4"), 0));
        assert!(key.may_serve_at(None, 0));
        assert!(!key.may_serve_at(Some("gemini-pro"), 0));
    }
    assert!(key.check_rate_limit_at(0));
    assert!(!key.may_serve_at(None, secs(60) - 1));
    assert!(key.may_serve_at(None, secs(60)));
    key.set_cooldown_at(secs(10), secs(60));
    assert!(!key.may_serve_at(None, secs(70) - 1));
    assert!(key.may_serve_at(None, secs(70)));
    assert!(!new_test_key().with_max_rpm(Some(0)).may_serve_at(None, secs(60)));
    assert!(new_test_key().may_serve_at(Some("any-model"), 0));
}

#[test]
fn last_response_time_is_kept() {
    let mut key = new_test_key();
    assert_eq!(key.latency(), 0);
    key.note_latency(700);
    assert_eq!(key.latency(), 700);
    key.note_latency(300);
    assert_eq!(key.latency(), 300);
    assert_eq!(key.clone().latency(), 300);
    assert_eq!(key.usage_count(), 0);
}

#[test]
fn use_does_not_restart_the_clock() {
    let mut key = new_test_key();
    let mut before = key.now();
    while before == 0 {
        before = key.now();
    }
    key.mark_used();
    key.check_rate_limit();
    key.set_cooldown(secs(1));
    key.clear_cooldown();
    let key = key.with_weight(2).with_max_rpm(Some(3)).clone();
    assert!(key.now() >= before);
}

#[test]
fn success_does_not_take_back_the_backoff() {
    let mut key = new_test_key();
    key.set_cooldown_at(secs(60), 0);
    assert!(key.is_available_at(secs(60)));
    key.mark_used_at(secs(60));
    key.note_latency(1);
    key.set_cooldown_at(secs(60), secs(100));
    assert_eq!(key.cooldown_remaining_at(secs(100)), Some(secs(300)));
}

#[test]
fn cooldown_remaining_counts_down_with_the_clock() {
    let mut key = new_test_key();
    assert_eq!(key.cooldown_remaining(), None);
    key.set_cooldown(secs(3600));
    let left = key.cooldown_remaining().unwrap();
    assert!(left <= secs(3600));
    assert!(left > secs(3500));
}

#[test]
fn usage_is_counted() {
    let mut key = new_test_key();
    assert_eq!(key.usage_count(), 0);
    key.mark_used();
    key.mark_used_at(7);
    assert_eq!(key.usage_count(), 2);
}

#[test]
fn new_key_has_weight_one_and_no_limits() {
    let key = new_test_key();
    assert_eq!(key.id, "test");
    assert_eq!(key.key, "sk-xxx");
    assert_eq!(key.provider, Provider::OpenAI);
    assert!(key.models.is_empty());
    assert_eq!(key.weight, 1);
    assert_eq!(key.base_url, None);
    assert_eq!(key.max_rpm, None);
    let key = key
        .with_weight(7)
        .with_base_url(Some("https://example.com".to_string()))
        .with_max_rpm(Some(9));
    assert_eq!(key.weight, 7);
    assert_eq!(key.base_url.as_deref(), Some("https://example.com"));
    assert_eq!(key.max_rpm, Some(9));
}

#[test]
fn copy_of_a_key_keeps_its_bookkeeping() {
    let mut key = new_test_key().with_max_rpm(Some(1));
    key.mark_used_at(3);
    assert!(key.check_rate_limit_at(0));
    let mut copy = key.clone();
    assert_eq!(copy.usage_count(), 1);
    assert!(!copy.check_rate_limit_at(0));
    assert_eq!(copy.id, "test");
}

#[test]
fn provider_names_and_default_strategy() {
    assert_eq!(Provider::OpenAI.name(), "OpenAI");
    assert_eq!(Provider::NVIDIA.name(), "NVIDIA");
    assert_eq!(Provider::GLM.name(), "GLM");
    assert_eq!(Provider::Other.name(), format!("{:?}", Provider::Other));
    assert_eq!(RotationStrategy::default(), RotationStrategy::RoundRobin);
}

#[test]
fn clock_runs_forward() {
    let clock = Clock::start();
    let first = clock.read();
    let mut second = clock.read();
    while second == first {
        second = clock.read();
    }
    assert!(second > first);
    assert!(second < secs(20));
}

#[test]
fn scramble_is_one_congruential_step() {
    assert_eq!(scramble(0), 12345);
    assert_eq!(scramble(1), 1103527590);
    assert_eq!(scramble(4), 119106029);
    // The draws follow the wall clock: they do not stay the same.
    let first = rand_u32();
    let mut other = rand_u32();
    while other == first {
        other = rand_u32();
    }
    assert_ne!(first, other);
}
