use aibroker::clock::secs;
use aibroker::load_balancer::key_info::{KeyInfo, Provider, RotationStrategy};
use aibroker::load_balancer::{AnyKey, LoadBalancer, PoolReads};
use aibroker::proxy::dns_cache::DnsCache;
use aibroker::proxy::pingora_backend::{
    upstream_request_filter, PeerStep, PingoraProxy, PingoraProxyCtx, UpstreamFailure,
};
use aibroker::proxy::reqwest_backend::{
    body_unreadable, forwards_header, host_from_parts, host_header_for, response_unreadable,
    upstream_url, RawHeader, ReqwestProxy, RequestStep, UpstreamRequest,
};
use aibroker::proxy::upstream::{
    auth_header, endpoint_for, endpoint_from_parts, header, refused_url, status_means_failure,
    Header, UrlParts,
};

fn some(text: &str) -> Option<String> {
    Some(text.to_string())
}

fn plain_key(id: &str) -> KeyInfo {
    KeyInfo::new(id.to_string(), format!("sk-{}", id), Provider::OpenAI)
}

fn balancer_with(keys: Vec<KeyInfo>) -> LoadBalancer {
    let mut balancer = LoadBalancer::new();
    let pool = balancer.get_or_create_pool(Provider::OpenAI);
    for key in keys {
        pool.add_key(key);
    }
    balancer
}

fn pingora(keys: Vec<KeyInfo>) -> PingoraProxy {
    PingoraProxy::new(balancer_with(keys), 60, false)
}

fn reads(keys: usize, now: u128) -> Vec<PoolReads> {
    vec![PoolReads {
        times: vec![now; keys],
        random: 0,
    }]
}

fn lines(headers: &[Header]) -> Vec<(String, String)> {
    headers
        .iter()
        .map(|h| (h.name.clone(), h.value.clone()))
        .collect()
}

fn line(name: &str, value: &str) -> (String, String) {
    (name.to_string(), value.to_string())
}

#[test]
fn urls_are_taken_apart() {
    let endpoint = endpoint_for(&some("https://api.example.com/v1"));
    assert_eq!(endpoint.host, "api.example.com");
    assert_eq!(endpoint.port, 443);
    assert!(endpoint.tls);

    let endpoint = endpoint_for(&some("HTTP://LocalHost:8081"));
    assert_eq!(endpoint.host, "localhost");
    assert_eq!(endpoint.port, 8081);
    assert!(!endpoint.tls);

    // A default port is not told apart from a missing one.
    let endpoint = endpoint_for(&some("http://localhost:80"));
    assert_eq!(endpoint.port, 443);
    assert!(!endpoint.tls);

    let endpoint = endpoint_for(&some("data:text/plain,x"));
    assert_eq!(endpoint.host, "api.openai.com");
    assert_eq!(endpoint.port, 443);
    assert!(!endpoint.tls);
}

#[test]
fn default_upstream_stands_in_for_a_bad_url() {
    for url in [None, some("not a url"), some("https://api.openai.com")] {
        let endpoint = endpoint_for(&url);
        assert_eq!(endpoint.host, "api.openai.com");
        assert_eq!(endpoint.port, 443);
        assert!(endpoint.tls);
    }
}

#[test]
fn bad_url_is_told() {
    assert_eq!(refused_url(&None), None);
    assert_eq!(refused_url(&some("https://x.example")), None);
    assert_eq!(refused_url(&some("not a url")), some("not a url"));

    let key = plain_key("key1").with_base_url(some("not a url"));
    let mut proxy = pingora(vec![key]);
    let mut ctx = proxy.new_ctx();
    assert_eq!(ctx.refused_url, None);
    proxy.upstream_peer(&mut ctx);
    assert_eq!(ctx.refused_url, some("not a url"));
    assert_eq!(ctx.upstream_host, some("api.openai.com"));
}

fn latency_balancer() -> LoadBalancer {
    let mut balancer = LoadBalancer::new().with_strategy(RotationStrategy::LatencyBased);
    let pool = balancer.get_or_create_pool(Provider::OpenAI);
    pool.add_key(plain_key("key1"));
    pool.add_key(plain_key("key2"));
    balancer
}

#[test]
fn fastest_key_is_sent_with() {
    let mut proxy = PingoraProxy::new(latency_balancer(), 60, false);
    let mut ctx = proxy.new_ctx();
    proxy.response_timed(&ctx, 1);
    proxy.upstream_peer_at(&mut ctx, &reads(2, 0), 0);
    assert_eq!(ctx.key_id, some("key1"));
    proxy.response_timed(&ctx, 50);
    proxy.upstream_peer_at(&mut ctx, &reads(2, 0), 0);
    assert_eq!(ctx.key_id, some("key2"));
    proxy.response_timed(&ctx, 70);
    assert_eq!(directed_key(&mut proxy, 2, 0), some("key1"));

    let mut proxy = ReqwestProxy::new(latency_balancer(), 60);
    let request = sent(proxy.proxy_request(None));
    assert_eq!(request.key_id, "key1");
    proxy.response_timed(&request, 50);
    let request = sent(proxy.proxy_request(None));
    assert_eq!(request.key_id, "key2");
    proxy.response_timed(&request, 40);
    assert_eq!(sent(proxy.proxy_request(None)).key_id, "key2");
}

#[test]
fn spent_quota_switches_keys_in_both_proxies() {
    let keys = || {
        vec![
            plain_key("key1").with_max_rpm(Some(1)),
            plain_key("key2").with_max_rpm(Some(1)),
        ]
    };
    let mut proxy = pingora(keys());
    assert_eq!(directed_key(&mut proxy, 2, 0), some("key1"));
    assert!(proxy.request_filter().is_none());
    assert_eq!(directed_key(&mut proxy, 2, 0), some("key2"));
    assert!(proxy.request_filter().is_some());

    let mut proxy = ReqwestProxy::new(balancer_with(keys()), 60);
    assert_eq!(sent(proxy.proxy_request(None)).key_id, "key1");
    assert_eq!(sent(proxy.proxy_request(None)).key_id, "key2");
    assert!(matches!(proxy.proxy_request(None), RequestStep::Answer(_)));
}

#[test]
fn endpoint_and_host_of_given_parts() {
    let parts = |scheme: &str, host: Option<&str>, port: Option<u16>| {
        Some(UrlParts {
            scheme: scheme.to_string(),
            host: host.map(|h| h.to_string()),
            port,
        })
    };
    let endpoint = endpoint_from_parts(parts("ws", Some("h"), Some(1)));
    assert_eq!(endpoint.host, "h");
    assert_eq!(endpoint.port, 1);
    assert!(!endpoint.tls);
    assert_eq!(endpoint_from_parts(None).host, "api.openai.com");
    assert_eq!(host_from_parts(parts("https", Some("h"), None)), some("h"));
    assert_eq!(host_from_parts(parts("https", None, None)), None);
    assert_eq!(host_from_parts(None), None);
}

#[test]
fn key_is_carried_as_the_provider_expects() {
    assert_eq!(lines(&[auth_header(Provider::Anthropic, "k")]), vec![line("x-api-key", "k")]);
    assert_eq!(lines(&[auth_header(Provider::Azure, "k")]), vec![line("api-key", "k")]);
    for provider in [Provider::OpenAI, Provider::NVIDIA, Provider::Other] {
        assert_eq!(
            lines(&[auth_header(provider, "k")]),
            vec![line("Authorization", "Bearer k")]
        );
    }
    assert_eq!(lines(&[header("a", "b")]), vec![line("a", "b")]);
}

#[test]
fn failure_statuses() {
    for status in [429, 500, 502, 503, 599, 600] {
        assert!(status_means_failure(status));
    }
    for status in [200, 301, 400, 401, 404, 428, 430, 499] {
        assert!(!status_means_failure(status));
    }
}

#[test]
fn cache_keeps_and_renews_addresses() {
    let mut cache = DnsCache::new();
    assert_eq!(cache.lookup_at("h:443", 0), None);
    cache.store_at("h:443", "1.2.3.4", 0);
    assert_eq!(cache.lookup_at("other:443", 0), None);
    assert_eq!(cache.lookup_at("h:443", secs(29)), some("1.2.3.4"));
    // The find at the 29th second keeps the address until the 59th.
    assert_eq!(cache.lookup_at("h:443", secs(58)), some("1.2.3.4"));
    assert_eq!(cache.lookup_at("h:443", secs(88)), None);
    cache.store_at("h:443", "", secs(88));
    assert_eq!(cache.lookup_at("h:443", secs(89)), None);
}

#[test]
fn request_is_directed_to_its_keys_upstream() {
    let key = plain_key("key1").with_base_url(some("http://localhost:9000/v1"));
    let mut proxy = PingoraProxy::new(balancer_with(vec![key]), 60, true);
    let mut ctx = proxy.new_ctx();
    assert_eq!(ctx.key_id, None);
    let endpoint = match proxy.upstream_peer_at(&mut ctx, &reads(1, 0), 0) {
        PeerStep::Resolve(endpoint) => endpoint,
        _ => panic!("nothing is cached yet"),
    };
    assert_eq!(ctx.key_id, some("key1"));
    assert_eq!(ctx.api_key, some("sk-key1"));
    assert_eq!(ctx.provider, Some(Provider::OpenAI));
    assert_eq!(ctx.upstream_host, some("localhost"));
    assert!(ctx.should_dump);
    assert!(proxy.dumps_requests());

    let peer = proxy.address_resolved_at(&endpoint, some("127.0.0.1"), 0);
    assert_eq!(peer.address, "127.0.0.1:9000");
    assert_eq!(peer.sni, "localhost");
    assert!(!peer.tls);

    let mut next = PingoraProxyCtx::default();
    match proxy.upstream_peer_at(&mut next, &reads(1, 0), secs(10)) {
        PeerStep::Connect(peer) => assert_eq!(peer.address, "127.0.0.1:9000"),
        _ => panic!("the address is cached"),
    }
}

#[test]
fn unresolved_host_stands_for_itself() {
    let mut proxy = pingora(vec![plain_key("key1")]);
    let mut ctx = proxy.new_ctx();
    let endpoint = match proxy.upstream_peer(&mut ctx) {
        PeerStep::Resolve(endpoint) => endpoint,
        _ => panic!("nothing is cached yet"),
    };
    let peer = proxy.address_resolved(&endpoint, None);
    assert_eq!(peer.address, "api.openai.com:443");
    assert_eq!(peer.sni, "api.openai.com");
    assert!(peer.tls);
    match proxy.upstream_peer(&mut ctx) {
        PeerStep::Resolve(endpoint) => assert_eq!(endpoint.host, "api.openai.com"),
        _ => panic!("nothing was kept"),
    }
}

#[test]
fn request_without_a_key_goes_nowhere() {
    let mut proxy = pingora(vec![]);
    let mut ctx = proxy.new_ctx();
    assert!(matches!(proxy.upstream_peer(&mut ctx), PeerStep::NoKeys));
    assert!(matches!(proxy.select_any_key(), AnyKey::NoKeys));
    assert_eq!(ctx.key_id, None);

    let mut balancer = LoadBalancer::new().with_strategy(RotationStrategy::WeightedRandom);
    balancer
        .get_or_create_pool(Provider::GLM)
        .add_key(plain_key("key1").with_weight(0));
    let mut proxy = PingoraProxy::new(balancer, 60, false);
    assert!(matches!(
        proxy.upstream_peer(&mut ctx),
        PeerStep::Unweighted(Provider::GLM)
    ));
}

#[test]
fn upstream_headers_of_a_request() {
    let mut ctx = PingoraProxyCtx::default();
    assert_eq!(
        lines(&upstream_request_filter(&ctx)),
        vec![line("User-Agent", "llm-broker/1.0")]
    );
    ctx.upstream_host = some("h");
    ctx.api_key = some("k");
    ctx.provider = Some(Provider::Anthropic);
    assert_eq!(
        lines(&upstream_request_filter(&ctx)),
        vec![
            line("Host", "h"),
            line("User-Agent", "llm-broker/1.0"),
            line("x-api-key", "k"),
        ]
    );
}

#[test]
fn clients_are_turned_away_when_all_quotas_are_spent() {
    let mut proxy = pingora(vec![plain_key("key1").with_max_rpm(Some(1))]);
    assert!(proxy.request_filter().is_none());
    let mut ctx = proxy.new_ctx();
    proxy.upstream_peer_at(&mut ctx, &reads(1, 0), 0);
    let reply = proxy.request_filter_at(&reads(1, secs(59))).unwrap();
    assert_eq!(reply.status, 429);
    assert_eq!(reply.key_id, "key1");
    assert_eq!(reply.max_rpm, 1);
    assert_eq!(
        lines(&reply.headers),
        vec![
            line("X-RateLimit-Limit", "1"),
            line("X-RateLimit-Remaining", "0"),
            line("Retry-After", "60"),
            line("X-RateLimit-Key", "key1"),
        ]
    );
    assert!(matches!(
        proxy.upstream_peer_at(&mut ctx, &reads(1, secs(59)), 0),
        PeerStep::NoKeys
    ));
    assert!(proxy.request_filter_at(&reads(1, secs(60))).is_none());
}

#[test]
fn client_is_told_of_a_quota_of_zero() {
    let mut proxy = pingora(vec![plain_key("key1").with_max_rpm(Some(0))]);
    assert!(proxy.request_filter_at(&reads(1, 0)).is_some());
    assert!(proxy.request_filter_at(&reads(1, secs(61))).is_none());
    assert_eq!(directed_key(&mut proxy, 1, secs(61)), None);
    let reply = proxy.request_filter_at(&reads(1, secs(62))).unwrap();
    assert_eq!(reply.status, 429);
    assert_eq!(reply.max_rpm, 0);
}

#[test]
fn key_of_a_proxy_is_its_own() {
    let mut proxy = pingora(vec![plain_key("key1"), plain_key("key2")]);
    match proxy.select_any_key() {
        AnyKey::Key(key, _) => key.set_cooldown(secs(60)),
        _ => panic!("both keys are free"),
    }
    let mut ctx = proxy.new_ctx();
    proxy.upstream_peer(&mut ctx);
    assert_eq!(ctx.key_id, some("key2"));

    let mut proxy = ReqwestProxy::new(balancer_with(vec![plain_key("key1")]), 60);
    match proxy.select_any_key() {
        AnyKey::Key(key, _) => key.set_cooldown(secs(60)),
        _ => panic!("the key is free"),
    }
    assert!(matches!(proxy.proxy_request(None), RequestStep::Answer(_)));
}

#[test]
fn without_pools_every_request_is_turned_away() {
    let proxy = PingoraProxy::new(LoadBalancer::new(), 60, false);
    let reply = proxy.request_filter().unwrap();
    assert_eq!(reply.key_id, "unknown");
    assert_eq!(reply.max_rpm, 0);
    assert_eq!(reply.headers[0].value, "0");

    // A pool without keys has not spent its quotas.
    assert!(pingora(vec![]).request_filter().is_none());
}

fn directed_key(proxy: &mut PingoraProxy, keys: usize, now: u128) -> Option<String> {
    let mut ctx = proxy.new_ctx();
    proxy.upstream_peer_at(&mut ctx, &reads(keys, now), now);
    ctx.key_id
}

#[test]
fn refused_key_is_rotated_out() {
    for status in [429, 503] {
        let mut proxy = pingora(vec![plain_key("key1"), plain_key("key2")]);
        let mut ctx = proxy.new_ctx();
        proxy.upstream_peer_at(&mut ctx, &reads(2, 0), 0);
        assert_eq!(ctx.key_id, some("key1"));
        proxy.upstream_response_filter_at(200, &ctx, 0);
        proxy.upstream_response_filter_at(status, &ctx, secs(1));
        assert_eq!(directed_key(&mut proxy, 2, secs(1)), some("key2"));
        assert_eq!(directed_key(&mut proxy, 2, secs(2)), some("key2"));
        assert_eq!(directed_key(&mut proxy, 2, secs(61) - 1), some("key2"));
        assert_eq!(directed_key(&mut proxy, 2, secs(61)), some("key1"));
    }
}

#[test]
fn success_changes_nothing() {
    let mut proxy = pingora(vec![plain_key("key1")]);
    let mut ctx = proxy.new_ctx();
    proxy.upstream_peer(&mut ctx);
    proxy.upstream_response_filter(200, &ctx);
    proxy.upstream_response_filter(404, &ctx);
    assert!(matches!(proxy.upstream_peer(&mut ctx), PeerStep::Resolve(_)));
    proxy.upstream_response_filter(500, &ctx);
    assert!(matches!(proxy.upstream_peer(&mut ctx), PeerStep::NoKeys));
}

#[test]
fn closed_connection_is_tried_again_with_the_same_key() {
    let mut proxy = pingora(vec![plain_key("key1"), plain_key("key2")]);
    let mut ctx = proxy.new_ctx();
    proxy.upstream_peer_at(&mut ctx, &reads(2, 0), 0);
    assert_eq!(ctx.key_id, some("key1"));
    assert!(proxy.error_while_proxy_at(UpstreamFailure::ConnectionClosed, &mut ctx, 0));
    proxy.upstream_peer_at(&mut ctx, &reads(2, 0), 0);
    assert_eq!(ctx.key_id, some("key1"));
    // The next attempt is an ordinary one again.
    proxy.upstream_peer_at(&mut ctx, &reads(2, 0), 0);
    assert_eq!(ctx.key_id, some("key2"));
    assert_eq!(directed_key(&mut proxy, 2, 0), some("key1"));
}

#[test]
fn failed_connections() {
    let mut proxy = pingora(vec![plain_key("key1"), plain_key("key2")]);
    let mut ctx = proxy.new_ctx();
    proxy.upstream_peer_at(&mut ctx, &reads(2, 0), 0);
    assert!(!proxy.error_while_proxy_at(UpstreamFailure::ConnectRefused, &mut ctx, 0));
    assert_eq!(directed_key(&mut proxy, 2, 0), some("key2"));
    assert_eq!(directed_key(&mut proxy, 2, 0), some("key2"));

    let mut proxy = pingora(vec![plain_key("key1"), plain_key("key2")]);
    let mut ctx = proxy.new_ctx();
    proxy.upstream_peer_at(&mut ctx, &reads(2, 0), 0);
    assert!(proxy.error_while_proxy(UpstreamFailure::ConnectTimedout, &mut ctx));
    assert_eq!(directed_key(&mut proxy, 2, 0), some("key2"));

    let mut proxy = pingora(vec![plain_key("key1")]);
    let mut ctx = proxy.new_ctx();
    proxy.upstream_peer_at(&mut ctx, &reads(1, 0), 0);
    assert!(proxy.error_while_proxy(UpstreamFailure::Other, &mut ctx));
    assert_eq!(directed_key(&mut proxy, 1, 0), some("key1"));
}

#[test]
fn upstream_urls() {
    assert_eq!(
        upstream_url(&some("https://x/v1//"), Some("/chat?a=b")),
        "https://x/v1/chat?a=b"
    );
    assert_eq!(
        upstream_url(&None, Some("/v1/chat/completions")),
        "https://api.openai.com/v1/chat/completions"
    );
    assert_eq!(upstream_url(&None, None), "https://api.openai.com");
    assert_eq!(host_header_for(&some("https://x.example:81/v1")), some("x.example"));
    assert_eq!(host_header_for(&some("nonsense")), None);
    assert_eq!(host_header_for(&None), None);
}

fn raw(name: &str, value: &[u8]) -> RawHeader {
    RawHeader {
        name: name.to_string(),
        value: value.to_vec(),
    }
}

fn sent(step: RequestStep) -> UpstreamRequest {
    match step {
        RequestStep::Send(request) => request,
        _ => panic!("there is a key"),
    }
}

#[test]
fn client_credentials_are_not_passed_on() {
    let key = plain_key("key1").with_base_url(some("https://x.example/v1"));
    let mut proxy = ReqwestProxy::new(balancer_with(vec![key]), 60);
    let request = sent(proxy.proxy_request(Some("/chat")));
    assert_eq!(request.url, "https://x.example/v1/chat");
    assert_eq!(request.key_id, "key1");
    let headers = request.headers(&vec![
        raw("host", b"broker"),
        raw("accept", b"text/html"),
        raw("authorization", b"Bearer mine"),
        raw("x-api-key", b"mine"),
        raw("api-key", b"mine"),
        raw("x-trace", &[0xff, 0x00]),
    ]);
    let got: Vec<(String, Vec<u8>)> = headers.into_iter().map(|h| (h.name, h.value)).collect();
    assert_eq!(
        got,
        vec![
            ("Authorization".to_string(), b"Bearer sk-key1".to_vec()),
            ("accept".to_string(), b"text/html".to_vec()),
            ("x-trace".to_string(), vec![0xff, 0x00]),
            ("Host".to_string(), b"x.example".to_vec()),
        ]
    );
    assert!(forwards_header("content-type"));
    assert!(!forwards_header("host"));
}

#[test]
fn request_without_an_upstream_of_its_own_has_no_host() {
    let mut proxy = ReqwestProxy::new(balancer_with(vec![plain_key("key1")]), 60);
    let request = sent(proxy.proxy_request_at(None, &reads(1, 0)));
    assert_eq!(request.host, None);
    assert_eq!(request.headers(&vec![]).len(), 1);
}

#[test]
fn reqwest_answers_without_keys() {
    let mut proxy = ReqwestProxy::new(LoadBalancer::new(), 60);
    match proxy.proxy_request(Some("/")) {
        RequestStep::Answer(reply) => {
            assert_eq!(reply.status, 503);
            assert_eq!(reply.message, "No available keys");
        }
        _ => panic!("there is no key"),
    }
    assert!(matches!(proxy.select_any_key(), AnyKey::NoKeys));

    let mut balancer = LoadBalancer::new().with_strategy(RotationStrategy::WeightedRandom);
    balancer
        .get_or_create_pool(Provider::Vertex)
        .add_key(plain_key("key1").with_weight(0));
    let mut proxy = ReqwestProxy::new(balancer, 60);
    assert!(matches!(
        proxy.proxy_request(None),
        RequestStep::Unweighted(Provider::Vertex)
    ));
}

#[test]
fn reqwest_rests_a_key_that_failed() {
    let mut proxy = ReqwestProxy::new(balancer_with(vec![plain_key("key1")]), 60);
    let request = sent(proxy.proxy_request_at(Some("/"), &reads(1, 0)));
    proxy.response_received_at(&request, 200, 0);
    let request = sent(proxy.proxy_request_at(Some("/"), &reads(1, 0)));
    let reply = proxy.send_failed_at(&request, "timed out", 0);
    assert_eq!(reply.status, 502);
    assert_eq!(reply.message, "Upstream error: timed out");
    assert!(matches!(
        proxy.proxy_request_at(Some("/"), &reads(1, secs(60) - 1)),
        RequestStep::Answer(_)
    ));
    let request = sent(proxy.proxy_request_at(Some("/"), &reads(1, secs(60))));
    proxy.response_received_at(&request, 429, secs(60));
    // The second failure rests the key for five minutes.
    assert!(matches!(
        proxy.proxy_request_at(Some("/"), &reads(1, secs(360) - 1)),
        RequestStep::Answer(_)
    ));
    sent(proxy.proxy_request_at(Some("/"), &reads(1, secs(360))));
}

#[test]
fn reqwest_takes_note_of_failures_now() {
    let mut proxy = ReqwestProxy::new(balancer_with(vec![plain_key("key1"), plain_key("key2")]), 60);
    let request = sent(proxy.proxy_request(None));
    assert_eq!(proxy.send_failed(&request, "e").message, "Upstream error: e");
    let request = sent(proxy.proxy_request(None));
    assert_eq!(request.key_id, "key2");
    proxy.response_received(&request, 500);
    assert!(matches!(proxy.proxy_request(None), RequestStep::Answer(_)));
}

#[test]
fn unreadable_bodies() {
    let reply = body_unreadable("cut off");
    assert_eq!((reply.status, reply.message.as_str()), (400, "Failed to read body: cut off"));
    let reply = response_unreadable("cut off");
    assert_eq!(
        (reply.status, reply.message.as_str()),
        (502, "Failed to read response body: cut off")
    );
}
