//! What holds of the proxies.

#![allow(unused_imports)]

use crate::clock::{MAX_NANOS, NANOS_PER_SEC};
use crate::load_balancer::balancer_laws::{
    all_before_at, law_any_key, law_balancer_shows_its_fields, law_clock_of_a_key, law_failover,
    law_failure_touches_one_provider, law_the_right_key_is_reached, representable, serve_any,
    times_given,
};
use crate::load_balancer::key_info::{backoff_factor, KeyState, KeyView, Provider};
use crate::load_balancer::key_laws::law_what_a_failure_leaves;
use crate::load_balancer::key_pool::{position_of, PoolView};
use crate::load_balancer::pool_laws::{
    fits, law_all_limited_serves_nothing, lemma_position, says_yes,
};
use crate::load_balancer::{
    first_key_of, lemma_pool_position, pool_position, reads_fit, AnyChoice, BalancerView,
    PoolReadsView,
};
use crate::proxy::dns_cache::{law_addresses_live_for_thirty_seconds, DnsCache};
use crate::proxy::pingora_backend::{
    ctx_with_key, empty_ctx, failure_is_retried, failure_rests_key, is_rate_limit_reply, peer_at,
    request_headers_of, CtxView, Peer, PeerStep, PeerStepView, PingoraProxy, PingoraProxyCtx,
    PingoraProxyView, RateLimitReply, UpstreamFailure,
};
use crate::proxy::reqwest_backend::{
    forwarded, is_forwarded, raw_views, sent_headers, upstream_url_of, RawHeader, Reply,
    ReqwestProxy, ReqwestProxyView, RequestStep, RequestStepView, UpstreamRequest, UpstreamRequestView,
};
use crate::proxy::upstream::{
    auth_header_of, configured_parts, endpoint_of, header_views, is_failure_status, opt_parts,
    parsed_url, refused_url_of, Endpoint, EndpointView, Header, UrlParts,
};
use crate::text::{decimal_digits, host_port};
use crate::text_laws::{law_host_and_port, law_trailing_slashes, value_of};
use vstd::prelude::*;
use vstd::utf8::encode_utf8;

verus! {

/// The place of a key: the position of its provider's pool, and its own there.
pub open spec fn place_of(balancer: BalancerView, provider: Provider, id: Seq<char>) -> Option<
    (int, int),
> {
    match pool_position(balancer.pools, provider) {
        Some(i) => match position_of(balancer.pools[i].1.keys, id) {
            Some(k) => Some((i, k)),
            None => None,
        },
        None => None,
    }
}

/// A key still rests, at all readings of a run of requests, after it failed at the time
/// `now`.
pub open spec fn rests_still(
    balancer: BalancerView,
    place: (int, int),
    initial_cooldown_secs: u64,
    now: u128,
    reads: Seq<Seq<PoolReadsView>>,
) -> bool {
    let key = balancer.pools[place.0].1.keys[place.1];
    all_before_at(
        place.0,
        place.1,
        reads,
        now + initial_cooldown_secs * NANOS_PER_SEC * backoff_factor(key.state.backoff),
    )
}

/// A key whose request was answered with 429 or a server error is not handed out
/// again, by however many requests, before its cooldown is over; any other status
/// changes nothing.
pub proof fn law_refused_key_is_rotated_out(
    proxy: PingoraProxyView,
    ctx: CtxView,
    id: Seq<char>,
    provider: Provider,
    status: u16,
    now: u128,
    reads: Seq<Seq<PoolReadsView>>,
)
    requires
        proxy.balancer.distinct(),
        forall|r: int|
            0 <= r < reads.len() ==> reads_fit(proxy.balancer.pools, #[trigger] reads[r]),
        representable(proxy.balancer.pools),
        ctx.key_id == Some(id),
        ctx.provider == Some(provider),
        now <= MAX_NANOS,
    ensures
        !is_failure_status(status) ==> proxy.replied(ctx, status, now) == proxy,
        is_failure_status(status) ==> (place_of(proxy.balancer, provider, id) matches Some(place)
            ==> (rests_still(proxy.balancer, place, proxy.initial_cooldown_secs, now, reads)
            ==> times_given(
            serve_any(proxy.replied(ctx, status, now).balancer, reads).1,
            place.0,
            place.1,
        ) == 0)),
{
    lemma_cooldown_fits(proxy.initial_cooldown_secs);
    law_failover(
        proxy.balancer,
        provider,
        id,
        (proxy.initial_cooldown_secs * NANOS_PER_SEC) as u128,
        now,
        reads,
    );
}

proof fn lemma_cooldown_fits(initial_cooldown_secs: u64)
    ensures
        initial_cooldown_secs * NANOS_PER_SEC <= MAX_NANOS,
{
}

/// The same of the other proxy, and of requests that could not be sent.
pub proof fn law_refused_key_is_rotated_out_by_reqwest(
    proxy: ReqwestProxyView,
    request: UpstreamRequestView,
    status: u16,
    now: u128,
    reads: Seq<Seq<PoolReadsView>>,
)
    requires
        proxy.balancer.distinct(),
        forall|r: int|
            0 <= r < reads.len() ==> reads_fit(proxy.balancer.pools, #[trigger] reads[r]),
        representable(proxy.balancer.pools),
        now <= MAX_NANOS,
    ensures
        !is_failure_status(status) ==> proxy.replied(request, status, now) == proxy,
        is_failure_status(status) ==> proxy.replied(request, status, now) == proxy.failed(
            request,
            now,
        ),
        place_of(proxy.balancer, request.provider, request.key_id) matches Some(place) ==> (
        rests_still(proxy.balancer, place, proxy.initial_cooldown_secs, now, reads)
            ==> times_given(
            serve_any(proxy.failed(request, now).balancer, reads).1,
            place.0,
            place.1,
        ) == 0),
{
    lemma_cooldown_fits(proxy.initial_cooldown_secs);
    law_failover(
        proxy.balancer,
        request.provider,
        request.key_id,
        (proxy.initial_cooldown_secs * NANOS_PER_SEC) as u128,
        now,
        reads,
    );
}

/// A request whose connection was closed is tried again with the same key at the
/// same upstream: the key does not rest, and no other key is asked.
pub proof fn law_closed_connection_keeps_key(
    proxy: PingoraProxyView,
    ctx: CtxView,
    now: u128,
    reads: Seq<PoolReadsView>,
    later: u128,
)
    requires
        ctx.endpoint is Some,
    ensures
        ({
            let (after, kept, retry) = proxy.broken(ctx, UpstreamFailure::ConnectionClosed, now);
            let (again, sent, step) = after.directed(kept, reads, later);
            &&& retry
            &&& after == proxy
            &&& again.balancer == proxy.balancer
            &&& sent == CtxView { retry_same_key: false, ..ctx }
            &&& step == proxy.sought(ctx.endpoint->0, later).1
        }),
{
}

/// A refused connection rests the key at once and is not tried again; one that
/// timed out rests the key and is tried again with a key that the balancer chooses.
pub proof fn law_failed_connection_rests_key(proxy: PingoraProxyView, ctx: CtxView, now: u128)
    ensures
        proxy.broken(ctx, UpstreamFailure::ConnectRefused, now) == (
            proxy.failed(ctx, now),
            CtxView { retry_same_key: false, ..ctx },
            false,
        ),
        proxy.broken(ctx, UpstreamFailure::ConnectTimedout, now) == (
            proxy.failed(ctx, now),
            CtxView { retry_same_key: false, ..ctx },
            true,
        ),
{
}

/// A request that is turned away because all quotas are spent would not have been
/// given a key.
pub proof fn law_turned_away_for_a_reason(balancer: BalancerView, reads: Seq<PoolReadsView>)
    requires
        reads_fit(balancer.pools, reads),
        representable(balancer.pools),
        balancer.all_limited(reads),
    ensures
        balancer.choose_any(reads).1 is NoKeys,
{
    law_any_key(balancer, reads);
    let pools = balancer.pools;
    assert forall|i: int, k: int|
        #![trigger says_yes(pools[i].1, k, None, reads[i].times)]
        0 <= i < pools.len() && 0 <= k < pools[i].1.keys.len() implies !says_yes(
        pools[i].1,
        k,
        None,
        reads[i].times,
    ) by {
        assert(pools[i].1.all_limited(reads[i].times));
        assert(pools[i].1.keys[k].rate_limited(reads[i].times[k]));
    }
}

/// A request that finds a key is sent to the upstream of that very key, with its
/// credentials.
pub proof fn law_request_carries_chosen_key(
    proxy: PingoraProxyView,
    ctx: CtxView,
    reads: Seq<PoolReadsView>,
    now: u128,
)
    requires
        !ctx.retry_same_key,
    ensures
        ({
            let (balancer, choice) = proxy.balancer.choose_any(reads);
            let (after, sent, step) = proxy.directed(ctx, reads, now);
            &&& after.balancer == balancer
            &&& choice matches AnyChoice::Key(i, k) ==> sent == ctx_with_key(
                ctx,
                balancer.pools[i as int].1.keys[k as int],
                balancer.pools[i as int].0,
                proxy.dump_requests,
            ) && (step is Connect || step is Resolve)
            &&& choice is NoKeys ==> step is NoKeys && sent == ctx
        }),
{
}

/// What is passed on of the client's headers is what may be passed on, all of it,
/// in its order.
proof fn lemma_forwarded(incoming: Seq<(Seq<char>, Seq<u8>)>)
    ensures
        forall|j: int|
            0 <= j < forwarded(incoming).len() ==> is_forwarded(
                (#[trigger] forwarded(incoming)[j]).0,
            ) && incoming.contains(forwarded(incoming)[j]),
        forall|i: int|
            0 <= i < incoming.len() && is_forwarded((#[trigger] incoming[i]).0) ==> forwarded(
                incoming,
            ).contains(incoming[i]),
    decreases incoming.len(),
{
    if incoming.len() > 0 {
        let rest = incoming.drop_last();
        let last = incoming.last();
        let before = forwarded(rest);
        let all = forwarded(incoming);
        lemma_forwarded(rest);
        assert(incoming[incoming.len() - 1] == last);
        assert forall|j: int| 0 <= j < all.len() implies is_forwarded((#[trigger] all[j]).0)
            && incoming.contains(all[j]) by {
            if j < before.len() {
                assert(all[j] == before[j]);
                let i = choose|i: int| 0 <= i < rest.len() && rest[i] == before[j];
                assert(incoming[i] == all[j]);
            }
        }
        assert forall|i: int|
            0 <= i < incoming.len() && is_forwarded((#[trigger] incoming[i]).0) implies all.contains(
            incoming[i],
        ) by {
            if i < rest.len() {
                assert(rest[i] == incoming[i]);
                let j = choose|j: int| 0 <= j < before.len() && before[j] == rest[i];
                assert(all[j] == incoming[i]);
            } else {
                assert(all[all.len() - 1] == last);
            }
        }
    }
}

/// The client's credentials never reach the upstream: the first header is the
/// broker's key, the last may be the host, and every other header is one of the
/// client's that names neither host nor credentials. No other header of the client
/// is lost.
pub proof fn law_client_credentials_stay(
    request: UpstreamRequestView,
    incoming: Seq<(Seq<char>, Seq<u8>)>,
)
    ensures
        ({
            let sent = sent_headers(request, incoming);
            let passed = forwarded(incoming);
            &&& sent[0] == (request.auth.0, encode_utf8(request.auth.1))
            &&& forall|j: int|
                1 <= j <= passed.len() ==> is_forwarded((#[trigger] sent[j]).0)
                    && incoming.contains(sent[j])
            &&& sent.len() == 1 + passed.len() + if request.host is Some {
                1int
            } else {
                0
            }
            &&& request.host matches Some(host) ==> sent.last() == ("Host"@, encode_utf8(host))
            &&& forall|i: int|
                0 <= i < incoming.len() && is_forwarded((#[trigger] incoming[i]).0)
                    ==> sent.contains(incoming[i])
        }),
{
    let sent = sent_headers(request, incoming);
    let passed = forwarded(incoming);
    lemma_forwarded(incoming);
    assert forall|j: int| 1 <= j <= passed.len() implies is_forwarded((#[trigger] sent[j]).0)
        && incoming.contains(sent[j]) by {
        assert(sent[j] == passed[j - 1]);
    }
    assert forall|i: int|
        0 <= i < incoming.len() && is_forwarded((#[trigger] incoming[i]).0) implies sent.contains(
        incoming[i],
    ) by {
        let j = choose|j: int| 0 <= j < passed.len() && passed[j] == incoming[i];
        assert(sent[j + 1] == incoming[i]);
    }
}

/// A key is carried as its provider expects it: Anthropic's in `x-api-key`, Azure's in
/// `api-key`, and that of every other provider as a bearer token in `Authorization`.
pub proof fn law_credentials(provider: Provider, key: Seq<char>)
    ensures
        provider is Anthropic ==> auth_header_of(provider, key) == ("x-api-key"@, key),
        provider is Azure ==> auth_header_of(provider, key) == ("api-key"@, key),
        !(provider is Anthropic) && !(provider is Azure) ==> auth_header_of(provider, key) == (
            "Authorization"@,
            "Bearer "@ + key,
        ),
{
}

/// What carries a key tells the keys of one provider apart, and always ends in the key
/// itself.
pub proof fn law_credentials_carry_the_key(provider: Provider, key: Seq<char>, other: Seq<char>)
    ensures
        auth_header_of(provider, key) == auth_header_of(provider, other) ==> key == other,
        key.is_suffix_of(auth_header_of(provider, key).1),
        auth_header_of(provider, key).0 == auth_header_of(provider, other).0,
{
    law_credentials(provider, key);
    law_credentials(provider, other);
    let bearer = "Bearer "@;
    let n = bearer.len() as int;
    assert((bearer + key).skip(n) =~= key);
    assert((bearer + other).skip(n) =~= other);
    assert(key.is_suffix_of(bearer + key)) by {
        assert((bearer + key).subrange(
            (bearer + key).len() as int - key.len() as int,
            (bearer + key).len() as int,
        ) =~= key);
    }
    assert(key.is_suffix_of(key)) by {
        assert(key.subrange(0, key.len() as int) =~= key);
    }
}

/// A status tells of a failure exactly if it is 429, or 500 or more.
pub proof fn law_failure_statuses(status: u16)
    ensures
        is_failure_status(status) <==> status == 429 || status >= 500,
{
}

/// The endpoint of a URL has the URL's host, or else that of the default upstream, the
/// URL's port, or else 443, and is encrypted exactly if the scheme is `https`. Where
/// there is no URL, or it cannot be parsed, it is the default upstream, encrypted.
pub proof fn law_endpoints(base_url: Option<Seq<char>>)
    ensures
        ({
            let endpoint = endpoint_of(configured_parts(base_url));
            let parts = match base_url {
                Some(url) => parsed_url(url),
                None => None,
            };
            match parts {
                None => endpoint.host == "api.openai.com"@ && endpoint.port == 443
                    && endpoint.tls,
                Some((scheme, host, port)) => {
                    &&& host matches Some(h) ==> endpoint.host == h
                    &&& host is None ==> endpoint.host == "api.openai.com"@
                    &&& port matches Some(p) ==> endpoint.port == p
                    &&& port is None ==> endpoint.port == 443
                    &&& endpoint.tls <==> scheme == "https"@
                },
            }
        }),
        refused_url_of(base_url) == match base_url {
            Some(url) => if parsed_url(url) is None {
                Some(url)
            } else {
                None
            },
            None => None,
        },
{
}

/// The peer of an endpoint is reached at the address that was found, at the endpoint's
/// port, is asked for by the endpoint's host, and is encrypted as the endpoint is.
pub proof fn law_peers(endpoint: EndpointView, ip: Seq<char>)
    ensures
        ({
            let peer = peer_at(endpoint, ip);
            &&& peer.address.take(ip.len() as int) == ip
            &&& peer.address[ip.len() as int] == ':'
            &&& value_of(peer.address.skip(ip.len() as int + 1)) == endpoint.port
            &&& peer.address.len() > ip.len() + 1
            &&& peer.tls == endpoint.tls
            &&& peer.sni == endpoint.host
        }),
{
    law_host_and_port(ip, endpoint.port);
}

/// The way to an endpoint: an address that is kept for its host and port, and whose time
/// is not over, is used, and kept anew; without one it has to be resolved. Nothing but
/// the kept addresses changes.
pub proof fn law_the_way_to_an_endpoint(
    proxy: PingoraProxyView,
    endpoint: EndpointView,
    now: u128,
)
    requires
        now <= MAX_NANOS,
    ensures
        ({
            let address = host_port(endpoint.host, endpoint.port);
            let (after, step) = proxy.sought(endpoint, now);
            let alive = proxy.dns.contains_key(address) && now < proxy.dns[address].1;
            &&& after == PingoraProxyView { dns: after.dns, ..proxy }
            &&& alive && proxy.dns[address].0.len() > 0 ==> step == PeerStepView::Connect(
                peer_at(endpoint, proxy.dns[address].0),
            )
            &&& !(alive && proxy.dns[address].0.len() > 0) ==> step == PeerStepView::Resolve(
                endpoint,
            )
            &&& alive ==> after.dns == proxy.dns.insert(
                address,
                (proxy.dns[address].0, (now + 30_000_000_000) as u128),
            )
            &&& !alive ==> after.dns == proxy.dns
        }),
{
    law_addresses_live_for_thirty_seconds(
        proxy.dns,
        host_port(endpoint.host, endpoint.port),
        Seq::empty(),
        now,
    );
}

/// An address that was resolved is used and kept for thirty seconds; without one the
/// host stands in for it, and nothing is kept.
pub proof fn law_resolved_addresses(
    proxy: PingoraProxyView,
    endpoint: EndpointView,
    ip: Option<Seq<char>>,
    now: u128,
)
    requires
        now <= MAX_NANOS,
    ensures
        ({
            let (after, peer) = proxy.resolved(endpoint, ip, now);
            &&& after == PingoraProxyView { dns: after.dns, ..proxy }
            &&& ip matches Some(found) ==> peer == peer_at(endpoint, found) && after.dns
                == proxy.dns.insert(
                host_port(endpoint.host, endpoint.port),
                (found, (now + 30_000_000_000) as u128),
            )
            &&& ip is None ==> peer == peer_at(endpoint, endpoint.host) && after == proxy
        }),
{
    law_addresses_live_for_thirty_seconds(
        proxy.dns,
        host_port(endpoint.host, endpoint.port),
        match ip {
            Some(found) => found,
            None => Seq::empty(),
        },
        now,
    );
}

/// What the proxy remembers of a request that was given a key is that key's: its id, its
/// credentials, its provider and its upstream.
pub proof fn law_memory_of_a_request(ctx: CtxView, key: KeyView, provider: Provider, dump: bool)
    ensures
        ({
            let after = ctx_with_key(ctx, key, provider, dump);
            let endpoint = endpoint_of(configured_parts(key.base_url));
            &&& after.key_id == Some(key.id)
            &&& after.api_key == Some(key.key)
            &&& after.provider == Some(provider)
            &&& after.upstream_host == Some(endpoint.host)
            &&& after.endpoint == Some(endpoint)
            &&& after.should_dump == dump
            &&& !after.retry_same_key
            &&& after.request_body == ctx.request_body
            &&& after.refused_url == refused_url_of(key.base_url)
        }),
        ({
            let fresh = empty_ctx();
            &&& fresh.key_id is None && fresh.api_key is None && fresh.provider is None
            &&& fresh.upstream_host is None && fresh.request_body is None
            &&& fresh.endpoint is None && fresh.refused_url is None
            &&& !fresh.should_dump && !fresh.retry_same_key
        }),
{
}

/// A request that is not to be tried again with its own key is given one by the
/// balancer, goes to the upstream of that key, and is remembered with it. Without a key
/// it goes nowhere, and nothing is remembered.
pub proof fn law_where_a_request_goes(
    proxy: PingoraProxyView,
    ctx: CtxView,
    reads: Seq<PoolReadsView>,
    now: u128,
)
    requires
        !ctx.retry_same_key || ctx.endpoint is None,
    ensures
        ({
            let (balancer, choice) = proxy.balancer.choose_any(reads);
            let (after, sent, step) = proxy.directed(ctx, reads, now);
            &&& after.balancer == balancer
            &&& after.initial_cooldown_secs == proxy.initial_cooldown_secs
            &&& after.dump_requests == proxy.dump_requests
            &&& choice matches AnyChoice::Key(i, k) ==> {
                let key = balancer.pools[i as int].1.keys[k as int];
                let endpoint = endpoint_of(configured_parts(key.base_url));
                &&& sent == ctx_with_key(
                    ctx,
                    key,
                    balancer.pools[i as int].0,
                    proxy.dump_requests,
                )
                &&& step == proxy.sought(endpoint, now).1
                &&& after.dns == proxy.sought(endpoint, now).0.dns
            }
            &&& choice is NoKeys ==> step is NoKeys && sent == ctx && after.dns == proxy.dns
            &&& choice matches AnyChoice::Unweighted(i) ==> step == PeerStepView::Unweighted(
                balancer.pools[i as int].0,
            ) && sent == ctx && after.dns == proxy.dns
        }),
{
}

/// The headers that a request is sent with: the host that it goes to, if one is known,
/// the broker's own name, and the credentials of its key, if it has one. There are no
/// others.
pub proof fn law_request_headers(ctx: CtxView)
    ensures
        ({
            let headers = request_headers_of(ctx);
            let hosts: int = if ctx.upstream_host is Some {
                1
            } else {
                0
            };
            let keyed = ctx.api_key is Some && ctx.provider is Some;
            &&& ctx.upstream_host matches Some(host) ==> headers[0] == ("Host"@, host)
            &&& headers[hosts] == ("User-Agent"@, "llm-broker/1.0"@)
            &&& keyed ==> headers[hosts + 1] == auth_header_of(ctx.provider->0, ctx.api_key->0)
            &&& headers.len() == hosts + 1 + if keyed {
                1int
            } else {
                0
            }
        }),
{
}

/// A client that is turned away is answered with 429, and told of the first key there is
/// and its quota, that nothing of it is left, and to come back in sixty seconds.
pub proof fn law_answer_to_a_client_turned_away(balancer: BalancerView, reply: RateLimitReply)
    requires
        is_rate_limit_reply(balancer, reply),
    ensures
        reply.status == 429,
        reply.headers@.len() == 4,
        reply.headers@[0]@ == ("X-RateLimit-Limit"@, decimal_digits(reply.max_rpm as nat)),
        reply.headers@[1]@ == ("X-RateLimit-Remaining"@, "0"@),
        reply.headers@[2]@ == ("Retry-After"@, "60"@),
        reply.headers@[3]@ == ("X-RateLimit-Key"@, reply.key_id@),
        match first_key_of(balancer.pools) {
            Some((id, max_rpm)) => reply.key_id@ == id && reply.max_rpm == match max_rpm {
                Some(max) => max,
                None => 0,
            },
            None => reply.key_id@ == "unknown"@ && reply.max_rpm == 0,
        },
{
    let views = header_views(reply.headers@);
    assert(views.len() == reply.headers@.len());
    assert(views[0] == reply.headers@[0]@);
    assert(views[1] == reply.headers@[1]@);
    assert(views[2] == reply.headers@[2]@);
    assert(views[3] == reply.headers@[3]@);
}

/// The key of a request that failed at a time of its clock rests from that time on: for
/// the configured seconds after a first failure, five times as long after a second, and
/// twenty-five times after any later one. It is the first key of the id that the request
/// carried, in the pool of its provider. Nothing else of the proxy changes.
pub proof fn law_failed_request_rests_its_key(
    proxy: PingoraProxyView,
    ctx: CtxView,
    provider: Provider,
    id: Seq<char>,
    now: u128,
    i: int,
    k: int,
)
    requires
        proxy.balancer.distinct(),
        now <= MAX_NANOS,
        ctx.key_id == Some(id),
        ctx.provider == Some(provider),
        is_at(proxy.balancer, provider, id, i, k),
    ensures
        proxy.knows_key_of(ctx),
        ({
            let after = proxy.failed(ctx, now);
            let key = proxy.balancer.pools[i].1.keys[k];
            let left = after.balancer.pools[i].1.keys[k];
            &&& key.state.backoff == 0 ==> left.state.cooldown_until == Some(
                (now + proxy.initial_cooldown_secs * 1_000_000_000) as u128,
            ) && left.state.backoff == 1
            &&& key.state.backoff == 1 ==> left.state.cooldown_until == Some(
                (now + 5 * proxy.initial_cooldown_secs * 1_000_000_000) as u128,
            ) && left.state.backoff == 2
            &&& key.state.backoff >= 2 ==> left.state.cooldown_until == Some(
                (now + 25 * proxy.initial_cooldown_secs * 1_000_000_000) as u128,
            ) && left.state.backoff == key.state.backoff
            &&& left == KeyView {
                state: KeyState {
                    cooldown_until: left.state.cooldown_until,
                    backoff: left.state.backoff,
                    ..key.state
                },
                ..key
            }
            &&& after == PingoraProxyView {
                balancer: proxy.balancer.with_key(i, k, left),
                ..proxy
            }
        }),
{
    lemma_cooldown_fits(proxy.initial_cooldown_secs);
    let cooldown = (proxy.initial_cooldown_secs * NANOS_PER_SEC) as u128;
    law_the_right_key_is_reached(proxy.balancer, provider, id, cooldown, now, 0, i, k);
    law_what_a_failure_leaves(proxy.balancer.pools[i].1.keys[k], cooldown, now);
}

/// The first key of the given id in the pool of the given provider stands at this place.
pub open spec fn is_at(
    balancer: BalancerView,
    provider: Provider,
    id: Seq<char>,
    i: int,
    k: int,
) -> bool {
    &&& 0 <= i < balancer.pools.len()
    &&& balancer.pools[i].0 == provider
    &&& 0 <= k < balancer.pools[i].1.keys.len()
    &&& balancer.pools[i].1.keys[k].id == id
    &&& forall|j: int| 0 <= j < k ==> (#[trigger] balancer.pools[i].1.keys[j]).id != id
}

/// The same of the other proxy.
pub proof fn law_failed_request_rests_its_key_by_reqwest(
    proxy: ReqwestProxyView,
    request: UpstreamRequestView,
    now: u128,
    i: int,
    k: int,
)
    requires
        proxy.balancer.distinct(),
        now <= MAX_NANOS,
        is_at(proxy.balancer, request.provider, request.key_id, i, k),
    ensures
        proxy.balancer.has_key(request.provider, request.key_id),
        ({
            let after = proxy.failed(request, now);
            let key = proxy.balancer.pools[i].1.keys[k];
            let left = after.balancer.pools[i].1.keys[k];
            &&& key.state.backoff == 0 ==> left.state.cooldown_until == Some(
                (now + proxy.initial_cooldown_secs * 1_000_000_000) as u128,
            ) && left.state.backoff == 1
            &&& key.state.backoff == 1 ==> left.state.cooldown_until == Some(
                (now + 5 * proxy.initial_cooldown_secs * 1_000_000_000) as u128,
            ) && left.state.backoff == 2
            &&& key.state.backoff >= 2 ==> left.state.cooldown_until == Some(
                (now + 25 * proxy.initial_cooldown_secs * 1_000_000_000) as u128,
            ) && left.state.backoff == key.state.backoff
            &&& left == KeyView {
                state: KeyState {
                    cooldown_until: left.state.cooldown_until,
                    backoff: left.state.backoff,
                    ..key.state
                },
                ..key
            }
            &&& after == ReqwestProxyView {
                balancer: proxy.balancer.with_key(i, k, left),
                ..proxy
            }
        }),
{
    lemma_cooldown_fits(proxy.initial_cooldown_secs);
    let cooldown = (proxy.initial_cooldown_secs * NANOS_PER_SEC) as u128;
    law_the_right_key_is_reached(
        proxy.balancer,
        request.provider,
        request.key_id,
        cooldown,
        now,
        0,
        i,
        k,
    );
    law_what_a_failure_leaves(proxy.balancer.pools[i].1.keys[k], cooldown, now);
}

/// What a reply and a broken exchange mean. A status of 429, or of 500 or more, is a
/// failure of the request's key, and any other changes nothing. A closed connection
/// costs the key nothing and is tried again with the same key; one that timed out or was
/// refused is a failure of the key, and only the refused one is not tried again; any
/// other break is tried again and costs the key nothing.
pub proof fn law_replies_and_breaks(
    proxy: PingoraProxyView,
    ctx: CtxView,
    status: u16,
    failure: UpstreamFailure,
    now: u128,
)
    ensures
        status == 429 || status >= 500 ==> proxy.replied(ctx, status, now) == proxy.failed(
            ctx,
            now,
        ),
        status != 429 && status < 500 ==> proxy.replied(ctx, status, now) == proxy,
        ({
            let (after, kept, retry) = proxy.broken(ctx, failure, now);
            &&& after == if failure is ConnectTimedout || failure is ConnectRefused {
                proxy.failed(ctx, now)
            } else {
                proxy
            }
            &&& kept == CtxView { retry_same_key: failure is ConnectionClosed, ..ctx }
            &&& retry == !(failure is ConnectRefused)
        }),
        ctx.key_id is None || ctx.provider is None ==> proxy.failed(ctx, now) == proxy,
{
}

/// A reply means the same to the other proxy.
pub proof fn law_replies_to_reqwest(
    proxy: ReqwestProxyView,
    request: UpstreamRequestView,
    status: u16,
    now: u128,
)
    ensures
        status == 429 || status >= 500 ==> proxy.replied(request, status, now) == proxy.failed(
            request,
            now,
        ),
        status != 429 && status < 500 ==> proxy.replied(request, status, now) == proxy,
{
}

/// The time that a response took is noted for the key that the request was sent with, in
/// both proxies, and for no other.
pub proof fn law_response_times_are_noted(
    proxy: PingoraProxyView,
    ctx: CtxView,
    other: ReqwestProxyView,
    request: UpstreamRequestView,
    nanos: u64,
    i: int,
    k: int,
)
    requires
        proxy.balancer.distinct(),
        other.balancer.distinct(),
    ensures
        ctx.key_id is Some && ctx.provider is Some && is_at(
            proxy.balancer,
            ctx.provider->0,
            ctx.key_id->0,
            i,
            k,
        ) ==> proxy.timed(ctx, nanos) == (PingoraProxyView {
            balancer: proxy.balancer.with_key(
                i,
                k,
                proxy.balancer.pools[i].1.keys[k].timed(nanos),
            ),
            ..proxy
        }),
        ctx.key_id is None || ctx.provider is None ==> proxy.timed(ctx, nanos) == proxy,
        is_at(other.balancer, request.provider, request.key_id, i, k) ==> other.timed(
            request,
            nanos,
        ) == (ReqwestProxyView {
            balancer: other.balancer.with_key(
                i,
                k,
                other.balancer.pools[i].1.keys[k].timed(nanos),
            ),
            ..other
        }),
{
    if ctx.key_id is Some && ctx.provider is Some && is_at(
        proxy.balancer,
        ctx.provider->0,
        ctx.key_id->0,
        i,
        k,
    ) {
        law_the_right_key_is_reached(
            proxy.balancer,
            ctx.provider->0,
            ctx.key_id->0,
            0,
            0,
            nanos,
            i,
            k,
        );
    }
    if is_at(other.balancer, request.provider, request.key_id, i, k) {
        law_the_right_key_is_reached(
            other.balancer,
            request.provider,
            request.key_id,
            0,
            0,
            nanos,
            i,
            k,
        );
    }
}

/// The URL that a request is sent to is the key's own, or else the default one, without
/// the slashes at its end, and behind it the path as it came.
pub proof fn law_upstream_urls(base_url: Option<Seq<char>>, path: Option<Seq<char>>)
    ensures
        ({
            let url = upstream_url_of(base_url, path);
            let base = match base_url {
                Some(own) => own,
                None => "https://api.openai.com"@,
            };
            let behind = match path {
                Some(p) => p,
                None => Seq::empty(),
            };
            let n = url.len() - behind.len();
            &&& 0 <= n <= base.len()
            &&& url == base.take(n) + behind
            &&& forall|i: int| n <= i < base.len() ==> #[trigger] base[i] == '/'
            &&& n > 0 ==> base[n - 1] != '/'
        }),
{
    let base = match base_url {
        Some(own) => own,
        None => "https://api.openai.com"@,
    };
    law_trailing_slashes(base);
}

/// A request that is given a key by the other proxy is sent to that key's upstream, with
/// that key's credentials. Without a key the client is answered with 503.
pub proof fn law_where_reqwest_sends(
    proxy: ReqwestProxyView,
    path: Option<Seq<char>>,
    reads: Seq<PoolReadsView>,
)
    ensures
        ({
            let (balancer, choice) = proxy.balancer.choose_any(reads);
            let (after, step) = proxy.directed(path, reads);
            &&& after == ReqwestProxyView { balancer, ..proxy }
            &&& choice matches AnyChoice::Key(i, k) ==> {
                let key = balancer.pools[i as int].1.keys[k as int];
                let provider = balancer.pools[i as int].0;
                step matches RequestStepView::Send(request) && {
                    &&& request.url == upstream_url_of(key.base_url, path)
                    &&& request.key_id == key.id
                    &&& request.provider == provider
                    &&& request.auth == auth_header_of(provider, key.key)
                    &&& request.host == match key.base_url {
                        Some(url) => match parsed_url(url) {
                            Some((_, host, _)) => host,
                            None => None,
                        },
                        None => None,
                    }
                }
            }
            &&& choice is NoKeys ==> step == RequestStepView::Answer(
                (503u16, "No available keys"@),
            )
            &&& choice matches AnyChoice::Unweighted(i) ==> step == RequestStepView::Unweighted(
                balancer.pools[i as int].0,
            )
        }),
{
}

/// What is passed on of the client's headers: all but those that are named `host`,
/// `authorization`, `x-api-key` or `api-key`, each as often as it came, and in the order
/// in which they came.
pub proof fn law_what_is_passed_on(
    first: Seq<(Seq<char>, Seq<u8>)>,
    second: Seq<(Seq<char>, Seq<u8>)>,
    line: (Seq<char>, Seq<u8>),
)
    ensures
        forwarded(first + second) == forwarded(first) + forwarded(second),
        line.0 == "host"@ || line.0 == "authorization"@ || line.0 == "x-api-key"@ || line.0
            == "api-key"@ ==> forwarded(seq![line]).len() == 0,
        line.0 != "host"@ && line.0 != "authorization"@ && line.0 != "x-api-key"@ && line.0
            != "api-key"@ ==> forwarded(seq![line]) == seq![line],
        forwarded(Seq::empty()).len() == 0,
        is_forwarded(line.0) <==> line.0 != "host"@ && line.0 != "authorization"@ && line.0
            != "x-api-key"@ && line.0 != "api-key"@,
    decreases second.len(),
{
    assert(seq![line].drop_last() =~= Seq::empty());
    assert(forwarded(Seq::empty()) =~= Seq::empty());
    assert(forwarded(seq![line]) =~= if is_forwarded(line.0) {
        seq![line]
    } else {
        Seq::empty()
    });
    if second.len() > 0 {
        let rest = second.drop_last();
        law_what_is_passed_on(first, rest, line);
        assert((first + second).drop_last() =~= first + rest);
        assert((first + second).last() == second.last());
        assert(forwarded(first + second) =~= forwarded(first) + forwarded(second));
    } else {
        assert(first + second =~= first);
        assert(forwarded(first) + forwarded(second) =~= forwarded(first));
    }
}

/// What is seen of the records that the proxies hand out is what they hold, field by
/// field.
pub proof fn law_records_show_their_fields(
    endpoint: Endpoint,
    line: Header,
    raw: RawHeader,
    peer: Peer,
    reply: Reply,
    request: UpstreamRequest,
    ctx: PingoraProxyCtx,
)
    ensures
        endpoint@.host == endpoint.host@ && endpoint@.port == endpoint.port && endpoint@.tls
            == endpoint.tls,
        line@ == (line.name@, line.value@),
        raw@ == (raw.name@, raw.value@),
        peer@.address == peer.address@ && peer@.tls == peer.tls && peer@.sni == peer.sni@,
        reply@ == (reply.status, reply.message@),
        request@.url == request.url@ && request@.key_id == request.key_id@,
        request@.provider == request.provider && request@.auth == (
            request.auth.name@,
            request.auth.value@,
        ),
        request.host matches Some(host) ==> request@.host == Some(host@),
        request.host is None ==> request@.host is None,
        ctx.key_id matches Some(id) ==> ctx@.key_id == Some(id@),
        ctx.key_id is None ==> ctx@.key_id is None,
        ctx.api_key matches Some(key) ==> ctx@.api_key == Some(key@),
        ctx.api_key is None ==> ctx@.api_key is None,
        ctx@.provider == ctx.provider && ctx@.should_dump == ctx.should_dump,
        ctx.upstream_host matches Some(host) ==> ctx@.upstream_host == Some(host@),
        ctx.upstream_host is None ==> ctx@.upstream_host is None,
        ctx.request_body matches Some(body) ==> ctx@.request_body == Some(body@),
        ctx.request_body is None ==> ctx@.request_body is None,
        ctx.endpoint matches Some(end) ==> ctx@.endpoint == Some(end@),
        ctx.endpoint is None ==> ctx@.endpoint is None,
        ctx@.retry_same_key == ctx.retry_same_key,
        ctx.refused_url matches Some(url) ==> ctx@.refused_url == Some(url@),
        ctx.refused_url is None ==> ctx@.refused_url is None,
{
}

/// What is seen of lists of headers, and of the parts of a URL, is what they hold.
pub proof fn law_lists_show_their_headers(
    lines: Seq<Header>,
    raws: Seq<RawHeader>,
    parts: UrlParts,
    i: int,
)
    ensures
        header_views(lines).len() == lines.len(),
        raw_views(raws).len() == raws.len(),
        0 <= i < lines.len() ==> header_views(lines)[i] == (lines[i].name@, lines[i].value@),
        0 <= i < raws.len() ==> raw_views(raws)[i] == (raws[i].name@, raws[i].value@),
        opt_parts(None) is None,
        opt_parts(Some(parts)) == Some(parts@),
        parts@.0 == parts.scheme@,
        parts@.2 == parts.port,
        parts.host matches Some(host) ==> parts@.1 == Some(host@),
        parts.host is None ==> parts@.1 is None,
{
}

/// What is to be done next, as it is seen, is what was decided.
pub proof fn law_steps_show_what_was_decided(step: PeerStep, next: RequestStep)
    ensures
        match step {
            PeerStep::Connect(peer) => step@ == PeerStepView::Connect(peer@),
            PeerStep::Resolve(endpoint) => step@ == PeerStepView::Resolve(endpoint@),
            PeerStep::NoKeys => step@ == PeerStepView::NoKeys,
            PeerStep::Unweighted(provider) => step@ == PeerStepView::Unweighted(provider),
        },
        match next {
            RequestStep::Send(request) => next@ == RequestStepView::Send(request@),
            RequestStep::Answer(reply) => next@ == RequestStepView::Answer(reply@),
            RequestStep::Unweighted(provider) => next@ == RequestStepView::Unweighted(provider),
        },
{
}

/// The clock from which the rest of a failed request's key is counted is that key's own,
/// in both proxies.
pub(crate) proof fn law_clock_of_a_request(
    proxy: PingoraProxy,
    ctx: CtxView,
    other: ReqwestProxy,
    request: UpstreamRequestView,
    i: int,
    k: int,
)
    requires
        proxy@.balancer.distinct(),
        other@.balancer.distinct(),
    ensures
        ctx.key_id is Some && ctx.provider is Some && is_at(
            proxy@.balancer,
            ctx.provider->0,
            ctx.key_id->0,
            i,
            k,
        ) ==> proxy@.knows_key_of(ctx) && proxy.clock_of_request(ctx)
            == proxy.load_balancer.entries@[i].pool.keys@[k].clock,
        is_at(other@.balancer, request.provider, request.key_id, i, k)
            ==> other.clock_of_request(request)
            == other.load_balancer.entries@[i].pool.keys@[k].clock,
{
    if ctx.key_id is Some && ctx.provider is Some && is_at(
        proxy@.balancer,
        ctx.provider->0,
        ctx.key_id->0,
        i,
        k,
    ) {
        law_clock_of_a_key(proxy.load_balancer, ctx.provider->0, ctx.key_id->0, i, k);
        law_the_right_key_is_reached(
            proxy@.balancer,
            ctx.provider->0,
            ctx.key_id->0,
            0,
            0,
            0,
            i,
            k,
        );
        law_balancer_shows_its_fields(proxy.load_balancer, i, k);
    }
    if is_at(other@.balancer, request.provider, request.key_id, i, k) {
        law_clock_of_a_key(other.load_balancer, request.provider, request.key_id, i, k);
        law_balancer_shows_its_fields(other.load_balancer, i, k);
    }
}

/// What is seen of the proxies is what they hold, field by field.
pub(crate) proof fn law_proxies_show_their_fields(proxy: PingoraProxy, other: ReqwestProxy)
    ensures
        proxy@.balancer == proxy.load_balancer@,
        proxy@.initial_cooldown_secs == proxy.initial_cooldown_secs,
        proxy@.dump_requests == proxy.dump_requests,
        proxy@.dns == proxy.dns_cache@,
        proxy.own_clock() == proxy.clock,
        proxy.key_clocks() == proxy.load_balancer.key_clocks(),
        other@.balancer == other.load_balancer@,
        other@.initial_cooldown_secs == other.initial_cooldown_secs,
        other.key_clocks() == other.load_balancer.key_clocks(),
{
}

/// What is seen of the address cache is what it holds.
pub(crate) proof fn law_cache_shows_its_entries(cache: DnsCache, address: Seq<char>)
    ensures
        cache@.contains_key(address) <==> cache.entries@.contains_key(address),
        cache@.contains_key(address) ==> cache@[address] == (
            cache.entries@[address].ip@,
            cache.entries@[address].expires_at,
        ),
{
}

} // verus!
