//! The decisions of the Pingora proxy, phase by phase.

use crate::clock::{secs, Clock, MAX_NANOS};
use crate::load_balancer::key_info::Provider;
use crate::load_balancer::{AnyKey, LoadBalancer, PoolReads};
use crate::proxy::dns_cache::DnsCache;
use crate::proxy::upstream::{
    auth_header, endpoint_for, header, refused_url, status_means_failure, Endpoint, Header,
};
use crate::text::{decimal, join_host_port};
use vstd::prelude::*;
#[allow(unused_imports)]
use crate::clock::{is_reading, was_started, NANOS_PER_SEC};
#[allow(unused_imports)]
use crate::load_balancer::key_info::{backoff_factor, opt_text, KeyView};
#[allow(unused_imports)]
use crate::load_balancer::{
    first_key_of, handed_out_of, lemma_given_back, reads_fit, reads_from, reads_taken, reads_views, AnyChoice,
    BalancerView, PoolReadsView,
};
#[allow(unused_imports)]
use crate::proxy::dns_cache::{looked_up, stored, CacheView};
#[allow(unused_imports)]
use crate::proxy::upstream::{
    auth_header_of, configured_parts, endpoint_of, header_views, is_failure_status,
    refused_url_of, EndpointView,
};
#[allow(unused_imports)]
use crate::text::{decimal_digits, host_port};

verus! {

/// What the proxy remembers of one request.
pub struct PingoraProxyCtx {
    pub key_id: Option<String>,
    pub api_key: Option<String>,
    pub provider: Option<Provider>,
    pub upstream_host: Option<String>,
    pub should_dump: bool,
    pub request_body: Option<Vec<u8>>,
    /// Where the request goes.
    pub endpoint: Option<Endpoint>,
    /// The next attempt is to go to the same upstream with the same key.
    pub retry_same_key: bool,
    /// The URL of the key, where it cannot be parsed and the default upstream stands
    /// in for it.
    pub refused_url: Option<String>,
}

/// What the proxy remembers of one request.
#[verifier::ext_equal]
pub struct CtxView {
    pub key_id: Option<Seq<char>>,
    pub api_key: Option<Seq<char>>,
    pub provider: Option<Provider>,
    pub upstream_host: Option<Seq<char>>,
    pub should_dump: bool,
    pub request_body: Option<Seq<u8>>,
    pub endpoint: Option<EndpointView>,
    pub retry_same_key: bool,
    pub refused_url: Option<Seq<char>>,
}

impl View for PingoraProxyCtx {
    type V = CtxView;

    open spec fn view(&self) -> CtxView {
        CtxView {
            key_id: opt_text(self.key_id),
            api_key: opt_text(self.api_key),
            provider: self.provider,
            upstream_host: opt_text(self.upstream_host),
            should_dump: self.should_dump,
            request_body: match self.request_body {
                Some(body) => Some(body@),
                None => None,
            },
            endpoint: match self.endpoint {
                Some(endpoint) => Some(endpoint@),
                None => None,
            },
            retry_same_key: self.retry_same_key,
            refused_url: opt_text(self.refused_url),
        }
    }
}

/// The memory of a request of which nothing is known yet.
pub open spec fn empty_ctx() -> CtxView {
    CtxView {
        key_id: None,
        api_key: None,
        provider: None,
        upstream_host: None,
        should_dump: false,
        request_body: None,
        endpoint: None,
        retry_same_key: false,
        refused_url: None,
    }
}

impl Default for PingoraProxyCtx {
    fn default() -> (ctx: PingoraProxyCtx)
        ensures
            ctx@ == empty_ctx(),
    {
        PingoraProxyCtx {
            key_id: None,
            api_key: None,
            provider: None,
            upstream_host: None,
            should_dump: false,
            request_body: None,
            endpoint: None,
            retry_same_key: false,
            refused_url: None,
        }
    }
}

/// The answer to a request when all keys have spent their quotas.
pub struct RateLimitReply {
    pub status: u16,
    pub headers: Vec<Header>,
    /// The key that is named in the answer.
    pub key_id: String,
    /// The quota that is named in the answer.
    pub max_rpm: u32,
}

/// The key and the quota that are named to a client who is turned away.
pub open spec fn reported_limit(balancer: BalancerView) -> (Seq<char>, u32) {
    match first_key_of(balancer.pools) {
        Some((id, Some(max_rpm))) => (id, max_rpm),
        Some((id, None)) => (id, 0),
        None => ("unknown"@, 0),
    }
}

/// The answer to a request when all keys have spent their quotas: status 429 and
/// four headers, that say which quota is spent and when to come back.
pub open spec fn is_rate_limit_reply(balancer: BalancerView, reply: RateLimitReply) -> bool {
    let (key_id, max_rpm) = reported_limit(balancer);
    &&& reply.status == 429
    &&& reply.key_id@ == key_id
    &&& reply.max_rpm == max_rpm
    &&& header_views(reply.headers@) == seq![
        ("X-RateLimit-Limit"@, decimal_digits(max_rpm as nat)),
        ("X-RateLimit-Remaining"@, "0"@),
        ("Retry-After"@, "60"@),
        ("X-RateLimit-Key"@, key_id),
    ]
}

/// The peer to connect to.
#[derive(Debug, Clone)]
pub struct Peer {
    /// Address and port.
    pub address: String,
    pub tls: bool,
    /// The name by which the peer is asked for.
    pub sni: String,
}

/// The peer to connect to.
#[verifier::ext_equal]
pub struct PeerView {
    pub address: Seq<char>,
    pub tls: bool,
    pub sni: Seq<char>,
}

impl View for Peer {
    type V = PeerView;

    open spec fn view(&self) -> PeerView {
        PeerView { address: self.address@, tls: self.tls, sni: self.sni@ }
    }
}

/// The peer at an address of an endpoint.
pub open spec fn peer_at(endpoint: EndpointView, ip: Seq<char>) -> PeerView {
    PeerView { address: host_port(ip, endpoint.port), tls: endpoint.tls, sni: endpoint.host }
}

/// What is to be done to find the peer of a request.
pub enum PeerStep {
    /// Connect to this peer.
    Connect(Peer),
    /// Resolve the address of this endpoint, and go on with the outcome.
    Resolve(Endpoint),
    /// There is no key for the request.
    NoKeys,
    /// The pool of this provider admits no weighted draw.
    Unweighted(Provider),
}

/// What is to be done to find the peer of a request.
pub enum PeerStepView {
    Connect(PeerView),
    Resolve(EndpointView),
    NoKeys,
    Unweighted(Provider),
}

impl View for PeerStep {
    type V = PeerStepView;

    open spec fn view(&self) -> PeerStepView {
        match self {
            PeerStep::Connect(peer) => PeerStepView::Connect(peer@),
            PeerStep::Resolve(endpoint) => PeerStepView::Resolve(endpoint@),
            PeerStep::NoKeys => PeerStepView::NoKeys,
            PeerStep::Unweighted(provider) => PeerStepView::Unweighted(*provider),
        }
    }
}

/// How the exchange with an upstream broke.
#[derive(Debug, Clone, Copy, PartialEq, Eq, Structural)]
pub enum UpstreamFailure {
    ConnectionClosed,
    ConnectTimedout,
    ConnectRefused,
    Other,
}

/// The key is to rest after such a failure.
pub open spec fn failure_rests_key(failure: UpstreamFailure) -> bool {
    failure == UpstreamFailure::ConnectTimedout || failure == UpstreamFailure::ConnectRefused
}

/// The request is to be tried again after such a failure.
pub open spec fn failure_is_retried(failure: UpstreamFailure) -> bool {
    failure != UpstreamFailure::ConnectRefused
}

/// What the proxy is to its users.
#[verifier::ext_equal]
pub struct PingoraProxyView {
    pub balancer: BalancerView,
    pub initial_cooldown_secs: u64,
    pub dns: CacheView,
    pub dump_requests: bool,
}

/// The memory of a request that was given a key.
pub open spec fn ctx_with_key(ctx: CtxView, key: KeyView, provider: Provider, dump: bool) -> CtxView {
    let endpoint = endpoint_of(configured_parts(key.base_url));
    CtxView {
        key_id: Some(key.id),
        api_key: Some(key.key),
        provider: Some(provider),
        upstream_host: Some(endpoint.host),
        should_dump: dump,
        endpoint: Some(endpoint),
        retry_same_key: false,
        refused_url: refused_url_of(key.base_url),
        ..ctx
    }
}

impl PingoraProxyView {
    /// The key that a request was sent with is one of the balancer's.
    pub open spec fn knows_key_of(self, ctx: CtxView) -> bool {
        match (ctx.key_id, ctx.provider) {
            (Some(key_id), Some(provider)) => self.balancer.has_key(provider, key_id),
            _ => false,
        }
    }

    /// The proxy after the key that a request was sent with has failed; a request
    /// without a key changes nothing.
    pub open spec fn failed(self, ctx: CtxView, now: u128) -> PingoraProxyView {
        match (ctx.key_id, ctx.provider) {
            (Some(key_id), Some(provider)) => PingoraProxyView {
                balancer: self.balancer.failure(
                    provider,
                    key_id,
                    (self.initial_cooldown_secs * NANOS_PER_SEC) as u128,
                    now,
                ),
                ..self
            },
            _ => self,
        }
    }

    /// The proxy after a response to a request took so many nanoseconds; a request
    /// without a key changes nothing.
    pub open spec fn timed(self, ctx: CtxView, nanos: u64) -> PingoraProxyView {
        match (ctx.key_id, ctx.provider) {
            (Some(key_id), Some(provider)) => PingoraProxyView {
                balancer: self.balancer.timed(provider, key_id, nanos),
                ..self
            },
            _ => self,
        }
    }

    /// The way to an endpoint is sought in the cache.
    pub open spec fn sought(self, endpoint: EndpointView, now: u128) -> (
        PingoraProxyView,
        PeerStepView,
    ) {
        let address = host_port(endpoint.host, endpoint.port);
        let (dns, found) = looked_up(self.dns, address, now);
        (
            PingoraProxyView { dns, ..self },
            match found {
                Some(ip) => PeerStepView::Connect(peer_at(endpoint, ip)),
                None => PeerStepView::Resolve(endpoint),
            },
        )
    }

    /// A request is to be sent: it keeps its key where it is tried again because
    /// the connection was closed, and is given one by the balancer otherwise.
    pub open spec fn directed(self, ctx: CtxView, reads: Seq<PoolReadsView>, now: u128) -> (
        PingoraProxyView,
        CtxView,
        PeerStepView,
    ) {
        if ctx.retry_same_key && ctx.endpoint is Some {
            let (proxy, step) = self.sought(ctx.endpoint->0, now);
            (proxy, CtxView { retry_same_key: false, ..ctx }, step)
        } else {
            let (balancer, choice) = self.balancer.choose_any(reads);
            let proxy = PingoraProxyView { balancer, ..self };
            match choice {
                AnyChoice::Key(i, k) => {
                    let key = balancer.pools[i as int].1.keys[k as int];
                    let provider = balancer.pools[i as int].0;
                    let directed = ctx_with_key(ctx, key, provider, self.dump_requests);
                    let (after, step) = proxy.sought(directed.endpoint->0, now);
                    (after, directed, step)
                },
                AnyChoice::NoKeys => (proxy, ctx, PeerStepView::NoKeys),
                AnyChoice::Unweighted(i) => (
                    proxy,
                    ctx,
                    PeerStepView::Unweighted(balancer.pools[i as int].0),
                ),
            }
        }
    }

    /// The address of an endpoint was resolved, or could not be: then the host
    /// itself stands in for it, and nothing is kept.
    pub open spec fn resolved(self, endpoint: EndpointView, ip: Option<Seq<char>>, now: u128) -> (
        PingoraProxyView,
        PeerView,
    ) {
        match ip {
            Some(ip) => (
                PingoraProxyView {
                    dns: stored(self.dns, host_port(endpoint.host, endpoint.port), ip, now),
                    ..self
                },
                peer_at(endpoint, ip),
            ),
            None => (self, peer_at(endpoint, endpoint.host)),
        }
    }

    /// The exchange with the upstream broke: what becomes of the proxy and of the
    /// request's memory, and whether the request is tried again.
    pub open spec fn broken(self, ctx: CtxView, failure: UpstreamFailure, now: u128) -> (
        PingoraProxyView,
        CtxView,
        bool,
    ) {
        (
            if failure_rests_key(failure) {
                self.failed(ctx, now)
            } else {
                self
            },
            CtxView {
                retry_same_key: failure == UpstreamFailure::ConnectionClosed,
                ..ctx
            },
            failure_is_retried(failure),
        )
    }

    /// The proxy after a reply of the upstream.
    pub open spec fn replied(self, ctx: CtxView, status: u16, now: u128) -> PingoraProxyView {
        if is_failure_status(status) {
            self.failed(ctx, now)
        } else {
            self
        }
    }
}

/// The headers that a request is sent with.
pub open spec fn request_headers_of(ctx: CtxView) -> Seq<(Seq<char>, Seq<char>)> {
    let host = match ctx.upstream_host {
        Some(host) => seq![("Host"@, host)],
        None => Seq::empty(),
    };
    let auth = match (ctx.api_key, ctx.provider) {
        (Some(api_key), Some(provider)) => seq![auth_header_of(provider, api_key)],
        _ => Seq::empty(),
    };
    host + seq![("User-Agent"@, "llm-broker/1.0"@)] + auth
}

/// The headers that a request is sent with: the host that it goes to, the name of
/// the broker, and the key.
pub fn upstream_request_filter(ctx: &PingoraProxyCtx) -> (headers: Vec<Header>)
    ensures
        header_views(headers@) == request_headers_of(ctx@),
{
    let mut headers: Vec<Header> = Vec::new();
    if let Some(host) = &ctx.upstream_host {
        headers.push(header("Host", host.as_str()));
    }
    headers.push(header("User-Agent", "llm-broker/1.0"));
    if let (Some(api_key), Some(provider)) = (&ctx.api_key, &ctx.provider) {
        headers.push(auth_header(*provider, api_key.as_str()));
    }
    assert(header_views(headers@) =~= request_headers_of(ctx@));
    headers
}

/// The proxy: its keys, its settings, and the addresses that it has resolved.
pub struct PingoraProxy {
    pub(crate) load_balancer: LoadBalancer,
    pub(crate) initial_cooldown_secs: u64,
    pub(crate) dns_cache: DnsCache,
    pub(crate) dump_requests: bool,
    pub(crate) clock: Clock,
}

impl View for PingoraProxy {
    type V = PingoraProxyView;

    open(crate) spec fn view(&self) -> PingoraProxyView {
        PingoraProxyView {
            balancer: self.load_balancer@,
            initial_cooldown_secs: self.initial_cooldown_secs,
            dns: self.dns_cache@,
            dump_requests: self.dump_requests,
        }
    }
}

/// The peer at an address of an endpoint.
fn peer(endpoint: &Endpoint, ip: &str) -> (peer: Peer)
    ensures
        peer@ == peer_at(endpoint@, ip@),
{
    Peer {
        address: join_host_port(ip, endpoint.port),
        tls: endpoint.tls,
        sni: endpoint.host.clone(),
    }
}

impl PingoraProxy {
    /// The clock that the times of the address cache are read from. It is the same
    /// for as long as the proxy lives.
    pub open(crate) spec fn own_clock(&self) -> Clock {
        self.clock
    }

    /// The clocks of all keys, pool by pool.
    pub open(crate) spec fn key_clocks(&self) -> Seq<Seq<Clock>> {
        self.load_balancer.key_clocks()
    }

    /// A proxy with an empty address cache.
    pub fn new(
        load_balancer: LoadBalancer,
        initial_cooldown_secs: u64,
        dump_requests: bool,
    ) -> (proxy: PingoraProxy)
        ensures
            proxy@ == (PingoraProxyView {
                balancer: load_balancer@,
                initial_cooldown_secs,
                dns: Map::empty(),
                dump_requests,
            }),
            proxy.key_clocks() == load_balancer.key_clocks(),
            was_started(proxy.own_clock()),
    {
        PingoraProxy {
            load_balancer,
            initial_cooldown_secs,
            dns_cache: DnsCache::new(),
            dump_requests,
            clock: Clock::start(),
        }
    }

    /// Whether requests and replies are to be printed.
    pub fn dumps_requests(&self) -> (dumps: bool)
        ensures
            dumps == self@.dump_requests,
    {
        self.dump_requests
    }

    /// The memory of a new request.
    pub fn new_ctx(&self) -> (ctx: PingoraProxyCtx)
        ensures
            ctx@ == empty_ctx(),
    {
        PingoraProxyCtx::default()
    }

    /// Gives a request a key of any pool, now. It is the proxy's own key: what is done
    /// to it is done to the proxy.
    pub fn select_any_key(&mut self) -> (given: AnyKey<'_>)
        ensures
            exists|reads: Seq<PoolReadsView>|
                reads_taken(old(self)@.balancer.pools, reads) && reads_from(
                    old(self).key_clocks(),
                    reads,
                ) && {
                    let (after, choice) = #[trigger] old(self)@.balancer.choose_any(reads);
                    match choice {
                        AnyChoice::Key(i, k) => given matches AnyKey::Key(key, provider)
                            && provider == after.pools[i as int].0 && handed_out_of(
                            after,
                            old(self).key_clocks(),
                            i as int,
                            k as int,
                            (key@, key.own_clock()),
                            (final(key)@, final(key).own_clock()),
                            (final(self)@.balancer, final(self).key_clocks()),
                        ),
                        AnyChoice::NoKeys => given is NoKeys && final(self)@.balancer == after
                            && final(self).key_clocks() == old(self).key_clocks(),
                        AnyChoice::Unweighted(i) => (given matches AnyKey::Unweighted(provider)
                            && provider == after.pools[i as int].0) && final(self)@.balancer
                            == after && final(self).key_clocks() == old(self).key_clocks(),
                    }
                },
            final(self)@ == (PingoraProxyView { balancer: final(self)@.balancer, ..old(self)@ }),
            old(self)@.balancer.distinct() ==> final(self)@.balancer.distinct(),
            final(self).own_clock() == old(self).own_clock(),
    {
        self.load_balancer.select_any()
    }

    /// Turns a request away if all keys have spent their quotas, with the given
    /// readings.
    pub fn request_filter_at(&self, reads: &Vec<PoolReads>) -> (reply: Option<RateLimitReply>)
        requires
            reads_fit(self@.balancer.pools, reads_views(reads@)),
        ensures
            reply is Some <==> self@.balancer.all_limited(reads_views(reads@)),
            reply is Some ==> is_rate_limit_reply(self@.balancer, reply->0),
    {
        if !self.load_balancer.all_pools_limited_at(reads) {
            return None;
        }
        let (key_id, max_rpm) = match self.load_balancer.first_key() {
            Some((id, Some(max_rpm))) => (id, max_rpm),
            Some((id, None)) => (id, 0u32),
            None => ("unknown".to_owned(), 0u32),
        };
        let mut headers: Vec<Header> = Vec::new();
        headers.push(header("X-RateLimit-Limit", decimal(max_rpm).as_str()));
        headers.push(header("X-RateLimit-Remaining", "0"));
        headers.push(header("Retry-After", "60"));
        headers.push(header("X-RateLimit-Key", key_id.as_str()));
        assert(header_views(headers@) =~= seq![
            ("X-RateLimit-Limit"@, decimal_digits(max_rpm as nat)),
            ("X-RateLimit-Remaining"@, "0"@),
            ("Retry-After"@, "60"@),
            ("X-RateLimit-Key"@, key_id@),
        ]);
        Some(RateLimitReply { status: 429, headers, key_id, max_rpm })
    }

    /// Turns a request away if all keys have spent their quotas now.
    pub fn request_filter(&self) -> (reply: Option<RateLimitReply>)
        ensures
            exists|reads: Seq<PoolReadsView>|
                reads_taken(self@.balancer.pools, reads) && reads_from(
                    self.key_clocks(),
                    reads,
                ) && (reply is Some <==> #[trigger]
                self@.balancer.all_limited(reads)),
            reply is Some ==> is_rate_limit_reply(self@.balancer, reply->0),
    {
        let reads = self.load_balancer.read_all();
        self.request_filter_at(&reads)
    }

    /// Seeks the way to an endpoint in the address cache.
    fn seek(&mut self, endpoint: Endpoint, now: u128) -> (step: PeerStep)
        requires
            now <= MAX_NANOS,
        ensures
            (final(self)@, step@) == old(self)@.sought(endpoint@, now),
            final(self).own_clock() == old(self).own_clock(),
            final(self).key_clocks() == old(self).key_clocks(),
    {
        let address = join_host_port(endpoint.host.as_str(), endpoint.port);
        match self.dns_cache.lookup_at(address.as_str(), now) {
            Some(ip) => PeerStep::Connect(peer(&endpoint, ip.as_str())),
            None => PeerStep::Resolve(endpoint),
        }
    }

    /// Finds the next step towards the peer of a request, with the given readings
    /// of the keys' clocks and of the proxy's own clock.
    pub fn upstream_peer_at(
        &mut self,
        ctx: &mut PingoraProxyCtx,
        reads: &Vec<PoolReads>,
        now: u128,
    ) -> (step: PeerStep)
        requires
            reads_fit(old(self)@.balancer.pools, reads_views(reads@)),
            now <= MAX_NANOS,
        ensures
            (final(self)@, final(ctx)@, step@) == old(self)@.directed(
                old(ctx)@,
                reads_views(reads@),
                now,
            ),
            old(self)@.balancer.distinct() ==> final(self)@.balancer.distinct(),
            final(self).own_clock() == old(self).own_clock(),
            final(self).key_clocks() == old(self).key_clocks(),
    {
        if ctx.retry_same_key {
            if let Some(endpoint) = &ctx.endpoint {
                let endpoint = Endpoint {
                    host: endpoint.host.clone(),
                    port: endpoint.port,
                    tls: endpoint.tls,
                };
                ctx.retry_same_key = false;
                return self.seek(endpoint, now);
            }
        }
        let ghost before = self@;
        let ghost clocks = self.key_clocks();
        let ghost chosen = before.balancer.choose_any(reads_views(reads@));
        match self.load_balancer.select_any_at(reads) {
            AnyKey::Key(key, provider) => {
                let endpoint = endpoint_for(&key.base_url);
                ctx.refused_url = refused_url(&key.base_url);
                ctx.key_id = Some(key.id.clone());
                ctx.api_key = Some(key.key.clone());
                ctx.provider = Some(provider);
                ctx.upstream_host = Some(endpoint.host.clone());
                ctx.should_dump = self.dump_requests;
                ctx.endpoint = Some(
                    Endpoint {
                        host: endpoint.host.clone(),
                        port: endpoint.port,
                        tls: endpoint.tls,
                    },
                );
                ctx.retry_same_key = false;
                proof {
                    lemma_given_back(
                        chosen.0,
                        clocks,
                        chosen.1->Key_0 as int,
                        chosen.1->Key_1 as int,
                    );
                }
                self.seek(endpoint, now)
            },
            AnyKey::NoKeys => PeerStep::NoKeys,
            AnyKey::Unweighted(provider) => PeerStep::Unweighted(provider),
        }
    }

    /// Finds the next step towards the peer of a request, now.
    pub fn upstream_peer(&mut self, ctx: &mut PingoraProxyCtx) -> (step: PeerStep)
        ensures
            exists|reads: Seq<PoolReadsView>, now: u128|
                reads_taken(old(self)@.balancer.pools, reads) && reads_from(
                    old(self).key_clocks(),
                    reads,
                ) && now <= MAX_NANOS && is_reading(old(self).own_clock(), now) && (
                    final(self)@,
                    final(ctx)@,
                    step@,
                ) == #[trigger] old(self)@.directed(old(ctx)@, reads, now),
            old(self)@.balancer.distinct() ==> final(self)@.balancer.distinct(),
            final(self).own_clock() == old(self).own_clock(),
            final(self).key_clocks() == old(self).key_clocks(),
    {
        let reads = self.load_balancer.read_all();
        let now: u128 = self.clock.read();
        self.upstream_peer_at(ctx, &reads, now)
    }

    /// Goes on with the outcome of a resolution, at the time `now`: the first
    /// address that was found, if any.
    pub fn address_resolved_at(
        &mut self,
        endpoint: &Endpoint,
        ip: Option<String>,
        now: u128,
    ) -> (peer: Peer)
        requires
            now <= MAX_NANOS,
        ensures
            (final(self)@, peer@) == old(self)@.resolved(endpoint@, opt_text(ip), now),
            final(self).own_clock() == old(self).own_clock(),
            final(self).key_clocks() == old(self).key_clocks(),
    {
        match ip {
            Some(ip) => {
                let address = join_host_port(endpoint.host.as_str(), endpoint.port);
                self.dns_cache.store_at(address.as_str(), ip.as_str(), now);
                peer(endpoint, ip.as_str())
            },
            None => peer(endpoint, endpoint.host.as_str()),
        }
    }

    /// Goes on with the outcome of a resolution, now.
    pub fn address_resolved(&mut self, endpoint: &Endpoint, ip: Option<String>) -> (peer: Peer)
        ensures
            exists|now: u128|
                now <= MAX_NANOS && is_reading(old(self).own_clock(), now) && (
                    final(self)@,
                    peer@,
                ) == #[trigger] old(self)@.resolved(
                    endpoint@,
                    opt_text(ip),
                    now,
                ),
            final(self).own_clock() == old(self).own_clock(),
            final(self).key_clocks() == old(self).key_clocks(),
    {
        let now: u128 = self.clock.read();
        self.address_resolved_at(endpoint, ip, now)
    }

    /// The key that a request was sent with has failed, at the time `now` of the
    /// key's clock.
    fn key_failed_at(&mut self, ctx: &PingoraProxyCtx, now: u128)
        requires
            now <= MAX_NANOS,
        ensures
            final(self)@ == old(self)@.failed(ctx@, now),
            old(self)@.balancer.distinct() ==> final(self)@.balancer.distinct(),
            final(self).own_clock() == old(self).own_clock(),
            final(self).key_clocks() == old(self).key_clocks(),
    {
        if let (Some(key_id), Some(provider)) = (&ctx.key_id, &ctx.provider) {
            let cooldown: u128 = secs(self.initial_cooldown_secs);
            self.load_balancer.mark_failure_at(provider, key_id.as_str(), cooldown, now);
        }
    }

    /// The clock of the key that a request was sent with, if there is such a key.
    pub open(crate) spec fn clock_of_request(&self, ctx: CtxView) -> Clock {
        self.load_balancer.clock_of_key(ctx.provider->0, ctx.key_id->0)
    }

    /// Reads the clock of the key that a request was sent with; the time is zero
    /// where there is no such key.
    fn key_time(&self, ctx: &PingoraProxyCtx) -> (now: u128)
        ensures
            now <= MAX_NANOS,
            !self@.knows_key_of(ctx@) ==> now == 0,
            self@.knows_key_of(ctx@) ==> is_reading(self.clock_of_request(ctx@), now),
    {
        match (&ctx.key_id, &ctx.provider) {
            (Some(key_id), Some(provider)) => self.load_balancer.key_time(
                provider,
                key_id.as_str(),
            ),
            _ => 0,
        }
    }

    /// Takes note of the status of a reply, at the time `now` of the key's clock.
    pub fn upstream_response_filter_at(&mut self, status: u16, ctx: &PingoraProxyCtx, now: u128)
        requires
            now <= MAX_NANOS,
        ensures
            final(self)@ == old(self)@.replied(ctx@, status, now),
            old(self)@.balancer.distinct() ==> final(self)@.balancer.distinct(),
            final(self).own_clock() == old(self).own_clock(),
            final(self).key_clocks() == old(self).key_clocks(),
    {
        if status_means_failure(status) {
            self.key_failed_at(ctx, now);
        }
    }

    /// Takes note of the status of a reply, now.
    pub fn upstream_response_filter(&mut self, status: u16, ctx: &PingoraProxyCtx)
        ensures
            exists|now: u128|
                now <= MAX_NANOS && (old(self)@.knows_key_of(ctx@) ==> is_reading(
                    old(self).clock_of_request(ctx@),
                    now,
                )) && final(self)@ == #[trigger] old(self)@.replied(
                    ctx@,
                    status,
                    now,
                ),
            old(self)@.balancer.distinct() ==> final(self)@.balancer.distinct(),
            final(self).own_clock() == old(self).own_clock(),
            final(self).key_clocks() == old(self).key_clocks(),
    {
        let now: u128 = self.key_time(ctx);
        self.upstream_response_filter_at(status, ctx, now)
    }

    /// Takes note of how long the upstream took to respond to a request.
    pub fn response_timed(&mut self, ctx: &PingoraProxyCtx, nanos: u64)
        ensures
            final(self)@ == old(self)@.timed(ctx@, nanos),
            old(self)@.balancer.distinct() ==> final(self)@.balancer.distinct(),
            final(self).own_clock() == old(self).own_clock(),
            final(self).key_clocks() == old(self).key_clocks(),
    {
        if let (Some(key_id), Some(provider)) = (&ctx.key_id, &ctx.provider) {
            self.load_balancer.note_latency(provider, key_id.as_str(), nanos);
        }
    }

    /// The exchange with the upstream broke, at the time `now` of the key's clock.
    /// Returns whether the request is to be tried again.
    pub fn error_while_proxy_at(
        &mut self,
        failure: UpstreamFailure,
        ctx: &mut PingoraProxyCtx,
        now: u128,
    ) -> (retry: bool)
        requires
            now <= MAX_NANOS,
        ensures
            (final(self)@, final(ctx)@, retry) == old(self)@.broken(old(ctx)@, failure, now),
            old(self)@.balancer.distinct() ==> final(self)@.balancer.distinct(),
            final(self).own_clock() == old(self).own_clock(),
            final(self).key_clocks() == old(self).key_clocks(),
    {
        match failure {
            UpstreamFailure::ConnectTimedout | UpstreamFailure::ConnectRefused => {
                self.key_failed_at(ctx, now);
            },
            _ => {},
        }
        match failure {
            UpstreamFailure::ConnectionClosed => {
                ctx.retry_same_key = true;
                true
            },
            UpstreamFailure::ConnectRefused => {
                ctx.retry_same_key = false;
                false
            },
            _ => {
                ctx.retry_same_key = false;
                true
            },
        }
    }

    /// The exchange with the upstream broke, now. Returns whether the request is
    /// to be tried again.
    pub fn error_while_proxy(
        &mut self,
        failure: UpstreamFailure,
        ctx: &mut PingoraProxyCtx,
    ) -> (retry: bool)
        ensures
            exists|now: u128|
                now <= MAX_NANOS && (old(self)@.knows_key_of(old(ctx)@) ==> is_reading(
                    old(self).clock_of_request(old(ctx)@),
                    now,
                )) && (final(self)@, final(ctx)@, retry) == #[trigger] old(self)@.broken(
                    old(ctx)@,
                    failure,
                    now,
                ),
            old(self)@.balancer.distinct() ==> final(self)@.balancer.distinct(),
            final(self).own_clock() == old(self).own_clock(),
            final(self).key_clocks() == old(self).key_clocks(),
    {
        let now: u128 = self.key_time(ctx);
        self.error_while_proxy_at(failure, ctx, now)
    }
}

} // verus!
