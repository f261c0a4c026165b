//! The decisions of the Reqwest proxy.

use crate::clock::{secs, MAX_NANOS};
use crate::load_balancer::key_info::Provider;
use crate::load_balancer::{AnyKey, LoadBalancer, PoolReads};
use crate::proxy::upstream::{auth_header, parse_url, status_means_failure, Header, UrlParts};
use crate::text::{joined, same_text, trim_trailing_slashes};
use vstd::prelude::*;
use vstd::slice::slice_to_vec;
#[allow(unused_imports)]
use crate::clock::{is_reading, Clock, NANOS_PER_SEC};
#[allow(unused_imports)]
use crate::load_balancer::key_info::{opt_str, opt_text, KeyView};
#[allow(unused_imports)]
use crate::load_balancer::{
    handed_out_of, lemma_given_back, reads_fit, reads_from, reads_taken, reads_views, AnyChoice, BalancerView,
    PoolReadsView,
};
#[allow(unused_imports)]
use crate::proxy::upstream::{auth_header_of, configured_parts, is_failure_status, opt_parts};
#[allow(unused_imports)]
use crate::text::without_trailing_slashes;
#[allow(unused_imports)]
use vstd::string::*;
#[allow(unused_imports)]
use vstd::utf8::encode_utf8;

verus! {

/// A header line whose value is a sequence of bytes.
#[derive(Debug, Clone)]
pub struct RawHeader {
    pub name: String,
    pub value: Vec<u8>,
}

impl View for RawHeader {
    type V = (Seq<char>, Seq<u8>);

    open spec fn view(&self) -> (Seq<char>, Seq<u8>) {
        (self.name@, self.value@)
    }
}

/// The contents of a list of headers.
pub open spec fn raw_views(headers: Seq<RawHeader>) -> Seq<(Seq<char>, Seq<u8>)> {
    headers.map_values(|h: RawHeader| h@)
}

/// An answer that the proxy gives itself.
#[derive(Debug, Clone)]
pub struct Reply {
    pub status: u16,
    pub message: String,
}

impl View for Reply {
    type V = (u16, Seq<char>);

    open spec fn view(&self) -> (u16, Seq<char>) {
        (self.status, self.message@)
    }
}

/// A request as it goes to the upstream.
#[derive(Debug, Clone)]
pub struct UpstreamRequest {
    pub url: String,
    pub key_id: String,
    pub provider: Provider,
    /// The header that carries the key.
    pub auth: Header,
    /// The host to ask for, where the key has an upstream of its own.
    pub host: Option<String>,
}

/// A request as it goes to the upstream.
#[verifier::ext_equal]
pub struct UpstreamRequestView {
    pub url: Seq<char>,
    pub key_id: Seq<char>,
    pub provider: Provider,
    pub auth: (Seq<char>, Seq<char>),
    pub host: Option<Seq<char>>,
}

impl View for UpstreamRequest {
    type V = UpstreamRequestView;

    open spec fn view(&self) -> UpstreamRequestView {
        UpstreamRequestView {
            url: self.url@,
            key_id: self.key_id@,
            provider: self.provider,
            auth: self.auth@,
            host: opt_text(self.host),
        }
    }
}

/// What is to be done with a request.
pub enum RequestStep {
    /// Send it to the upstream.
    Send(UpstreamRequest),
    /// Answer it.
    Answer(Reply),
    /// The pool of this provider admits no weighted draw.
    Unweighted(Provider),
}

/// What is to be done with a request.
pub enum RequestStepView {
    Send(UpstreamRequestView),
    Answer((u16, Seq<char>)),
    Unweighted(Provider),
}

impl View for RequestStep {
    type V = RequestStepView;

    open spec fn view(&self) -> RequestStepView {
        match self {
            RequestStep::Send(request) => RequestStepView::Send(request@),
            RequestStep::Answer(reply) => RequestStepView::Answer(reply@),
            RequestStep::Unweighted(provider) => RequestStepView::Unweighted(*provider),
        }
    }
}

/// The URL of the upstream for a path: the configured one, or the default, without
/// slashes at its end, and the path behind it.
pub open spec fn upstream_url_of(base_url: Option<Seq<char>>, path: Option<Seq<char>>) -> Seq<char> {
    without_trailing_slashes(
        match base_url {
            Some(url) => url,
            None => "https://api.openai.com"@,
        },
    ) + match path {
        Some(path) => path,
        None => Seq::empty(),
    }
}

/// The URL of the upstream for a path.
pub fn upstream_url(base_url: &Option<String>, path_and_query: Option<&str>) -> (url: String)
    ensures
        url@ == upstream_url_of(opt_text(*base_url), opt_str(path_and_query)),
{
    let base = match base_url {
        Some(url) => trim_trailing_slashes(url.as_str()),
        None => trim_trailing_slashes("https://api.openai.com"),
    };
    match path_and_query {
        Some(path) => joined(base.as_str(), path),
        None => {
            assert(base@ + Seq::<char>::empty() =~= base@);
            base
        },
    }
}

/// The host of a URL that was taken apart.
pub open spec fn host_of(parts: Option<(Seq<char>, Option<Seq<char>>, Option<u16>)>) -> Option<
    Seq<char>,
> {
    match parts {
        Some((_, host, _)) => host,
        None => None,
    }
}

/// The host of a URL that was taken apart.
pub fn host_from_parts(parts: Option<UrlParts>) -> (host: Option<String>)
    ensures
        opt_text(host) == host_of(opt_parts(parts)),
{
    match parts {
        Some(parts) => parts.host,
        None => None,
    }
}

/// The host to ask for: that of the key's own upstream, if it has one whose URL can
/// be parsed and names a host.
pub fn host_header_for(base_url: &Option<String>) -> (host: Option<String>)
    ensures
        opt_text(host) == host_of(configured_parts(opt_text(*base_url))),
{
    match base_url {
        Some(url) => match parse_url(url.as_str()) {
            Ok(parts) => host_from_parts(Some(parts)),
            Err(_) => None,
        },
        None => None,
    }
}

/// A header of the client is passed on, unless it names the host or may carry the
/// client's credentials. Names are in lower case.
pub open spec fn is_forwarded(name: Seq<char>) -> bool {
    name != "host"@ && name != "authorization"@ && name != "x-api-key"@ && name != "api-key"@
}

/// Whether a header of the client is passed on.
pub fn forwards_header(name: &str) -> (forwards: bool)
    ensures
        forwards == is_forwarded(name@),
{
    !same_text(name, "host") && !same_text(name, "authorization") && !same_text(
        name,
        "x-api-key",
    ) && !same_text(name, "api-key")
}

/// The headers of the client that are passed on, in their order.
pub open spec fn forwarded(incoming: Seq<(Seq<char>, Seq<u8>)>) -> Seq<(Seq<char>, Seq<u8>)>
    decreases incoming.len(),
{
    if incoming.len() == 0 {
        Seq::empty()
    } else {
        let before = forwarded(incoming.drop_last());
        if is_forwarded(incoming.last().0) {
            before.push(incoming.last())
        } else {
            before
        }
    }
}

/// The headers that a request goes to the upstream with: the key, what is passed
/// on, and the host.
pub open spec fn sent_headers(
    request: UpstreamRequestView,
    incoming: Seq<(Seq<char>, Seq<u8>)>,
) -> Seq<(Seq<char>, Seq<u8>)> {
    seq![(request.auth.0, encode_utf8(request.auth.1))] + forwarded(incoming) + match request.host {
        Some(host) => seq![("Host"@, encode_utf8(host))],
        None => Seq::empty(),
    }
}

/// A header line with the bytes of a text.
fn text_header(name: &str, value: &str) -> (line: RawHeader)
    ensures
        line@ == (name@, encode_utf8(value@)),
{
    RawHeader { name: name.to_owned(), value: slice_to_vec(value.as_bytes()) }
}

impl UpstreamRequest {
    /// The headers that the request goes to the upstream with.
    pub fn headers(&self, incoming: &Vec<RawHeader>) -> (headers: Vec<RawHeader>)
        ensures
            raw_views(headers@) == sent_headers(self@, raw_views(incoming@)),
    {
        let ghost all = raw_views(incoming@);
        let ghost auth = seq![(self@.auth.0, encode_utf8(self@.auth.1))];
        let mut headers: Vec<RawHeader> = Vec::new();
        headers.push(text_header(self.auth.name.as_str(), self.auth.value.as_str()));
        assert(all.take(0) =~= Seq::empty());
        assert(raw_views(headers@) =~= auth + forwarded(all.take(0)));
        let mut i: usize = 0;
        while i < incoming.len()
            invariant
                i <= incoming@.len() == all.len(),
                all == raw_views(incoming@),
                raw_views(headers@) == auth + forwarded(all.take(i as int)),
            decreases incoming.len() - i,
        {
            let ghost before = headers@;
            let line = &incoming[i];
            assert(all.take(i + 1).drop_last() =~= all.take(i as int));
            assert(all.take(i + 1).last() == line@);
            if forwards_header(line.name.as_str()) {
                let copy = RawHeader { name: line.name.clone(), value: line.value.clone() };
                assert(copy.value@ =~= line.value@);
                headers.push(copy);
                assert(raw_views(headers@) =~= raw_views(before).push(line@));
                assert(auth + forwarded(all.take(i as int)).push(line@) =~= (auth + forwarded(
                    all.take(i as int),
                )).push(line@));
            }
            i = i + 1;
        }
        assert(all.take(i as int) =~= all);
        if let Some(host) = &self.host {
            let ghost before = headers@;
            headers.push(text_header("Host", host.as_str()));
            assert(raw_views(headers@) =~= raw_views(before).push(("Host"@, encode_utf8(host@))));
        }
        assert(raw_views(headers@) =~= sent_headers(self@, all));
        headers
    }
}

/// What the proxy is to its users.
#[verifier::ext_equal]
pub struct ReqwestProxyView {
    pub balancer: BalancerView,
    pub initial_cooldown_secs: u64,
}

/// The request for a path that is sent with a key.
pub open spec fn request_with_key(
    key: KeyView,
    provider: Provider,
    path: Option<Seq<char>>,
) -> UpstreamRequestView {
    UpstreamRequestView {
        url: upstream_url_of(key.base_url, path),
        key_id: key.id,
        provider,
        auth: auth_header_of(provider, key.key),
        host: host_of(configured_parts(key.base_url)),
    }
}

impl ReqwestProxyView {
    /// A request for a path comes in.
    pub open spec fn directed(self, path: Option<Seq<char>>, reads: Seq<PoolReadsView>) -> (
        ReqwestProxyView,
        RequestStepView,
    ) {
        let (balancer, choice) = self.balancer.choose_any(reads);
        (
            ReqwestProxyView { balancer, ..self },
            match choice {
                AnyChoice::Key(i, k) => RequestStepView::Send(
                    request_with_key(
                        balancer.pools[i as int].1.keys[k as int],
                        balancer.pools[i as int].0,
                        path,
                    ),
                ),
                AnyChoice::NoKeys => RequestStepView::Answer((503, "No available keys"@)),
                AnyChoice::Unweighted(i) => RequestStepView::Unweighted(
                    balancer.pools[i as int].0,
                ),
            },
        )
    }

    /// The proxy after the key of a request has failed.
    pub open spec fn failed(self, request: UpstreamRequestView, now: u128) -> ReqwestProxyView {
        ReqwestProxyView {
            balancer: self.balancer.failure(
                request.provider,
                request.key_id,
                (self.initial_cooldown_secs * NANOS_PER_SEC) as u128,
                now,
            ),
            ..self
        }
    }

    /// The proxy after a response to a request took so many nanoseconds.
    pub open spec fn timed(self, request: UpstreamRequestView, nanos: u64) -> ReqwestProxyView {
        ReqwestProxyView {
            balancer: self.balancer.timed(request.provider, request.key_id, nanos),
            ..self
        }
    }

    /// The proxy after a reply of the upstream.
    pub open spec fn replied(self, request: UpstreamRequestView, status: u16, now: u128) -> ReqwestProxyView {
        if is_failure_status(status) {
            self.failed(request, now)
        } else {
            self
        }
    }
}

/// The proxy: its keys and its settings.
pub struct ReqwestProxy {
    pub(crate) load_balancer: LoadBalancer,
    pub(crate) initial_cooldown_secs: u64,
}

impl View for ReqwestProxy {
    type V = ReqwestProxyView;

    open(crate) spec fn view(&self) -> ReqwestProxyView {
        ReqwestProxyView {
            balancer: self.load_balancer@,
            initial_cooldown_secs: self.initial_cooldown_secs,
        }
    }
}

impl ReqwestProxy {
    /// The clock of the key that a request was sent with, if there is such a key.
    pub open(crate) spec fn clock_of_request(&self, request: UpstreamRequestView) -> Clock {
        self.load_balancer.clock_of_key(request.provider, request.key_id)
    }

    /// The clocks of all keys, pool by pool.
    pub open(crate) spec fn key_clocks(&self) -> Seq<Seq<Clock>> {
        self.load_balancer.key_clocks()
    }

    /// A proxy with the given keys.
    pub fn new(load_balancer: LoadBalancer, initial_cooldown_secs: u64) -> (proxy: ReqwestProxy)
        ensures
            proxy@ == (ReqwestProxyView { balancer: load_balancer@, initial_cooldown_secs }),
            proxy.key_clocks() == load_balancer.key_clocks(),
    {
        ReqwestProxy { load_balancer, initial_cooldown_secs }
    }

    /// Gives a request a key of any pool, now. It is the proxy's own key: what is done
    /// to it is done to the proxy.
    pub fn select_any_key(&mut self) -> (given: AnyKey<'_>)
        ensures
            exists|reads: Seq<PoolReadsView>|
                reads_taken(old(self)@.balancer.pools, reads) && reads_from(
                    old(self).key_clocks(),
                    reads,
                ) && {
                    let (after, choice) = #[trigger] old(self)@.balancer.choose_any(reads);
                    match choice {
                        AnyChoice::Key(i, k) => given matches AnyKey::Key(key, provider)
                            && provider == after.pools[i as int].0 && handed_out_of(
                            after,
                            old(self).key_clocks(),
                            i as int,
                            k as int,
                            (key@, key.own_clock()),
                            (final(key)@, final(key).own_clock()),
                            (final(self)@.balancer, final(self).key_clocks()),
                        ),
                        AnyChoice::NoKeys => given is NoKeys && final(self)@.balancer == after
                            && final(self).key_clocks() == old(self).key_clocks(),
                        AnyChoice::Unweighted(i) => (given matches AnyKey::Unweighted(provider)
                            && provider == after.pools[i as int].0) && final(self)@.balancer
                            == after && final(self).key_clocks() == old(self).key_clocks(),
                    }
                },
            final(self)@ == (ReqwestProxyView { balancer: final(self)@.balancer, ..old(self)@ }),
            old(self)@.balancer.distinct() ==> final(self)@.balancer.distinct(),
    {
        self.load_balancer.select_any()
    }

    /// Decides what to do with a request for a path, with the given readings.
    pub fn proxy_request_at(
        &mut self,
        path_and_query: Option<&str>,
        reads: &Vec<PoolReads>,
    ) -> (step: RequestStep)
        requires
            reads_fit(old(self)@.balancer.pools, reads_views(reads@)),
        ensures
            (final(self)@, step@) == old(self)@.directed(
                opt_str(path_and_query),
                reads_views(reads@),
            ),
            old(self)@.balancer.distinct() ==> final(self)@.balancer.distinct(),
            final(self).key_clocks() == old(self).key_clocks(),
    {
        let ghost before = self@;
        let ghost clocks = self.key_clocks();
        let ghost chosen = before.balancer.choose_any(reads_views(reads@));
        match self.load_balancer.select_any_at(reads) {
            AnyKey::Key(key, provider) => {
                let url = upstream_url(&key.base_url, path_and_query);
                let host = host_header_for(&key.base_url);
                let auth = auth_header(provider, key.key.as_str());
                let key_id = key.id.clone();
                proof {
                    lemma_given_back(
                        chosen.0,
                        clocks,
                        chosen.1->Key_0 as int,
                        chosen.1->Key_1 as int,
                    );
                }
                RequestStep::Send(UpstreamRequest { url, key_id, provider, auth, host })
            },
            AnyKey::NoKeys => RequestStep::Answer(
                Reply { status: 503, message: "No available keys".to_owned() },
            ),
            AnyKey::Unweighted(provider) => RequestStep::Unweighted(provider),
        }
    }

    /// Decides what to do with a request for a path, now.
    pub fn proxy_request(&mut self, path_and_query: Option<&str>) -> (step: RequestStep)
        ensures
            exists|reads: Seq<PoolReadsView>|
                reads_taken(old(self)@.balancer.pools, reads) && reads_from(
                    old(self).key_clocks(),
                    reads,
                ) && (final(self)@, step@)
                    == #[trigger] old(self)@.directed(opt_str(path_and_query), reads),
            old(self)@.balancer.distinct() ==> final(self)@.balancer.distinct(),
            final(self).key_clocks() == old(self).key_clocks(),
    {
        let reads = self.load_balancer.read_all();
        self.proxy_request_at(path_and_query, &reads)
    }

    /// The request could not be sent, at the time `now` of the key's clock: the key
    /// rests, and the client is told.
    pub fn send_failed_at(&mut self, request: &UpstreamRequest, error: &str, now: u128) -> (reply:
        Reply)
        requires
            now <= MAX_NANOS,
        ensures
            final(self)@ == old(self)@.failed(request@, now),
            reply@ == (502u16, "Upstream error: "@ + error@),
            old(self)@.balancer.distinct() ==> final(self)@.balancer.distinct(),
            final(self).key_clocks() == old(self).key_clocks(),
    {
        let cooldown: u128 = secs(self.initial_cooldown_secs);
        self.load_balancer.mark_failure_at(
            &request.provider,
            request.key_id.as_str(),
            cooldown,
            now,
        );
        Reply { status: 502, message: joined("Upstream error: ", error) }
    }

    /// The request could not be sent, now: the key rests, and the client is told.
    pub fn send_failed(&mut self, request: &UpstreamRequest, error: &str) -> (reply: Reply)
        ensures
            exists|now: u128|
                now <= MAX_NANOS && (old(self)@.balancer.has_key(
                    request@.provider,
                    request@.key_id,
                ) ==> is_reading(old(self).clock_of_request(request@), now)) && final(self)@
                    == #[trigger] old(self)@.failed(request@, now),
            reply@ == (502u16, "Upstream error: "@ + error@),
            old(self)@.balancer.distinct() ==> final(self)@.balancer.distinct(),
            final(self).key_clocks() == old(self).key_clocks(),
    {
        let now: u128 = self.load_balancer.key_time(&request.provider, request.key_id.as_str());
        self.send_failed_at(request, error, now)
    }

    /// Takes note of the status of a reply, at the time `now` of the key's clock.
    pub fn response_received_at(&mut self, request: &UpstreamRequest, status: u16, now: u128)
        requires
            now <= MAX_NANOS,
        ensures
            final(self)@ == old(self)@.replied(request@, status, now),
            old(self)@.balancer.distinct() ==> final(self)@.balancer.distinct(),
            final(self).key_clocks() == old(self).key_clocks(),
    {
        if status_means_failure(status) {
            let cooldown: u128 = secs(self.initial_cooldown_secs);
            self.load_balancer.mark_failure_at(
                &request.provider,
                request.key_id.as_str(),
                cooldown,
                now,
            );
        }
    }

    /// Takes note of the status of a reply, now.
    pub fn response_received(&mut self, request: &UpstreamRequest, status: u16)
        ensures
            exists|now: u128|
                now <= MAX_NANOS && (old(self)@.balancer.has_key(
                    request@.provider,
                    request@.key_id,
                ) ==> is_reading(old(self).clock_of_request(request@), now)) && final(self)@ == #[trigger] old(self)@.replied(
                    request@,
                    status,
                    now,
                ),
            old(self)@.balancer.distinct() ==> final(self)@.balancer.distinct(),
            final(self).key_clocks() == old(self).key_clocks(),
    {
        let now: u128 = self.load_balancer.key_time(&request.provider, request.key_id.as_str());
        self.response_received_at(request, status, now)
    }

    /// Takes note of how long the upstream took to respond to a request.
    pub fn response_timed(&mut self, request: &UpstreamRequest, nanos: u64)
        ensures
            final(self)@ == old(self)@.timed(request@, nanos),
            old(self)@.balancer.distinct() ==> final(self)@.balancer.distinct(),
            final(self).key_clocks() == old(self).key_clocks(),
    {
        self.load_balancer.note_latency(&request.provider, request.key_id.as_str(), nanos);
    }
}

/// The answer when the body of the client's request cannot be read.
pub fn body_unreadable(error: &str) -> (reply: Reply)
    ensures
        reply@ == (400u16, "Failed to read body: "@ + error@),
{
    Reply { status: 400, message: joined("Failed to read body: ", error) }
}

/// The answer when the body of the upstream's reply cannot be read.
pub fn response_unreadable(error: &str) -> (reply: Reply)
    ensures
        reply@ == (502u16, "Failed to read response body: "@ + error@),
{
    Reply { status: 502, message: joined("Failed to read response body: ", error) }
}

} // verus!
