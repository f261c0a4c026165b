//! What both proxies share: the address of an upstream, the header that carries
//! the key, and the reading of a status code.

use crate::load_balancer::key_info::Provider;
use crate::text::{joined, same_text};
use vstd::prelude::*;
#[allow(unused_imports)]
use crate::load_balancer::key_info::opt_text;

verus! {

/// The error of a URL that cannot be parsed. Nothing is known of its inside.
#[verifier::external_type_specification]
#[verifier::external_body]
pub struct ExUrlParseError(url::ParseError);

/// The parts of a URL that an upstream is reached by.
#[derive(Debug, Clone)]
pub struct UrlParts {
    pub scheme: String,
    pub host: Option<String>,
    pub port: Option<u16>,
}

impl View for UrlParts {
    type V = (Seq<char>, Option<Seq<char>>, Option<u16>);

    open spec fn view(&self) -> (Seq<char>, Option<Seq<char>>, Option<u16>) {
        (self.scheme@, opt_text(self.host), self.port)
    }
}

/// Scheme, host and port of the URL that a text holds, as the `url` crate parses
/// it; `None` if it is not a URL. The port is missing where it is the default of
/// the scheme.
pub uninterp spec fn parsed_url(text: Seq<char>) -> Option<
    (Seq<char>, Option<Seq<char>>, Option<u16>),
>;

/// The parts that a parser has found.
pub open spec fn found_parts(parts: Result<UrlParts, url::ParseError>) -> Option<
    (Seq<char>, Option<Seq<char>>, Option<u16>),
> {
    match parts {
        Ok(parts) => Some(parts@),
        Err(_) => None,
    }
}

/// `url::Url::parse`, with what `scheme`, `host_str` and `port` say of the URL:
/// all of it is a function of the text alone. What that function is, the URL
/// Standard says; here it has a name.
#[verifier::external_body]
pub(crate) fn parse_url(text: &str) -> (parts: Result<UrlParts, url::ParseError>)
    ensures
        found_parts(parts) == parsed_url(text@),
{
    let url = url::Url::parse(text)?;
    Ok(UrlParts {
        scheme: url.scheme().to_string(),
        host: url.host_str().map(|host| host.to_string()),
        port: url.port(),
    })
}

/// Where an upstream is reached.
#[derive(Debug, Clone)]
pub struct Endpoint {
    pub host: String,
    pub port: u16,
    pub tls: bool,
}

/// Where an upstream is reached.
#[verifier::ext_equal]
pub struct EndpointView {
    pub host: Seq<char>,
    pub port: u16,
    pub tls: bool,
}

impl View for Endpoint {
    type V = EndpointView;

    open spec fn view(&self) -> EndpointView {
        EndpointView { host: self.host@, port: self.port, tls: self.tls }
    }
}

/// The endpoint of a URL: without a host it is that of the default upstream,
/// without a port it is 443, and only `https` is encrypted. Where there is no
/// URL, it is the default upstream, `https://api.openai.com`.
pub open spec fn endpoint_of(
    parts: Option<(Seq<char>, Option<Seq<char>>, Option<u16>)>,
) -> EndpointView {
    match parts {
        None => EndpointView { host: "api.openai.com"@, port: 443, tls: true },
        Some((scheme, host, port)) => EndpointView {
            host: match host {
                Some(host) => host,
                None => "api.openai.com"@,
            },
            port: match port {
                Some(port) => port,
                None => 443,
            },
            tls: scheme == "https"@,
        },
    }
}

/// The parts of an optional URL.
pub open spec fn opt_parts(parts: Option<UrlParts>) -> Option<
    (Seq<char>, Option<Seq<char>>, Option<u16>),
> {
    match parts {
        Some(parts) => Some(parts@),
        None => None,
    }
}

/// The endpoint of a URL that was taken apart.
pub fn endpoint_from_parts(parts: Option<UrlParts>) -> (endpoint: Endpoint)
    ensures
        endpoint@ == endpoint_of(opt_parts(parts)),
{
    match parts {
        None => Endpoint { host: "api.openai.com".to_owned(), port: 443, tls: true },
        Some(parts) => {
            let tls = same_text(parts.scheme.as_str(), "https");
            let host = match parts.host {
                Some(host) => host,
                None => "api.openai.com".to_owned(),
            };
            let port: u16 = match parts.port {
                Some(port) => port,
                None => 443,
            };
            Endpoint { host, port, tls }
        },
    }
}

/// The URL that is configured and cannot be parsed, if that is so.
pub open spec fn refused_url_of(base_url: Option<Seq<char>>) -> Option<Seq<char>> {
    match base_url {
        Some(url) if parsed_url(url) is None => Some(url),
        _ => None,
    }
}

/// The URL that is configured and cannot be parsed, if that is so.
pub fn refused_url(base_url: &Option<String>) -> (refused: Option<String>)
    ensures
        opt_text(refused) == refused_url_of(opt_text(*base_url)),
{
    match base_url {
        Some(url) => match parse_url(url.as_str()) {
            Ok(_) => None,
            Err(_) => Some(url.clone()),
        },
        None => None,
    }
}

/// The parts of a configured URL, if one is configured and can be parsed.
pub open spec fn configured_parts(base_url: Option<Seq<char>>) -> Option<
    (Seq<char>, Option<Seq<char>>, Option<u16>),
> {
    match base_url {
        Some(url) => parsed_url(url),
        None => None,
    }
}

/// The endpoint of a key's upstream.
pub fn endpoint_for(base_url: &Option<String>) -> (endpoint: Endpoint)
    ensures
        endpoint@ == endpoint_of(configured_parts(opt_text(*base_url))),
{
    match base_url {
        Some(url) => match parse_url(url.as_str()) {
            Ok(parts) => endpoint_from_parts(Some(parts)),
            Err(_) => endpoint_from_parts(None),
        },
        None => endpoint_from_parts(None),
    }
}

/// A header line.
#[derive(Debug, Clone)]
pub struct Header {
    pub name: String,
    pub value: String,
}

impl View for Header {
    type V = (Seq<char>, Seq<char>);

    open spec fn view(&self) -> (Seq<char>, Seq<char>) {
        (self.name@, self.value@)
    }
}

/// The texts of a list of headers.
pub open spec fn header_views(headers: Seq<Header>) -> Seq<(Seq<char>, Seq<char>)> {
    headers.map_values(|h: Header| h@)
}

/// A header line of the given texts.
pub fn header(name: &str, value: &str) -> (line: Header)
    ensures
        line@ == (name@, value@),
{
    Header { name: name.to_owned(), value: value.to_owned() }
}

/// The header that carries the key, in the form that the provider expects.
pub open spec fn auth_header_of(provider: Provider, key: Seq<char>) -> (Seq<char>, Seq<char>) {
    match provider {
        Provider::Anthropic => ("x-api-key"@, key),
        Provider::Azure => ("api-key"@, key),
        _ => ("Authorization"@, "Bearer "@ + key),
    }
}

/// The header that carries the key, in the form that the provider expects.
pub fn auth_header(provider: Provider, key: &str) -> (line: Header)
    ensures
        line@ == auth_header_of(provider, key@),
{
    match provider {
        Provider::Anthropic => header("x-api-key", key),
        Provider::Azure => header("api-key", key),
        _ => header("Authorization", joined("Bearer ", key).as_str()),
    }
}

/// A reply with this status tells that the key cannot be used for a while: the
/// provider limits its rate, or fails.
pub open spec fn is_failure_status(status: u16) -> bool {
    status == 429 || status >= 500
}

/// Whether a reply with this status tells that the key cannot be used for a
/// while.
pub fn status_means_failure(status: u16) -> (failure: bool)
    ensures
        failure == is_failure_status(status),
{
    status == 429 || status >= 500
}

} // verus!
