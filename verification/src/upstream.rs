//! Dialling upstream endpoints.
//!
//! Every request is dispatched to a literal `ip:port`, so an entry of the
//! connection pool is exactly one endpoint. Two bounds are kept apart: the
//! connect bound is short, because an endpoint that has not accepted in a few
//! seconds is not going to, and the bound on response headers is long, because
//! a slow endpoint is still a working one. Neither bounds the body.
use http::Uri;
use vstd::prelude::*;
use crate::net;
use crate::net::SocketAddr;
use crate::text::push_text;
use crate::time::Duration;

verus! {

/// A parsed URI.
#[verifier::external_type_specification]
#[verifier::external_body]
pub struct ExUri(http::Uri);

/// Idle upstream connections kept per endpoint when nothing else is asked for.
pub const DEFAULT_POOL_MAX_IDLE_PER_HOST: usize = 128;

/// Timeouts and pool sizing for upstream connections.
#[derive(Debug, Clone, Copy)]
pub struct UpstreamConfig {
    /// Bound on establishing a TCP connection to an endpoint.
    pub connect_timeout: Duration,
    /// Bound on receiving response *headers* after dispatch.
    pub response_timeout: Duration,
    /// How long an unused pooled connection is kept.
    pub pool_idle_timeout: Duration,
    /// Idle connections kept per endpoint.
    pub pool_max_idle_per_host: usize,
    /// TCP keepalive probe interval for upstream connections.
    pub tcp_keepalive: Option<Duration>,
    /// Endpoints tried before giving up, when the failure is a connect failure
    /// and the request is safe to re-dispatch.
    ///
    /// Capped rather than every endpoint: an endpoint whose node has dropped off
    /// the network burns the whole connect bound, and walking forty of those
    /// spends minutes on a request the client abandoned in seconds.
    pub max_connect_attempts: usize,
}

/// The settings when nothing else is asked for: five seconds to connect, a minute
/// to answer, three endpoints to try.
pub open spec fn is_default(config: UpstreamConfig) -> bool {
    &&& config.connect_timeout@ == 5_000_000_000
    &&& config.response_timeout@ == 60_000_000_000
    &&& config.pool_idle_timeout@ == 90_000_000_000
    &&& config.pool_max_idle_per_host == 32
    &&& config.tcp_keepalive matches Some(interval)
    &&& interval@ == 60_000_000_000
    &&& config.max_connect_attempts == 3
}

impl Default for UpstreamConfig {
    fn default() -> (r: UpstreamConfig)
        ensures
            is_default(r),
    {
        UpstreamConfig {
            connect_timeout: Duration::from_secs(5),
            response_timeout: Duration::from_secs(60),
            pool_idle_timeout: Duration::from_secs(90),
            pool_max_idle_per_host: 32,
            tcp_keepalive: Some(Duration::from_secs(60)),
            max_connect_attempts: 3,
        }
    }
}

/// The attempts that a configured number of them comes to.
pub open spec fn attempts_of(configured: usize) -> usize {
    if configured == 0 {
        1
    } else {
        configured
    }
}

/// There is always one attempt, and otherwise there are as many as were asked for.
pub proof fn there_is_always_an_attempt(configured: usize)
    ensures
        attempts_of(configured) >= 1,
        configured >= 1 ==> attempts_of(configured) == configured,
{
}

impl UpstreamConfig {
    /// How many endpoints a retryable request may be dispatched to. At least
    /// one, or no request would ever be dispatched.
    pub fn attempts(&self) -> (r: usize)
        ensures
            r == if self.max_connect_attempts == 0 {
                1
            } else {
                self.max_connect_attempts
            },
            r == attempts_of(self.max_connect_attempts),
    {
        if self.max_connect_attempts == 0 {
            1
        } else {
            self.max_connect_attempts
        }
    }
}

/// Why an upstream exchange failed.
///
/// Only after `Connect` is the request untouched and free to go to another
/// endpoint. After the others bytes may already have been sent, and sending them
/// again would be a duplicate request.
#[derive(Debug)]
pub enum UpstreamError {
    /// The TCP connection could not be established.
    Connect(String),
    /// No response headers arrived before the bound.
    Timeout,
    /// The connection was established but the exchange failed.
    Transport(String),
}

/// What an error says.
pub open spec fn upstream_error_text(error: UpstreamError) -> Seq<char> {
    match error {
        UpstreamError::Connect(cause) => "upstream connect failed: "@ + cause@,
        UpstreamError::Timeout => "upstream response timed out"@,
        UpstreamError::Transport(cause) => "upstream exchange failed: "@ + cause@,
    }
}

impl UpstreamError {
    /// Whether nothing was sent, and so a different endpoint may be tried.
    pub fn is_retryable(&self) -> (r: bool)
        ensures
            r == (self is Connect),
    {
        matches!(self, UpstreamError::Connect(_))
    }

    /// The error in words.
    pub fn to_text(&self) -> (r: String)
        ensures
            r@ == upstream_error_text(*self),
    {
        let mut out = String::new();
        match self {
            UpstreamError::Connect(cause) => {
                push_text(&mut out, "upstream connect failed: ");
                push_text(&mut out, cause.as_str());
            },
            UpstreamError::Timeout => {
                push_text(&mut out, "upstream response timed out");
            },
            UpstreamError::Transport(cause) => {
                push_text(&mut out, "upstream exchange failed: ");
                push_text(&mut out, cause.as_str());
            },
        }
        assert(out@ =~= upstream_error_text(*self));
        out
    }
}

/// How a dispatched request came back.
#[derive(Debug)]
pub enum Exchange<R> {
    /// The response headers arrived.
    Answered(R),
    /// The client failed; whether it failed before a connection was there, and
    /// what it said.
    Failed { connecting: bool, cause: String },
    /// The bound on response headers elapsed.
    Elapsed,
}

/// What came back, as a response or one of the three errors.
pub open spec fn sorted<R>(exchange: Exchange<R>) -> Result<R, UpstreamError> {
    match exchange {
        Exchange::Answered(response) => Ok(response),
        Exchange::Failed { connecting, cause } => Err(
            if connecting {
                UpstreamError::Connect(cause)
            } else {
                UpstreamError::Transport(cause)
            },
        ),
        Exchange::Elapsed => Err(UpstreamError::Timeout),
    }
}

/// Only a failure to connect leaves the request untouched, and so free to go to
/// another endpoint: a broken exchange and a late answer do not. What the client
/// said of a failure is kept.
pub proof fn only_a_failed_connection_is_retryable<R>(exchange: Exchange<R>)
    ensures
        sorted(exchange) is Ok <==> exchange is Answered,
        sorted(exchange) matches Ok(response) ==> exchange == Exchange::Answered(response),
        sorted(exchange) matches Err(e) ==> (e is Timeout <==> exchange is Elapsed),
        sorted(exchange) matches Err(UpstreamError::Connect(said)) ==> exchange is Failed
            && exchange->connecting && exchange->cause == said,
        sorted(exchange) matches Err(UpstreamError::Transport(said)) ==> exchange is Failed
            && !exchange->connecting && exchange->cause == said,
{
}

/// Sorts what came back into a response or one of the three errors.
pub fn outcome<R>(exchange: Exchange<R>) -> (r: Result<R, UpstreamError>)
    ensures
        r == match exchange {
            Exchange::Answered(response) => Ok(response),
            Exchange::Failed { connecting, cause } => if connecting {
                Err(UpstreamError::Connect(cause))
            } else {
                Err(UpstreamError::Transport(cause))
            },
            Exchange::Elapsed => Err(UpstreamError::Timeout),
        },
        r == sorted(exchange),
{
    match exchange {
        Exchange::Answered(response) => Ok(response),
        Exchange::Failed { connecting, cause } => if connecting {
            Err(UpstreamError::Connect(cause))
        } else {
            Err(UpstreamError::Transport(cause))
        },
        Exchange::Elapsed => Err(UpstreamError::Timeout),
    }
}

/// The URI a text spells, or `None` when it spells none.
pub uninterp spec fn uri(text: Seq<char>) -> Option<http::Uri>;

/// `Uri::from_str`: the URI that a text spells, if it spells one.
#[verifier::external_body]
fn parse_uri(text: &str) -> (r: Option<Uri>)
    ensures
        r == uri(text@),
{
    text.parse::<Uri>().ok()
}

/// The absolute form in which a request goes to an endpoint: the endpoint as the
/// authority, then the path and query as they came, or the root.
pub open spec fn endpoint_text(endpoint: net::SocketView, path_and_query: Option<Seq<char>>) -> Seq<
    char,
> {
    "http://"@ + net::socket_text(endpoint) + match path_and_query {
        Some(path) => path,
        None => "/"@,
    }
}

/// Builds the text of the absolute URI for dispatching to `endpoint`.
pub fn endpoint_target(endpoint: SocketAddr, path_and_query: Option<&str>) -> (r: String)
    ensures
        r@ == endpoint_text(
            endpoint@,
            match path_and_query {
                Some(path) => Some(path@),
                None => None,
            },
        ),
{
    let mut buffer = String::new();
    push_text(&mut buffer, "http://");
    let authority = endpoint.to_text();
    push_text(&mut buffer, authority.as_str());
    match path_and_query {
        Some(path) => {
            push_text(&mut buffer, path);
        },
        None => {
            push_text(&mut buffer, "/");
        },
    }
    assert(buffer@ =~= endpoint_text(
        endpoint@,
        match path_and_query {
            Some(path) => Some(path@),
            None => None,
        },
    ));
    buffer
}

/// Builds the absolute URI for dispatching to `endpoint`. An IPv6 endpoint is
/// written in brackets, the form an authority wants.
pub fn endpoint_uri(endpoint: SocketAddr, path_and_query: Option<&str>) -> (r: Option<Uri>)
    ensures
        r == uri(
            endpoint_text(
                endpoint@,
                match path_and_query {
                    Some(path) => Some(path@),
                    None => None,
                },
            ),
        ),
{
    let target = endpoint_target(endpoint, path_and_query);
    parse_uri(target.as_str())
}

/// A request goes to its endpoint in the absolute form, over plain HTTP, with its
/// path and query behind the address as they came; without any it asks for the root.
pub proof fn a_target_is_its_endpoint_and_path(endpoint: net::SocketView, path: Seq<char>)
    ensures
        endpoint_text(endpoint, Some(path)) == "http://"@ + net::socket_text(endpoint) + path,
        endpoint_text(endpoint, None) == endpoint_text(endpoint, Some("/"@)),
{
}

/// A failure says which of the three it was, and what the client said of it.
pub proof fn a_failure_says_which_it_was(error: UpstreamError)
    ensures
        error matches UpstreamError::Connect(said) ==> upstream_error_text(error)
            == "upstream connect failed: "@ + said@,
        error is Timeout ==> upstream_error_text(error) == "upstream response timed out"@,
        error matches UpstreamError::Transport(said) ==> upstream_error_text(error)
            == "upstream exchange failed: "@ + said@,
{
}

/// When nothing is asked for, an endpoint has five seconds to accept and a minute to
/// answer, three endpoints are tried, and connections are kept for a minute and a half.
pub proof fn the_default_bounds(config: UpstreamConfig)
    requires
        is_default(config),
    ensures
        config.connect_timeout@ == 5 * 1_000_000_000,
        config.response_timeout@ == 60 * 1_000_000_000,
        config.pool_idle_timeout@ == 90 * 1_000_000_000,
        config.pool_max_idle_per_host == 32,
        config.tcp_keepalive matches Some(every) && every@ == 60 * 1_000_000_000,
        config.max_connect_attempts == 3,
        DEFAULT_POOL_MAX_IDLE_PER_HOST == 128,
{
}

} // verus!
