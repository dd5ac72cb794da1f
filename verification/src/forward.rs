//! The per-request forwarding path.
//!
//! A request is matched against one snapshot of the routing table, its headers
//! are rewritten for the hop, and it goes to one endpoint of its backend, or to
//! a few in turn. What stands here is every decision on that path; the owner of
//! the sockets carries them out.
//!
//! Only a failure to connect is retried: nothing was written to the endpoint
//! then. After a timeout or a failed exchange the request may already have had
//! its effect, and doing it twice is worse than an error. And only a body that
//! is known to be empty can be sent a second time, because nothing is buffered.
//!
//! | Condition | Status |
//! |---|---|
//! | no matching route, and no default backend | 404 |
//! | backend matched but has no endpoints | 503 |
//! | every attempted endpoint refused the connection | 502 |
//! | upstream sent no headers before the deadline | 504 |
//! | gRPC arriving at an HTTP/1.1 backend | 502 |
use bytes::Bytes;
use http::{HeaderMap, HeaderValue, Uri};
use vstd::prelude::*;
use crate::body::ProxyBody;
use crate::buffers;
use crate::header_map;
use crate::headers;
use crate::headers::X_FORWARDED_HOST;
use crate::metrics;
use crate::metrics::Metrics;
use crate::mirror::{Buffered, Piece, MIRRORED_BY, MIRRORED_BY_VALUE};
use crate::net;
use crate::net::SocketAddr;
use crate::rng;
use crate::rng::Rng;
use crate::text;
use crate::text::{has_prefix, to_chars};
use crate::time::Duration;
use crate::upstream;
use crate::upstream::{endpoint_uri, UpstreamError};

verus! {

/// Header fields by their names.
pub type Fields = Map<Seq<char>, Seq<Seq<u8>>>;

pub const BODY_NO_ROUTE: &'static str = "404 Not Found: no ingress rule matches this host and path\n";

pub const BODY_NO_ENDPOINT: &'static str =
    "503 Service Unavailable: the backend has no ready endpoints\n";

pub const BODY_CONNECT_FAILED: &'static str =
    "502 Bad Gateway: could not connect to any upstream endpoint\n";

pub const BODY_UPSTREAM_FAILED: &'static str = "502 Bad Gateway: the upstream connection failed\n";

pub const BODY_BAD_TARGET: &'static str =
    "502 Bad Gateway: the endpoint address is not a valid URI\n";

pub const BODY_UPGRADE_FAILED: &'static str =
    "502 Bad Gateway: the upstream refused to complete the upgrade\n";

pub const BODY_TIMEOUT: &'static str =
    "504 Gateway Timeout: the upstream sent no response headers in time\n";

/// A gRPC request whose backend is dialled over HTTP/1.1. The hint is the whole
/// value of this response.
pub const BODY_GRPC: &'static str =
    "502 Bad Gateway: gRPC requires an HTTP/2 backend; set nginx.ingress.kubernetes.io/backend-protocol: GRPC on the Ingress\n";

/// Names the capability a 502 was refused for, in one token. Only on refusals an
/// operator can act on.
pub const UNSUPPORTED_HEADER: &'static str = "x-ramjet-unsupported";

/// A gRPC request reached a backend nobody annotated for it.
pub const UNSUPPORTED_GRPC: &'static str = "grpc-needs-backend-protocol";

/// The type of every body made here.
pub const PLAIN_TEXT: &'static str = "text/plain; charset=utf-8";

/// Which listener a request arrived on, which is what `X-Forwarded-Proto` says.
#[derive(Debug, Clone, Copy, PartialEq, Eq, Structural)]
pub enum Scheme {
    /// The plaintext listener.
    Http,
    /// The TLS listener.
    Https,
}

/// The name of a scheme.
pub open spec fn scheme_text(scheme: Scheme) -> Seq<char> {
    match scheme {
        Scheme::Http => "http"@,
        Scheme::Https => "https"@,
    }
}

impl Scheme {
    /// The value used for `X-Forwarded-Proto`.
    pub fn as_str(self) -> (r: &'static str)
        ensures
            r@ == scheme_text(self),
    {
        match self {
            Scheme::Http => "http",
            Scheme::Https => "https",
        }
    }
}

/// Per-connection facts that every request on it inherits.
#[derive(Debug, Clone, Copy)]
pub struct ConnInfo {
    /// The peer address, used for `X-Forwarded-For` and `X-Real-IP`.
    pub remote: SocketAddr,
    /// Which listener accepted the connection.
    pub scheme: Scheme,
}

/// How the endpoints of a backend are dialled.
#[derive(Debug, Clone, Copy, PartialEq, Eq, Structural)]
pub enum BackendProtocol {
    Http1,
    H2c,
}

/// The version a request goes out with.
#[derive(Debug, Clone, Copy, PartialEq, Eq, Structural)]
pub enum Version {
    Http11,
    Http2,
}

/// The version of a protocol.
pub open spec fn version_of(protocol: BackendProtocol) -> Version {
    match protocol {
        BackendProtocol::Http1 => Version::Http11,
        BackendProtocol::H2c => Version::Http2,
    }
}

/// A response made here.
#[derive(Debug, Clone, Copy)]
pub struct Reply {
    pub status: u16,
    pub content_type: &'static str,
    /// The capability that was missing, for `UNSUPPORTED_HEADER`.
    pub unsupported: Option<&'static str>,
    pub body: &'static str,
}

/// An error response with a constant body.
pub fn static_response(status: u16, body: &'static str) -> (r: Reply)
    ensures
        r == plain(status, body),
{
    Reply { status, content_type: PLAIN_TEXT, unsupported: None, body }
}

/// The same, additionally naming the capability that was missing.
pub fn unsupported_response(status: u16, body: &'static str, feature: &'static str) -> (r: Reply)
    ensures
        r == (Reply { unsupported: Some(feature), ..plain(status, body) }),
{
    Reply { status, content_type: PLAIN_TEXT, unsupported: Some(feature), body }
}

/// An error response with a constant body.
pub open spec fn plain(status: u16, body: &'static str) -> Reply {
    Reply { status, content_type: PLAIN_TEXT, unsupported: None, body }
}

/// The response to a request that matched no route and no default backend.
pub fn no_route(metrics: &mut Metrics) -> (r: Reply)
    ensures
        r == plain(404, BODY_NO_ROUTE),
        *final(metrics) == (Metrics {
            route_misses: metrics::bumped(old(metrics).route_misses),
            ..*old(metrics)
        }),
{
    metrics.record_route_miss();
    static_response(404, BODY_NO_ROUTE)
}

// ---------------------------------------------------------------------------
// Whom the client addressed
// ---------------------------------------------------------------------------

/// A text that may be missing.
pub open spec fn option_str(s: Option<&str>) -> Option<Seq<char>> {
    match s {
        Some(s) => Some(s@),
        None => None,
    }
}

/// The first value of a field as text, when all of it is visible.
pub open spec fn text_value(f: Fields, name: Seq<char>) -> Option<Seq<char>> {
    match header_map::first_value(f, name) {
        Some(value) => if header_map::all_visible(value) {
            Some(header_map::chars_of(value))
        } else {
            None
        },
        None => None,
    }
}

/// The host the client addressed: the authority of the request target, which
/// HTTP/2 always carries and which wins over `Host`, and else `Host`.
pub open spec fn authority_value(authority: Option<Seq<char>>, f: Fields) -> Seq<char> {
    match authority {
        Some(authority) => authority,
        None => match text_value(f, "host"@) {
            Some(host) => host,
            None => Seq::empty(),
        },
    }
}

/// The same as a header value.
pub open spec fn host_value(authority: Option<Seq<char>>, f: Fields) -> Option<Seq<u8>> {
    match authority {
        Some(authority) => if header_map::is_value(vstd::utf8::encode_utf8(authority)) {
            Some(vstd::utf8::encode_utf8(authority))
        } else {
            None
        },
        None => header_map::first_value(f, "host"@),
    }
}

proof fn lemma_names()
    ensures
        text::lower("host"@) == "host"@,
        text::lower("content-type"@) == "content-type"@,
        text::lower(X_FORWARDED_HOST@) == X_FORWARDED_HOST@,
        text::lower(MIRRORED_BY@) == MIRRORED_BY@,
        header_map::spells_name("host"@),
        header_map::spells_name("content-type"@),
        header_map::spells_name(X_FORWARDED_HOST@),
        header_map::spells_name(MIRRORED_BY@),
        header_map::all_visible_chars(MIRRORED_BY_VALUE@),
        header_map::all_visible_chars("http"@),
        header_map::all_visible_chars("https"@),
{
    reveal_strlit("host");
    reveal_strlit("content-type");
    reveal_strlit("x-forwarded-host");
    reveal_strlit("x-mirrored-by");
    reveal_strlit("ramjet-ingress");
    reveal_strlit("http");
    reveal_strlit("https");
    header_map::lemma_plain_name("host"@);
    header_map::lemma_plain_name("content-type"@);
    header_map::lemma_plain_name(X_FORWARDED_HOST@);
    header_map::lemma_plain_name(MIRRORED_BY@);
}

fn visible_value(headers: &HeaderMap, name: &str) -> (r: Option<String>)
    requires
        header_map::spells_name(name@),
    ensures
        headers::option_text(r) == text_value(header_map::fields(*headers), text::lower(name@)),
{
    match header_map::get(headers, name) {
        Some(value) => match value.to_str() {
            Ok(line) => {
                let chars = to_chars(line);
                Some(text::from_chars(chars.as_slice()))
            },
            Err(_) => None,
        },
        None => None,
    }
}

/// The host the client addressed. `authority` is that of the request target.
pub fn request_authority(authority: Option<&str>, headers: &HeaderMap) -> (r: String)
    ensures
        r@ == authority_value(option_str(authority), header_map::fields(*headers)),
{
    proof {
        lemma_names();
    }
    if let Some(authority) = authority {
        let chars = to_chars(authority);
        return text::from_chars(chars.as_slice());
    }
    match visible_value(headers, "host") {
        Some(host) => host,
        None => String::new(),
    }
}

/// The same as a header value.
pub fn client_host(authority: Option<&str>, headers: &HeaderMap) -> (r: Option<HeaderValue>)
    ensures
        header_map::option_bytes(r) == host_value(
            option_str(authority),
            header_map::fields(*headers),
        ),
{
    proof {
        lemma_names();
    }
    match authority {
        Some(authority) => match HeaderValue::from_str(authority) {
            Ok(value) => Some(value),
            Err(_) => None,
        },
        None => header_map::get(headers, "host"),
    }
}

/// Is this a gRPC request?
pub open spec fn grpc(f: Fields) -> bool {
    text_value(f, "content-type"@) matches Some(kind) && text::starts_with(
        kind,
        "application/grpc"@,
    )
}

/// Is this a gRPC request?
pub fn is_grpc(headers: &HeaderMap) -> (r: bool)
    ensures
        r == grpc(header_map::fields(*headers)),
{
    proof {
        lemma_names();
    }
    match visible_value(headers, "content-type") {
        Some(kind) => {
            let chars = to_chars(kind.as_str());
            let prefix = to_chars("application/grpc");
            has_prefix(chars.as_slice(), prefix.as_slice())
        },
        None => false,
    }
}

// ---------------------------------------------------------------------------
// The matched route
// ---------------------------------------------------------------------------

/// What the router said of a canary on the matched rule.
#[derive(Debug)]
pub enum Canary<B> {
    /// The rule has none.
    Absent,
    /// It has one, which did not take this request.
    Passed,
    /// It took this request, for this backend if the table holds it.
    Took(Option<B>),
}

/// Where a request goes, and whether it counts as canary traffic.
#[derive(Debug)]
pub struct Matched<B> {
    /// Where to forward, after any canary decision.
    pub backend: B,
    /// Whether the canary took this request. Which route it counts against does
    /// not depend on this.
    pub canaried: bool,
}

/// Applies the canary's decision. A canary that names a backend the table does
/// not hold serves production instead, and that is no canary traffic.
pub fn select_backend<B>(production: B, canary: Canary<B>) -> (r: Matched<B>)
    ensures
        r == match canary {
            Canary::Took(Some(backend)) => Matched { backend, canaried: true },
            _ => Matched { backend: production, canaried: false },
        },
{
    match canary {
        Canary::Took(Some(backend)) => Matched { backend, canaried: true },
        _ => Matched { backend: production, canaried: false },
    }
}

/// What a canary may ask of a request: the value of a header, as text, and that
/// of a cookie. A header name that is none finds nothing.
pub fn canary_inputs(
    headers: &HeaderMap,
    header_name: Option<&str>,
    cookie_name: Option<&str>,
) -> (r: (Option<String>, Option<String>))
    ensures
        headers::option_text(r.0) == match header_name {
            Some(name) => if header_map::spells_name(name@) {
                text_value(header_map::fields(*headers), text::lower(name@))
            } else {
                None
            },
            None => None,
        },
        headers::option_text(r.1) == match cookie_name {
            Some(name) => headers::first_cookie(
                header_map::values(header_map::fields(*headers), "cookie"@),
                name@,
            ),
            None => None,
        },
{
    let header = match header_name {
        // Any other text is no name to look a field up by.
        Some(name) => if header_map::name_from_bytes(name.as_bytes()).is_some() {
            visible_value(headers, name)
        } else {
            None
        },
        None => None,
    };
    let cookie = match cookie_name {
        Some(name) => headers::cookie_value(headers, name),
        None => None,
    };
    (header, cookie)
}

/// The counter blocks one request writes to: always the route's own, and the
/// route's canary block as well when the canary took the request. The totals
/// stay the totals.
#[derive(Debug, Clone, Copy, PartialEq, Eq, Structural)]
pub struct Recorder {
    pub route: bool,
    pub canary: bool,
}

impl Recorder {
    /// The blocks of a request that matched a rule with counters, or none.
    pub fn new(counted: bool, canaried: bool) -> (r: Recorder)
        ensures
            r.route == counted,
            r.canary == (counted && canaried),
    {
        Recorder { route: counted, canary: counted && canaried }
    }
}

// ---------------------------------------------------------------------------
// The request on its way out
// ---------------------------------------------------------------------------

/// The fields with a request id.
pub open spec fn with_request_id(f: Fields, state: u64) -> Fields {
    match header_map::first_value(f, headers::X_REQUEST_ID@) {
        Some(sent) => if sent.len() > 0 {
            f
        } else {
            f.insert(headers::X_REQUEST_ID@, seq![headers::fresh_id(state)])
        },
        None => f.insert(headers::X_REQUEST_ID@, seq![headers::fresh_id(state)]),
    }
}

/// The generator's state after a request: two steps on where an id was made up,
/// and unchanged where the client sent one that goes along.
pub open spec fn drawn(f: Fields, state: u64) -> u64 {
    match header_map::first_value(headers::end_to_end(f), headers::X_REQUEST_ID@) {
        Some(sent) => if sent.len() > 0 {
            state
        } else {
            rng::step(rng::step(state))
        },
        None => rng::step(rng::step(state)),
    }
}

/// The fields of a request for a backend of a protocol.
///
/// What is hop-by-hop goes, and what describes this hop comes. Over HTTP/1.1 an
/// upgrade is asked for again, and a `Host` that HTTP/2 carried elsewhere is put
/// back, so that the endpoint's own address never stands in for it. HTTP/2
/// forbids the upgrade fields and carries the authority in the request target,
/// and a `Host` that says otherwise is malformed, so there it goes.
pub open spec fn outgoing(
    f: Fields,
    client: net::IpView,
    scheme: Scheme,
    host: Option<Seq<u8>>,
    protocol: BackendProtocol,
    state: u64,
) -> Fields {
    let hop = with_request_id(
        headers::forwarded(headers::end_to_end(f), client, scheme_text(scheme), host),
        state,
    );
    match protocol {
        BackendProtocol::Http1 => {
            let asked = match headers::upgrade_value(f) {
                Some(upgrade) => headers::with_upgrade(hop, upgrade),
                None => hop,
            };
            if asked.contains_key("host"@) {
                asked
            } else {
                match host {
                    Some(host) => asked.insert("host"@, seq![host]),
                    None => asked,
                }
            }
        },
        BackendProtocol::H2c => hop.remove("host"@),
    }
}

/// Fewer names fit where there were more.
proof fn lemma_fewer_names(f: Fields, g: Fields)
    requires
        f.dom().finite(),
        g.dom().subset_of(f.dom()),
    ensures
        g.dom().finite(),
        g.dom().len() <= f.dom().len(),
{
    vstd::set_lib::lemma_len_subset(g.dom(), f.dom());
}

/// One more field is at most one more name.
proof fn lemma_one_more_name(f: Fields, name: Seq<char>, list: Seq<Seq<u8>>)
    requires
        f.dom().finite(),
    ensures
        f.insert(name, list).dom().finite(),
        f.insert(name, list).dom().len() <= f.dom().len() + 1,
{
    assert(f.insert(name, list).dom() =~= f.dom().insert(name));
}

/// Forwarding adds at most four names.
proof fn lemma_forwarded_names(
    f: Fields,
    client: net::IpView,
    scheme: Seq<char>,
    host: Option<Seq<u8>>,
)
    requires
        f.dom().finite(),
    ensures
        headers::forwarded(f, client, scheme, host).dom().finite(),
        headers::forwarded(f, client, scheme, host).dom().len() <= f.dom().len() + 4,
{
    let address = header_map::ascii_bytes(net::ip_text(client));
    let trail = headers::trail(f, address);
    lemma_one_more_name(f, headers::X_FORWARDED_FOR@, seq![trail]);
    let f1 = if header_map::is_value(trail) {
        f.insert(headers::X_FORWARDED_FOR@, seq![trail])
    } else {
        f
    };
    lemma_one_more_name(f1, headers::X_REAL_IP@, seq![address]);
    let f2 = f1.insert(headers::X_REAL_IP@, seq![address]);
    lemma_one_more_name(f2, headers::X_FORWARDED_PROTO@, seq![header_map::ascii_bytes(scheme)]);
    let f3 = f2.insert(headers::X_FORWARDED_PROTO@, seq![header_map::ascii_bytes(scheme)]);
    if let Some(h) = host {
        lemma_one_more_name(f3, headers::X_FORWARDED_HOST@, seq![h]);
    }
}

/// Rewrites the headers of a request for a backend of a protocol. Returns the
/// upgrade the client asked for.
pub fn prepare(
    headers: &mut HeaderMap,
    conn: ConnInfo,
    host: Option<HeaderValue>,
    protocol: BackendProtocol,
    rng: &mut Rng,
) -> (r: Option<HeaderValue>)
    requires
        header_map::has_room(*old(headers), 8),
        old(rng).wf(),
    ensures
        final(rng).wf(),
        header_map::option_bytes(r) == headers::upgrade_value(header_map::fields(*old(headers))),
        header_map::fields(*final(headers)) == outgoing(
            header_map::fields(*old(headers)),
            conn.remote@.ip,
            conn.scheme,
            header_map::option_bytes(host),
            protocol,
            old(rng).state(),
        ),
        final(rng).state() == drawn(header_map::fields(*old(headers)), old(rng).state()),
{
    let ghost f = header_map::fields(*headers);
    let ghost sent = header_map::option_bytes(host);
    proof {
        lemma_names();
    }
    let upgrade = headers::upgrade_protocol(headers);
    headers::strip_hop_by_hop(headers);
    let ghost f1 = header_map::fields(*headers);
    proof {
        lemma_fewer_names(f, f1);
    }
    let named = match &host {
        Some(value) => Some(value.clone()),
        None => None,
    };
    headers::apply_forwarded(headers, conn.remote.ip, conn.scheme.as_str(), named);
    let ghost f2 = header_map::fields(*headers);
    proof {
        lemma_forwarded_names(f1, conn.remote@.ip, scheme_text(conn.scheme), sent);
        lemma_names_differ();
        headers::forwarding_touches_nothing_else(
            f1,
            conn.remote@.ip,
            scheme_text(conn.scheme),
            sent,
            headers::X_REQUEST_ID@,
        );
    }
    let _ = headers::ensure_request_id(headers, rng);
    let ghost f3 = header_map::fields(*headers);
    proof {
        lemma_one_more_name(
            f2,
            headers::X_REQUEST_ID@,
            seq![headers::fresh_id(old(rng).state())],
        );
    }
    match protocol {
        BackendProtocol::Http1 => {
            if let Some(asked) = &upgrade {
                headers::restore_upgrade(headers, asked);
                proof {
                    let value = header_map::value_bytes(*asked);
                    lemma_one_more_name(f3, "connection"@, seq![headers::upgrade_token()]);
                    lemma_one_more_name(
                        f3.insert("connection"@, seq![headers::upgrade_token()]),
                        "upgrade"@,
                        seq![value],
                    );
                }
            }
            if !header_map::contains_key(headers, "host") {
                if let Some(value) = host {
                    header_map::insert(headers, "host", value);
                }
            }
        },
        BackendProtocol::H2c => {
            let _ = header_map::remove(headers, "host");
        },
    }
    upgrade
}

/// The names that matter to the authority and to an upgrade are all different.
proof fn lemma_names_differ()
    ensures
        "host"@ != "connection"@,
        "host"@ != "upgrade"@,
        "host"@ != X_FORWARDED_HOST@,
        "host"@ != headers::X_FORWARDED_FOR@,
        "host"@ != headers::X_FORWARDED_PROTO@,
        "host"@ != headers::X_REAL_IP@,
        "host"@ != headers::X_REQUEST_ID@,
        "connection"@ != "upgrade"@,
        "connection"@ != X_FORWARDED_HOST@,
        "connection"@ != headers::X_FORWARDED_FOR@,
        "connection"@ != headers::X_FORWARDED_PROTO@,
        "connection"@ != headers::X_REAL_IP@,
        "connection"@ != headers::X_REQUEST_ID@,
        "upgrade"@ != X_FORWARDED_HOST@,
        "upgrade"@ != headers::X_FORWARDED_FOR@,
        "upgrade"@ != headers::X_FORWARDED_PROTO@,
        "upgrade"@ != headers::X_REAL_IP@,
        "upgrade"@ != headers::X_REQUEST_ID@,
        X_FORWARDED_HOST@ != headers::X_REQUEST_ID@,
        headers::X_FORWARDED_FOR@ != headers::X_REQUEST_ID@,
        headers::X_FORWARDED_PROTO@ != headers::X_REQUEST_ID@,
        headers::X_REAL_IP@ != headers::X_REQUEST_ID@,
{
    reveal_strlit("host");
    reveal_strlit("connection");
    reveal_strlit("upgrade");
    reveal_strlit("x-forwarded-for");
    reveal_strlit("x-forwarded-proto");
    reveal_strlit("x-forwarded-host");
    reveal_strlit("x-real-ip");
    reveal_strlit("x-request-id");
    assert("host"@.len() == 4 && "connection"@.len() == 10 && "upgrade"@.len() == 7);
    assert("x-forwarded-for"@.len() == 15 && "x-forwarded-proto"@.len() == 17);
    assert("x-forwarded-host"@.len() == 16 && "x-real-ip"@.len() == 9);
    assert("x-request-id"@.len() == 12);
}

/// The name the client used goes along. Over HTTP/1.1 it is the request's `Host`:
/// the client's own where that crosses the hop, and otherwise the name the client
/// addressed. Whatever the protocol, the forwarding field says it too.
pub proof fn the_clients_name_goes_along(
    f: Fields,
    client: net::IpView,
    scheme: Scheme,
    host: Seq<u8>,
    protocol: BackendProtocol,
    state: u64,
)
    ensures
        ({
            let out = outgoing(f, client, scheme, Some(host), protocol, state);
            &&& header_map::values(out, X_FORWARDED_HOST@) == seq![host]
            &&& protocol == BackendProtocol::Http1 ==> header_map::values(out, "host"@) == if headers::end_to_end(
                f,
            ).contains_key("host"@) {
                f["host"@]
            } else {
                seq![host]
            }
        }),
{
    lemma_names_differ();
}

/// A request over HTTP/2 carries no field that HTTP/2 forbids and no `Host` that
/// could disagree with its authority.
pub proof fn http2_carries_no_connection_fields(
    f: Fields,
    client: net::IpView,
    scheme: Scheme,
    host: Option<Seq<u8>>,
    state: u64,
)
    ensures
        ({
            let out = outgoing(f, client, scheme, host, BackendProtocol::H2c, state);
            &&& !out.contains_key("host"@)
            &&& !out.contains_key("connection"@)
            &&& !out.contains_key("upgrade"@)
        }),
{
    lemma_names_differ();
}

/// Over HTTP/1.1 the next hop is asked for the upgrade the client asked for, and
/// for none when the client asked for none.
pub proof fn an_upgrade_is_asked_for_again(
    f: Fields,
    client: net::IpView,
    scheme: Scheme,
    host: Option<Seq<u8>>,
    state: u64,
)
    ensures
        headers::upgrade_value(outgoing(f, client, scheme, host, BackendProtocol::Http1, state))
            == headers::upgrade_value(f),
{
    lemma_names_differ();
    let out = outgoing(f, client, scheme, host, BackendProtocol::Http1, state);
    match headers::upgrade_value(f) {
        Some(upgrade) => {
            let direct = headers::with_upgrade(headers::end_to_end(f), upgrade);
            headers::an_upgrade_survives_strip_and_restore(f);
            assert(header_map::values(out, "connection"@) == header_map::values(
                direct,
                "connection"@,
            ));
            assert(header_map::values(out, "upgrade"@) == header_map::values(direct, "upgrade"@));
        },
        None => {
            assert(header_map::values(out, "connection"@) =~= Seq::empty());
        },
    }
}

/// Why a matched request is not dispatched at all.
pub open spec fn refusal(protocol: BackendProtocol, f: Fields, endpoints: nat) -> Option<Reply> {
    if protocol == BackendProtocol::Http1 && grpc(f) {
        Some(Reply { unsupported: Some(UNSUPPORTED_GRPC), ..plain(502, BODY_GRPC) })
    } else if endpoints == 0 {
        Some(plain(503, BODY_NO_ENDPOINT))
    } else {
        None
    }
}

/// Refuses what cannot be dispatched: gRPC to a backend that is dialled over
/// HTTP/1.1, which has no form for it, and anything to a backend without
/// endpoints.
pub fn turn_away(protocol: BackendProtocol, headers: &HeaderMap, endpoints: usize) -> (r: Option<Reply>)
    ensures
        r == refusal(protocol, header_map::fields(*headers), endpoints as nat),
{
    if matches!(protocol, BackendProtocol::Http1) && is_grpc(headers) {
        return Some(unsupported_response(502, BODY_GRPC, UNSUPPORTED_GRPC));
    }
    if endpoints == 0 {
        return Some(static_response(503, BODY_NO_ENDPOINT));
    }
    None
}

// ---------------------------------------------------------------------------
// The endpoints, one after another
// ---------------------------------------------------------------------------

/// How many endpoints a request may go to: only a body that can be made again
/// goes to more than one.
pub open spec fn allowed(retryable: bool, endpoints: nat, max: nat) -> nat {
    if !retryable {
        1
    } else if endpoints < max {
        endpoints
    } else {
        max
    }
}

/// The response to a request whose last attempt failed.
pub open spec fn failure_reply(error: UpstreamError) -> Reply {
    match error {
        UpstreamError::Timeout => plain(504, BODY_TIMEOUT),
        UpstreamError::Connect(_) => plain(502, BODY_CONNECT_FAILED),
        UpstreamError::Transport(_) => plain(502, BODY_UPSTREAM_FAILED),
    }
}

/// The counters after a failed attempt.
pub open spec fn counted(m: Metrics, error: UpstreamError, retried: bool) -> Metrics {
    let m = match error {
        UpstreamError::Connect(_) => Metrics {
            upstream_connect_failures: metrics::bumped(m.upstream_connect_failures),
            ..m
        },
        UpstreamError::Timeout => Metrics {
            upstream_timeouts: metrics::bumped(m.upstream_timeouts),
            ..m
        },
        UpstreamError::Transport(_) => m,
    };
    if retried {
        Metrics { upstream_retries: metrics::bumped(m.upstream_retries), ..m }
    } else {
        m
    }
}

/// A request going to the endpoints of its backend in turn.
#[derive(Debug)]
pub struct Attempts {
    first: usize,
    endpoints: usize,
    attempts: usize,
    attempt: usize,
}

/// Attempts without their storage.
pub struct AttemptsView {
    /// The endpoint the load balancer chose.
    pub first: nat,
    /// How many endpoints the backend has.
    pub endpoints: nat,
    /// How many of them may be tried.
    pub attempts: nat,
    /// How many failed so far.
    pub attempt: nat,
}

impl AttemptsView {
    /// The endpoint of the `k`th attempt.
    pub open spec fn endpoint(self, k: nat) -> nat {
        (self.first + k) % self.endpoints
    }

    /// There is an endpoint for every attempt.
    pub open spec fn wf(self) -> bool {
        &&& self.first < self.endpoints
        &&& self.attempt < self.attempts <= self.endpoints
    }

    /// Is there an attempt after a failed one?
    pub open spec fn goes_on(self, error: UpstreamError) -> bool {
        error is Connect && self.attempt + 1 < self.attempts
    }
}

impl View for Attempts {
    type V = AttemptsView;

    closed spec fn view(&self) -> AttemptsView {
        AttemptsView {
            first: self.first as nat,
            endpoints: self.endpoints as nat,
            attempts: self.attempts as nat,
            attempt: self.attempt as nat,
        }
    }
}

impl Attempts {
    /// The attempts of a request. `retryable` says that its body is known to be
    /// empty, `max` how many endpoints may be tried at most, and `first` which
    /// one the load balancer chose.
    pub fn plan(retryable: bool, endpoints: usize, max: usize, first: usize) -> (r: Attempts)
        requires
            first < endpoints,
            max >= 1,
        ensures
            r@ == (AttemptsView {
                first: first as nat,
                endpoints: endpoints as nat,
                attempts: allowed(retryable, endpoints as nat, max as nat),
                attempt: 0,
            }),
            r@.wf(),
    {
        let attempts: usize = if !retryable {
            1
        } else if endpoints < max {
            endpoints
        } else {
            max
        };
        Attempts { first, endpoints, attempts, attempt: 0 }
    }

    /// The endpoint to try now.
    pub fn endpoint(&self) -> (r: usize)
        requires
            self@.wf(),
        ensures
            r == self@.endpoint(self@.attempt),
            r < self@.endpoints,
    {
        let left: usize = self.endpoints - self.first;
        if self.attempt < left {
            proof {
                vstd::arithmetic::div_mod::lemma_small_mod(
                    (self.first + self.attempt) as nat,
                    self.endpoints as nat,
                );
            }
            self.first + self.attempt
        } else {
            proof {
                let sum = self.first + self.attempt;
                vstd::arithmetic::div_mod::lemma_mod_sub_multiples_vanish(
                    sum,
                    self.endpoints as int,
                );
                vstd::arithmetic::div_mod::lemma_small_mod(
                    (sum - self.endpoints) as nat,
                    self.endpoints as nat,
                );
            }
            self.attempt - left
        }
    }

    /// Whether the attempt being made is the last one there is.
    pub fn is_last(&self) -> (r: bool)
        requires
            self@.wf(),
        ensures
            r == (self@.attempt + 1 == self@.attempts),
    {
        self.attempt + 1 == self.attempts
    }

    /// Takes in a failed attempt and counts it. `None` means that the next
    /// endpoint is to be tried; otherwise this is the response.
    pub fn failed(&mut self, error: &UpstreamError, metrics: &mut Metrics) -> (r: Option<Reply>)
        requires
            old(self)@.wf(),
        ensures
            *final(metrics) == counted(*old(metrics), *error, old(self)@.goes_on(*error)),
            if old(self)@.goes_on(*error) {
                &&& r is None
                &&& final(self)@ == (AttemptsView {
                    attempt: old(self)@.attempt + 1,
                    ..old(self)@
                })
                &&& final(self)@.wf()
            } else {
                r == Some(failure_reply(*error))
            },
    {
        match error {
            UpstreamError::Connect(_) => {
                metrics.record_connect_failure();
            },
            UpstreamError::Timeout => {
                metrics.record_upstream_timeout();
            },
            UpstreamError::Transport(_) => {},
        }
        if error.is_retryable() && self.attempt + 1 < self.attempts {
            metrics.record_retry();
            self.attempt = self.attempt + 1;
            return None;
        }
        Some(
            match error {
                UpstreamError::Timeout => static_response(504, BODY_TIMEOUT),
                UpstreamError::Connect(_) => static_response(502, BODY_CONNECT_FAILED),
                UpstreamError::Transport(_) => static_response(502, BODY_UPSTREAM_FAILED),
            },
        )
    }
}

/// Where an attempt is sent: the endpoint's address with the path and query of
/// the request, or the response when that makes no URI.
pub fn target(endpoint: SocketAddr, path_and_query: Option<&str>) -> (r: Result<Uri, Reply>)
    ensures
        r == match upstream::uri(
            upstream::endpoint_text(endpoint@, option_str(path_and_query)),
        ) {
            Some(uri) => Ok(uri),
            None => Err(plain(502, BODY_BAD_TARGET)),
        },
{
    match endpoint_uri(endpoint, path_and_query) {
        Some(uri) => Ok(uri),
        None => Err(static_response(502, BODY_BAD_TARGET)),
    }
}

/// Every attempt goes to an endpoint of its own: no endpoint is asked twice.
pub proof fn no_endpoint_is_asked_twice(view: AttemptsView, j: nat, k: nat)
    requires
        view.wf(),
        j < k < view.attempts,
    ensures
        view.endpoint(j) < view.endpoints,
        view.endpoint(j) != view.endpoint(k),
{
    let n = view.endpoints as int;
    let a = (view.first + j) as int;
    let b = (view.first + k) as int;
    vstd::arithmetic::div_mod::lemma_fundamental_div_mod(a, n);
    vstd::arithmetic::div_mod::lemma_fundamental_div_mod(b, n);
    if a % n == b % n {
        assert(n * (b / n) - n * (a / n) == b - a);
        assert(n * (b / n - a / n) == b - a) by (nonlinear_arith)
            requires
                n * (b / n) - n * (a / n) == b - a,
        ;
        assert(false) by (nonlinear_arith)
            requires
                n * (b / n - a / n) == b - a,
                0 < b - a < n,
        ;
    }
    vstd::arithmetic::div_mod::lemma_mod_bound(a, n);
}

/// A request that may have had its effect is not sent again: after anything but a
/// failure to connect, and after anything at all when its body cannot be made
/// again, there is no further attempt.
pub proof fn nothing_is_sent_twice(view: AttemptsView, error: UpstreamError, retryable: bool, max: nat)
    requires
        view.wf(),
        view.attempts == allowed(retryable, view.endpoints, max),
    ensures
        !(error is Connect) ==> !view.goes_on(error),
        !retryable ==> !view.goes_on(error),
        view.attempts <= max || !retryable,
{
}

// ---------------------------------------------------------------------------
// The response on its way back
// ---------------------------------------------------------------------------

/// What becomes of an upstream response.
#[derive(Debug, Clone, Copy)]
pub enum Relayed {
    /// It goes to the client.
    Pass,
    /// It goes to the client, and from then on bytes are copied both ways.
    Tunnel,
    /// This goes to the client instead.
    Refuse(Reply),
}

/// The protocol a response switches to: what it says itself, and what the client
/// asked for when it does not say.
pub open spec fn switched_to(status: u16, f: Fields, requested: Option<Seq<u8>>) -> Option<Seq<u8>> {
    if status != 101 {
        None
    } else {
        match headers::upgrade_value(f) {
            Some(protocol) => Some(protocol),
            None => requested,
        }
    }
}

/// Is this what becomes of an upstream response? `both` says that both halves of
/// an upgrade can be taken over.
pub open spec fn relayed(
    status: u16,
    f: Fields,
    both: bool,
    requested: Option<Seq<u8>>,
    r: Relayed,
    after: Fields,
) -> bool {
    let protocol = switched_to(status, f, requested);
    if status != 101 {
        &&& r is Pass
        &&& after == headers::end_to_end(f)
    } else if both && protocol is Some {
        &&& r is Tunnel
        &&& after == headers::with_upgrade(headers::end_to_end(f), protocol->0)
    } else {
        r == Relayed::Refuse(plain(502, BODY_UPGRADE_FAILED))
    }
}

/// Turns an upstream response into a downstream one.
///
/// A 101 only means something if both halves can be taken over. If either is
/// missing, the client would think it had a tunnel with nothing on the other end.
pub fn relay(
    status: u16,
    headers: &mut HeaderMap,
    downstream: bool,
    upstream: bool,
    requested: Option<HeaderValue>,
) -> (r: Relayed)
    requires
        header_map::has_room(*old(headers), 2),
    ensures
        relayed(
            status,
            header_map::fields(*old(headers)),
            downstream && upstream,
            header_map::option_bytes(requested),
            r,
            header_map::fields(*final(headers)),
        ),
{
    let ghost f = header_map::fields(*headers);
    let switching = status == 101;
    let protocol = if switching {
        match headers::upgrade_protocol(headers) {
            Some(protocol) => Some(protocol),
            None => requested,
        }
    } else {
        None
    };
    headers::strip_hop_by_hop(headers);
    proof {
        lemma_fewer_names(f, header_map::fields(*headers));
    }
    if !switching {
        return Relayed::Pass;
    }
    match protocol {
        Some(protocol) => {
            if downstream && upstream {
                headers::restore_upgrade(headers, &protocol);
                return Relayed::Tunnel;
            }
        },
        None => {},
    }
    Relayed::Refuse(static_response(502, BODY_UPGRADE_FAILED))
}

// ---------------------------------------------------------------------------
// One request, from its headers to its response
// ---------------------------------------------------------------------------

/// Takes a request whose backend is known: turns it away, or rewrites its headers
/// for the hop. Returns the upgrade the client asked for.
pub fn take(
    headers: &mut HeaderMap,
    conn: ConnInfo,
    host: Option<HeaderValue>,
    protocol: BackendProtocol,
    endpoints: usize,
    rng: &mut Rng,
) -> (r: Result<Option<HeaderValue>, Reply>)
    requires
        header_map::has_room(*old(headers), 8),
        old(rng).wf(),
    ensures
        final(rng).wf(),
        match refusal(protocol, header_map::fields(*old(headers)), endpoints as nat) {
            Some(reply) => {
                &&& r == Err::<Option<HeaderValue>, Reply>(reply)
                &&& header_map::fields(*final(headers)) == header_map::fields(*old(headers))
                &&& final(rng).state() == old(rng).state()
            },
            None => {
                &&& r matches Ok(upgrade)
                &&& header_map::option_bytes(upgrade) == headers::upgrade_value(
                    header_map::fields(*old(headers)),
                )
                &&& header_map::fields(*final(headers)) == outgoing(
                    header_map::fields(*old(headers)),
                    conn.remote@.ip,
                    conn.scheme,
                    header_map::option_bytes(host),
                    protocol,
                    old(rng).state(),
                )
                &&& final(rng).state() == drawn(
                    header_map::fields(*old(headers)),
                    old(rng).state(),
                )
            },
        },
{
    match turn_away(protocol, headers, endpoints) {
        Some(reply) => Err(reply),
        None => Ok(prepare(headers, conn, host, protocol, rng)),
    }
}

/// A request on its way to the endpoints of its backend.
#[derive(Debug)]
pub struct Dispatch {
    endpoints: Vec<SocketAddr>,
    path_and_query: Option<String>,
    upgrade: Option<HeaderValue>,
    attempts: Attempts,
}

/// A request on its way, without its storage.
pub struct DispatchView {
    /// The endpoints of the backend.
    pub endpoints: Seq<net::SocketView>,
    /// What the client asked for.
    pub path_and_query: Option<Seq<char>>,
    /// The protocol the client wants to switch to.
    pub upgrade: Option<Seq<u8>>,
    /// Which endpoint is being tried.
    pub attempts: AttemptsView,
}

/// Addresses without their storage.
pub open spec fn addresses(list: Seq<SocketAddr>) -> Seq<net::SocketView> {
    list.map_values(|a: SocketAddr| a@)
}

impl View for Dispatch {
    type V = DispatchView;

    closed spec fn view(&self) -> DispatchView {
        DispatchView {
            endpoints: addresses(self.endpoints@),
            path_and_query: headers::option_text(self.path_and_query),
            upgrade: header_map::option_bytes(self.upgrade),
            attempts: self.attempts@,
        }
    }
}

impl DispatchView {
    /// There is an endpoint for every attempt.
    pub open spec fn wf(self) -> bool {
        self.attempts.wf() && self.attempts.endpoints == self.endpoints.len()
    }

    /// Where the attempt being made is sent, if that spells a URI.
    pub open spec fn aim(self) -> Option<http::Uri> {
        upstream::uri(
            upstream::endpoint_text(
                self.endpoints[self.attempts.endpoint(self.attempts.attempt) as int],
                self.path_and_query,
            ),
        )
    }
}

/// One attempt.
#[derive(Debug)]
pub struct Sending {
    /// Which endpoint it goes to.
    pub endpoint: usize,
    /// Its address, with the path and query of the request.
    pub uri: Uri,
    /// Whether it is the last there is, so that the headers need not be kept.
    pub last: bool,
}

impl Dispatch {
    /// A request with its headers rewritten. `retryable` says that its body is
    /// known to be empty, `max` how many endpoints may be tried at most, and
    /// `chosen` which one the load balancer picked, if it picked one.
    pub fn new(
        endpoints: Vec<SocketAddr>,
        path_and_query: Option<String>,
        upgrade: Option<HeaderValue>,
        retryable: bool,
        max: usize,
        chosen: Option<usize>,
    ) -> (r: Result<Dispatch, Reply>)
        requires
            max >= 1,
        ensures
            match chosen {
                None => r == Err::<Dispatch, Reply>(plain(503, BODY_NO_ENDPOINT)),
                Some(first) => if first >= endpoints@.len() {
                    r == Err::<Dispatch, Reply>(plain(502, BODY_CONNECT_FAILED))
                } else {
                    &&& r matches Ok(dispatch)
                    &&& dispatch@ == (DispatchView {
                        endpoints: addresses(endpoints@),
                        path_and_query: headers::option_text(path_and_query),
                        upgrade: header_map::option_bytes(upgrade),
                        attempts: AttemptsView {
                            first: first as nat,
                            endpoints: endpoints@.len(),
                            attempts: allowed(retryable, endpoints@.len(), max as nat),
                            attempt: 0,
                        },
                    })
                    &&& dispatch@.wf()
                },
            },
    {
        let first: usize = match chosen {
            Some(first) => first,
            None => {
                return Err(static_response(503, BODY_NO_ENDPOINT));
            },
        };
        if first >= endpoints.len() {
            return Err(static_response(502, BODY_CONNECT_FAILED));
        }
        let attempts = Attempts::plan(retryable, endpoints.len(), max, first);
        Ok(Dispatch { endpoints, path_and_query, upgrade, attempts })
    }

    /// The attempt to make now, or the response where the endpoint's address and
    /// the path make no URI.
    pub fn aim(&self) -> (r: Result<Sending, Reply>)
        requires
            self@.wf(),
        ensures
            match self@.aim() {
                Some(uri) => r == Ok::<Sending, Reply>(
                    Sending {
                        endpoint: self@.attempts.endpoint(self@.attempts.attempt) as usize,
                        uri,
                        last: self@.attempts.attempt + 1 == self@.attempts.attempts,
                    },
                ),
                None => r == Err::<Sending, Reply>(plain(502, BODY_BAD_TARGET)),
            },
    {
        let endpoint: usize = self.attempts.endpoint();
        let path = match &self.path_and_query {
            Some(path) => Some(path.as_str()),
            None => None,
        };
        assert(self@.endpoints[endpoint as int] == self.endpoints@[endpoint as int]@);
        match target(self.endpoints[endpoint], path) {
            Ok(uri) => Ok(Sending { endpoint, uri, last: self.attempts.is_last() }),
            Err(reply) => Err(reply),
        }
    }

    /// Takes in a failed attempt and counts it. `None` means that the next
    /// endpoint is to be tried; otherwise this is the response.
    pub fn failed(&mut self, error: &UpstreamError, metrics: &mut Metrics) -> (r: Option<Reply>)
        requires
            old(self)@.wf(),
        ensures
            *final(metrics) == counted(*old(metrics), *error, old(self)@.attempts.goes_on(*error)),
            if old(self)@.attempts.goes_on(*error) {
                &&& r is None
                &&& final(self)@ == (DispatchView {
                    attempts: AttemptsView {
                        attempt: old(self)@.attempts.attempt + 1,
                        ..old(self)@.attempts
                    },
                    ..old(self)@
                })
                &&& final(self)@.wf()
            } else {
                r == Some(failure_reply(*error))
            },
    {
        self.attempts.failed(error, metrics)
    }

    /// Takes in the head of the upstream's response, counts how long it took and
    /// turns it into the client's. `downstream` and `upstream` say which halves
    /// of an upgrade can be taken over.
    pub fn answered(
        &self,
        status: u16,
        headers: &mut HeaderMap,
        downstream: bool,
        upstream: bool,
        elapsed: Duration,
        metrics: &mut Metrics,
    ) -> (r: Relayed)
        requires
            header_map::has_room(*old(headers), 2),
        ensures
            metrics::observed(
                old(metrics).upstream_latency,
                elapsed@,
                final(metrics).upstream_latency,
            ),
            *final(metrics) == (Metrics {
                upstream_latency: final(metrics).upstream_latency,
                ..*old(metrics)
            }),
            relayed(
                status,
                header_map::fields(*old(headers)),
                downstream && upstream,
                self@.upgrade,
                r,
                header_map::fields(*final(headers)),
            ),
    {
        answered(metrics, elapsed);
        let requested = match &self.upgrade {
            Some(protocol) => Some(protocol.clone()),
            None => None,
        };
        relay(status, headers, downstream, upstream, requested)
    }
}

/// However its attempts go, a request that is let through goes to endpoints of
/// its backend, each at most once, and to one alone unless its body can be made
/// again.
pub proof fn a_request_stays_with_its_backend(
    endpoints: Seq<net::SocketView>,
    retryable: bool,
    max: nat,
    first: nat,
    i: nat,
    j: nat,
)
    requires
        first < endpoints.len(),
        max >= 1,
        i < j < allowed(retryable, endpoints.len(), max),
    ensures
        ({
            let attempts = AttemptsView {
                first,
                endpoints: endpoints.len(),
                attempts: allowed(retryable, endpoints.len(), max),
                attempt: 0,
            };
            &&& retryable
            &&& attempts.endpoint(i) < endpoints.len()
            &&& attempts.endpoint(j) < endpoints.len()
            &&& attempts.endpoint(i) != attempts.endpoint(j)
        }),
{
    let attempts = AttemptsView {
        first,
        endpoints: endpoints.len(),
        attempts: allowed(retryable, endpoints.len(), max),
        attempt: 0,
    };
    no_endpoint_is_asked_twice(attempts, i, j);
}

// ---------------------------------------------------------------------------
// The mirror
// ---------------------------------------------------------------------------

/// Whether a sampled request is copied: the rule sampled it, this runtime has a
/// mirror, and the mirror's backend is in the table with endpoints. A backend
/// without endpoints is counted as a failure, so that it can be told from a
/// mirror that never took effect.
pub fn mirror_target(
    sampled: bool,
    wired: bool,
    endpoints: Option<usize>,
    metrics: &mut Metrics,
) -> (r: bool)
    ensures
        r == (sampled && wired && endpoints is Some && endpoints->0 > 0),
        *final(metrics) == if sampled && wired && endpoints == Some(0usize) {
            Metrics {
                mirror_failures: metrics::bumped(old(metrics).mirror_failures),
                ..*old(metrics)
            }
        } else {
            *old(metrics)
        },
{
    if !sampled || !wired {
        return false;
    }
    match endpoints {
        None => false,
        Some(n) => if n == 0 {
            metrics.record_mirror_failure();
            false
        } else {
            true
        },
    }
}

/// The fields of a copy, from those of the request that was prepared for the
/// primary.
///
/// `host` overrides `Host` on the copy. A shadow that is dialled over HTTP/2 has
/// its authority from the request target, so there the name goes where it can
/// still be read.
pub open spec fn copied(f: Fields, host: Option<Seq<char>>, protocol: BackendProtocol) -> Fields {
    let marked = f.insert(MIRRORED_BY@, seq![header_map::ascii_bytes(MIRRORED_BY_VALUE@)]);
    let named = match host {
        Some(host) => if header_map::is_value(vstd::utf8::encode_utf8(host)) {
            marked.insert("host"@, seq![vstd::utf8::encode_utf8(host)])
        } else {
            marked
        },
        None => marked,
    };
    match protocol {
        BackendProtocol::Http1 => named,
        BackendProtocol::H2c => match header_map::first_value(named, "host"@) {
            Some(value) => named.remove("host"@).insert(X_FORWARDED_HOST@, seq![value]),
            None => named.remove("host"@),
        },
    }
}

/// Rewrites the headers of a copy for the mirror's backend.
pub fn copy_headers(headers: &mut HeaderMap, host: Option<&str>, protocol: BackendProtocol)
    requires
        header_map::has_room(*old(headers), 3),
    ensures
        header_map::fields(*final(headers)) == copied(
            header_map::fields(*old(headers)),
            option_str(host),
            protocol,
        ),
{
    let ghost f = header_map::fields(*headers);
    proof {
        lemma_names();
        lemma_one_more_name(f, MIRRORED_BY@, seq![header_map::ascii_bytes(MIRRORED_BY_VALUE@)]);
    }
    header_map::insert(headers, MIRRORED_BY, HeaderValue::from_static(MIRRORED_BY_VALUE));
    let ghost marked = header_map::fields(*headers);
    if let Some(name) = host {
        if let Ok(value) = HeaderValue::from_str(name) {
            proof {
                lemma_one_more_name(marked, "host"@, seq![header_map::value_bytes(value)]);
            }
            header_map::insert(headers, "host", value);
        }
    }
    let ghost named = header_map::fields(*headers);
    if matches!(protocol, BackendProtocol::H2c) {
        let taken = header_map::remove(headers, "host");
        proof {
            lemma_fewer_names(named, named.remove("host"@));
        }
        if let Some(value) = taken {
            header_map::insert(headers, X_FORWARDED_HOST, value);
        }
    }
}

/// Where a copy to an endpoint goes.
pub open spec fn copy_uri(
    endpoint: Option<SocketAddr>,
    path_and_query: Option<Seq<char>>,
) -> Option<http::Uri> {
    match endpoint {
        Some(endpoint) => upstream::uri(upstream::endpoint_text(endpoint@, path_and_query)),
        None => None,
    }
}

/// Where a copy is sent, when there is somewhere: a missing endpoint, or one that
/// makes no URI, is counted as a failure and nothing else happens.
pub fn copy_target(
    endpoint: Option<SocketAddr>,
    path_and_query: Option<&str>,
    metrics: &mut Metrics,
) -> (r: Option<Uri>)
    ensures
        r == copy_uri(endpoint, option_str(path_and_query)),
        *final(metrics) == if r is None {
            Metrics {
                mirror_failures: metrics::bumped(old(metrics).mirror_failures),
                ..*old(metrics)
            }
        } else {
            *old(metrics)
        },
{
    let uri = match endpoint {
        Some(endpoint) => endpoint_uri(endpoint, path_and_query),
        None => None,
    };
    if uri.is_none() {
        metrics.record_mirror_failure();
    }
    uri
}

/// A copy, ready to be queued.
#[derive(Debug)]
pub struct Duplicate {
    pub uri: Uri,
    pub version: Version,
}

/// Makes a copy of a request that was prepared for the primary: its target, its
/// version and, in the place of the headers it is given, its headers. `None`
/// means that there is nowhere to send it, which is counted.
pub fn duplicate(
    headers: &mut HeaderMap,
    endpoint: Option<SocketAddr>,
    path_and_query: Option<&str>,
    host: Option<&str>,
    protocol: BackendProtocol,
    metrics: &mut Metrics,
) -> (r: Option<Duplicate>)
    requires
        header_map::has_room(*old(headers), 3),
    ensures
        match copy_uri(endpoint, option_str(path_and_query)) {
            Some(uri) => {
                &&& r == Some(Duplicate { uri, version: version_of(protocol) })
                &&& header_map::fields(*final(headers)) == copied(
                    header_map::fields(*old(headers)),
                    option_str(host),
                    protocol,
                )
                &&& *final(metrics) == *old(metrics)
            },
            None => {
                &&& r is None
                &&& header_map::fields(*final(headers)) == header_map::fields(*old(headers))
                &&& *final(metrics) == (Metrics {
                    mirror_failures: metrics::bumped(old(metrics).mirror_failures),
                    ..*old(metrics)
                })
            },
        },
{
    match copy_target(endpoint, path_and_query, metrics) {
        Some(uri) => {
            copy_headers(headers, host, protocol);
            Some(Duplicate { uri, version: version(protocol) })
        },
        None => None,
    }
}

/// A request body after it was read for a copy.
#[derive(Debug)]
pub struct Shared<S, F, E> {
    /// What the primary sends, in front of the rest of the stream.
    pub primary: ProxyBody<S, E>,
    /// What was read after those bytes and is no data. It goes between the two.
    pub next: Option<Piece<F, E>>,
    /// The body of the copy, or `None` for no copy.
    pub copy: Option<Bytes>,
}

/// Divides what was read of a body between the primary and the copy. A body that
/// fit is what both send; of one that did not, the primary gets every byte back
/// in front of the rest, and no copy is made.
pub fn share<S, F, E>(
    buffered: Buffered<F, E>,
    rest: ProxyBody<S, E>,
    metrics: &mut Metrics,
) -> (r: Shared<S, F, E>)
    requires
        rest.wf(),
    ensures
        r.primary.wf(),
        match buffered {
            Buffered::Complete(bytes) => {
                &&& r.primary.head() == buffers::content(bytes)
                &&& r.primary is Empty || r.primary is Once
                &&& r.next is None
                &&& r.copy == Some(bytes)
                &&& *final(metrics) == *old(metrics)
            },
            Buffered::TooLarge { prefix, next } => {
                &&& r.primary.head() == buffers::content(prefix) + rest.head()
                &&& r.primary.source() == rest.source()
                &&& r.primary.request() == rest.request()
                &&& r.next == next
                &&& r.copy is None
                &&& *final(metrics) == (Metrics {
                    mirror_skipped: metrics::bumped(old(metrics).mirror_skipped),
                    ..*old(metrics)
                })
            },
        },
{
    match buffered {
        Buffered::Complete(bytes) => Shared {
            primary: ProxyBody::once(bytes.clone()),
            next: None,
            copy: Some(bytes),
        },
        Buffered::TooLarge { prefix, next } => {
            metrics.record_mirror_skipped();
            Shared { primary: ProxyBody::prefixed(prefix, rest), next, copy: None }
        },
    }
}

/// The version a request or a copy goes out with: that of the backend it goes to,
/// whatever the client spoke.
pub fn version(protocol: BackendProtocol) -> (r: Version)
    ensures
        r == version_of(protocol),
{
    match protocol {
        BackendProtocol::Http1 => Version::Http11,
        BackendProtocol::H2c => Version::Http2,
    }
}

/// Counts an exchange whose response headers arrived.
pub fn answered(metrics: &mut Metrics, elapsed: Duration)
    ensures
        metrics::observed(old(metrics).upstream_latency, elapsed@, final(metrics).upstream_latency),
        *final(metrics) == (Metrics {
            upstream_latency: final(metrics).upstream_latency,
            ..*old(metrics)
        }),
{
    metrics.record_upstream_latency(elapsed);
}

// ---------------------------------------------------------------------------
// Laws
// ---------------------------------------------------------------------------

proof fn lemma_copy_names_differ()
    ensures
        "host"@ != "x-forwarded-host"@,
        "host"@ != "x-mirrored-by"@,
        "x-forwarded-host"@ != "x-mirrored-by"@,
{
    reveal_strlit("host");
    reveal_strlit("x-forwarded-host");
    reveal_strlit("x-mirrored-by");
    assert("host"@.len() == 4 && "x-forwarded-host"@.len() == 16 && "x-mirrored-by"@.len() == 13);
}

/// A copy whose mirror names a host names that host and no other: as its `host` over
/// HTTP/1.1, and over HTTP/2, where the target is the authority, as its
/// `x-forwarded-host`.
pub proof fn a_copy_names_the_mirrors_host(f: Fields, host: Seq<char>)
    requires
        header_map::is_value(vstd::utf8::encode_utf8(host)),
    ensures
        ({
            let bytes = vstd::utf8::encode_utf8(host);
            let plain = copied(f, Some(host), BackendProtocol::Http1);
            let multiplexed = copied(f, Some(host), BackendProtocol::H2c);
            &&& plain.contains_key("host"@) && plain["host"@] == seq![bytes]
            &&& multiplexed.contains_key("x-forwarded-host"@) && multiplexed["x-forwarded-host"@]
                == seq![bytes]
            &&& !multiplexed.contains_key("host"@)
        }),
{
    lemma_copy_names_differ();
}

/// Without a host of the mirror's, or with one that no field can hold, the copy keeps
/// the request's own: in its `host` over HTTP/1.1, and over HTTP/2 the first of them in
/// its `x-forwarded-host`.
pub proof fn a_copy_keeps_the_requests_host(f: Fields, host: Option<Seq<char>>)
    requires
        host matches Some(name) ==> !header_map::is_value(vstd::utf8::encode_utf8(name)),
    ensures
        ({
            let plain = copied(f, host, BackendProtocol::Http1);
            let multiplexed = copied(f, host, BackendProtocol::H2c);
            &&& plain.contains_key("host"@) == f.contains_key("host"@)
            &&& f.contains_key("host"@) ==> plain["host"@] == f["host"@]
            &&& !multiplexed.contains_key("host"@)
            &&& f.contains_key("host"@) && f["host"@].len() > 0 ==> multiplexed["x-forwarded-host"@]
                == seq![f["host"@][0]]
            &&& !f.contains_key("host"@) && f.contains_key("x-forwarded-host"@)
                ==> multiplexed["x-forwarded-host"@] == f["x-forwarded-host"@]
        }),
{
    lemma_copy_names_differ();
}

/// Every copy is marked as one, and every field but the mark and the two that name a
/// host is the request's.
pub proof fn a_copy_differs_in_three_fields(
    f: Fields,
    host: Option<Seq<char>>,
    protocol: BackendProtocol,
    name: Seq<char>,
)
    ensures
        ({
            let out = copied(f, host, protocol);
            &&& out.contains_key("x-mirrored-by"@)
            &&& out["x-mirrored-by"@] == seq![header_map::ascii_bytes("ramjet-ingress"@)]
            &&& name != "host"@ && name != "x-forwarded-host"@ && name != "x-mirrored-by"@ ==> {
                &&& out.contains_key(name) == f.contains_key(name)
                &&& f.contains_key(name) ==> out[name] == f[name]
            }
            &&& protocol == BackendProtocol::Http1 ==> {
                &&& out.contains_key("x-forwarded-host"@) == f.contains_key("x-forwarded-host"@)
                &&& f.contains_key("x-forwarded-host"@) ==> out["x-forwarded-host"@]
                    == f["x-forwarded-host"@]
            }
        }),
{
    lemma_copy_names_differ();
}

proof fn lemma_hop_names_differ()
    ensures
        forall|name: Seq<char>|
            #![trigger headers::is_hop_by_hop(name)]
            headers::is_hop_by_hop(name) ==> name != "host"@ && name != "x-forwarded-for"@ && name
                != "x-forwarded-proto"@ && name != "x-forwarded-host"@ && name != "x-real-ip"@
                && name != "x-request-id"@ && name != "connection"@,
{
    reveal_strlit("keep-alive");
    reveal_strlit("proxy-connection");
    reveal_strlit("proxy-authenticate");
    reveal_strlit("proxy-authorization");
    reveal_strlit("te");
    reveal_strlit("trailer");
    reveal_strlit("transfer-encoding");
    reveal_strlit("upgrade");
    reveal_strlit("host");
    reveal_strlit("connection");
    reveal_strlit("x-forwarded-for");
    reveal_strlit("x-forwarded-proto");
    reveal_strlit("x-forwarded-host");
    reveal_strlit("x-real-ip");
    reveal_strlit("x-request-id");
    assert("connection"@.len() == 10 && "keep-alive"@.len() == 10);
    assert("connection"@[0] == 'c' && "keep-alive"@[0] == 'k');
    assert("proxy-connection"@.len() == 16 && "proxy-connection"@[0] == 'p');
    assert("proxy-authenticate"@.len() == 18 && "proxy-authorization"@.len() == 19);
    assert("te"@.len() == 2 && "trailer"@.len() == 7 && "upgrade"@.len() == 7);
    assert("transfer-encoding"@.len() == 17 && "transfer-encoding"@[0] == 't');
    assert("host"@.len() == 4 && "x-forwarded-for"@.len() == 15);
    assert("x-forwarded-proto"@.len() == 17 && "x-forwarded-proto"@[0] == 'x');
    assert("x-forwarded-host"@.len() == 16 && "x-forwarded-host"@[0] == 'x');
    assert("x-real-ip"@.len() == 9 && "x-request-id"@.len() == 12);
}

/// No request takes along a field that describes the client's connection. An upgrade
/// over HTTP/1.1 is the one exception, and it is asked for anew: `connection` then says
/// `upgrade` and nothing else, and `upgrade` says what the client's did.
pub proof fn a_request_leaves_its_connection_behind(
    f: Fields,
    client: net::IpView,
    scheme: Scheme,
    host: Option<Seq<u8>>,
    protocol: BackendProtocol,
    state: u64,
)
    ensures
        ({
            let out = outgoing(f, client, scheme, host, protocol, state);
            &&& !out.contains_key("keep-alive"@)
            &&& !out.contains_key("proxy-connection"@)
            &&& !out.contains_key("proxy-authenticate"@)
            &&& !out.contains_key("proxy-authorization"@)
            &&& !out.contains_key("te"@)
            &&& !out.contains_key("trailer"@)
            &&& !out.contains_key("transfer-encoding"@)
            &&& protocol == BackendProtocol::H2c || headers::upgrade_value(f) is None ==> {
                &&& !out.contains_key("connection"@)
                &&& !out.contains_key("upgrade"@)
            }
            &&& protocol == BackendProtocol::Http1 && headers::upgrade_value(f) is Some ==> {
                &&& out.contains_key("connection"@) && out["connection"@] == seq![
                    seq![117u8, 112u8, 103u8, 114u8, 97u8, 100u8, 101u8],
                ]
                &&& out.contains_key("upgrade"@) && out["upgrade"@] == seq![f["upgrade"@][0]]
            }
        }),
{
    lemma_names_differ();
    lemma_hop_names_differ();
    headers::no_connection_field_crosses(f);
    headers::an_upgrade_takes_both_fields(f, 0, Seq::empty(), Seq::empty(), Seq::empty());
    if let Some(upgrade) = headers::upgrade_value(f) {
        headers::an_upgrade_is_put_back_in_two_fields(f, upgrade, "host"@);
    }
    assert(headers::is_hop_by_hop("keep-alive"@));
    assert(headers::is_hop_by_hop("proxy-connection"@));
    assert(headers::is_hop_by_hop("proxy-authenticate"@));
    assert(headers::is_hop_by_hop("proxy-authorization"@));
    assert(headers::is_hop_by_hop("te"@));
    assert(headers::is_hop_by_hop("trailer"@));
    assert(headers::is_hop_by_hop("transfer-encoding"@));
    assert(headers::is_hop_by_hop("upgrade"@));
    reveal_strlit("keep-alive");
    reveal_strlit("proxy-connection");
    reveal_strlit("proxy-authenticate");
    reveal_strlit("proxy-authorization");
    reveal_strlit("te");
    reveal_strlit("trailer");
    reveal_strlit("transfer-encoding");
    reveal_strlit("upgrade");
    assert("keep-alive"@.len() == 10 && "upgrade"@.len() == 7 && "trailer"@.len() == 7);
    assert("trailer"@[0] == 't' && "upgrade"@[0] == 'u');
    assert("proxy-connection"@.len() == 16 && "proxy-authenticate"@.len() == 18);
    assert("proxy-authorization"@.len() == 19 && "te"@.len() == 2);
    assert("transfer-encoding"@.len() == 17);
}

/// Every request says where it comes from: the client's address in `x-real-ip`, the
/// scheme of the listener in `x-forwarded-proto`, the host the client named in
/// `x-forwarded-host`, and an id in `x-request-id`, which is the client's where it sent
/// one that is not empty.
pub proof fn a_request_says_where_it_comes_from(
    f: Fields,
    client: net::IpView,
    scheme: Scheme,
    host: Option<Seq<u8>>,
    protocol: BackendProtocol,
    state: u64,
)
    ensures
        ({
            let out = outgoing(f, client, scheme, host, protocol, state);
            let across = headers::end_to_end(f);
            &&& out["x-real-ip"@] == seq![header_map::ascii_bytes(net::ip_text(client))]
            &&& scheme == Scheme::Https ==> out["x-forwarded-proto"@] == seq![
                header_map::ascii_bytes("https"@),
            ]
            &&& scheme == Scheme::Http ==> out["x-forwarded-proto"@] == seq![
                header_map::ascii_bytes("http"@),
            ]
            &&& host matches Some(name) ==> out["x-forwarded-host"@] == seq![name]
            &&& out.contains_key("x-request-id"@)
            &&& across.contains_key("x-request-id"@) && across["x-request-id"@].len() > 0
                && across["x-request-id"@][0].len() > 0 ==> out["x-request-id"@]
                == f["x-request-id"@] && drawn(f, state) == state
            &&& !across.contains_key("x-request-id"@) ==> out["x-request-id"@] == seq![
                headers::fresh_id(state),
            ] && drawn(f, state) == rng::step(rng::step(state))
            &&& !across.contains_key("x-forwarded-for"@) ==> out["x-forwarded-for"@]
                == out["x-real-ip"@]
        }),
{
    lemma_names_differ();
    headers::each_forwarding_field_says_its_own(
        headers::end_to_end(f),
        client,
        scheme_text(scheme),
        host,
        Seq::empty(),
    );
    reveal_strlit("x-forwarded-for");
    reveal_strlit("x-real-ip");
    assert("x-forwarded-for"@.len() == 15 && "x-real-ip"@.len() == 9);
    reveal_strlit("x-forwarded-proto");
    reveal_strlit("x-forwarded-host");
    reveal_strlit("x-request-id");
    assert("x-forwarded-proto"@.len() == 17 && "x-forwarded-host"@.len() == 16);
    assert("x-request-id"@.len() == 12);
}

/// What a request carries besides crosses as it is: every field that is not one of the
/// forwarding fields, the id, the host, or the two of an upgrade.
pub proof fn the_rest_of_a_request_is_the_clients(
    f: Fields,
    client: net::IpView,
    scheme: Scheme,
    host: Option<Seq<u8>>,
    protocol: BackendProtocol,
    state: u64,
    name: Seq<char>,
)
    requires
        name != "x-forwarded-for"@,
        name != "x-forwarded-proto"@,
        name != "x-forwarded-host"@,
        name != "x-real-ip"@,
        name != "x-request-id"@,
        name != "host"@,
        name != "connection"@,
        name != "upgrade"@,
    ensures
        ({
            let out = outgoing(f, client, scheme, host, protocol, state);
            let across = headers::end_to_end(f);
            &&& out.contains_key(name) == across.contains_key(name)
            &&& across.contains_key(name) ==> out[name] == f[name]
        }),
{
}

/// Whom the client addressed: the authority of the target where there is one, whatever
/// `Host` says, and else the first `Host`.
pub proof fn the_target_beats_the_host_field(authority: Seq<char>, f: Fields)
    ensures
        authority_value(Some(authority), f) == authority,
        !f.contains_key("host"@) ==> authority_value(None, f) == Seq::<char>::empty() && host_value(
            None,
            f,
        ) is None,
        f.contains_key("host"@) && f["host"@].len() > 0 ==> {
            &&& host_value(None, f) == Some(f["host"@][0])
            &&& header_map::all_visible(f["host"@][0]) ==> authority_value(None, f)
                == header_map::chars_of(f["host"@][0])
            &&& !header_map::all_visible(f["host"@][0]) ==> authority_value(None, f) == Seq::<
                char,
            >::empty()
        },
        host_value(Some(authority), f) matches Some(bytes) ==> bytes == vstd::utf8::encode_utf8(
            authority,
        ),
        host_value(Some(authority), f) is Some <==> header_map::is_value(
            vstd::utf8::encode_utf8(authority),
        ),
{
}

/// A request is gRPC exactly when its first `content-type` begins with
/// `application/grpc`, whatever follows it.
pub proof fn grpc_goes_by_the_content_type(f: Fields, rest: Seq<u8>, i: int)
    ensures
        !f.contains_key("content-type"@) ==> !grpc(f),
        f.contains_key("content-type"@) && f["content-type"@].len() > 0 && f["content-type"@][0]
            == header_map::ascii_bytes("application/grpc"@) + rest && header_map::all_visible(rest)
            ==> grpc(f),
        grpc(f) && 0 <= i < 16 ==> f["content-type"@][0].len() >= 16 && f["content-type"@][0][i]
            == header_map::ascii_bytes("application/grpc"@)[i],
{
    reveal_strlit("application/grpc");
    let lead = "application/grpc"@;
    assert(lead.len() == 16);
    let bytes = header_map::ascii_bytes(lead);
    if f.contains_key("content-type"@) && f["content-type"@].len() > 0 && f["content-type"@][0]
        == bytes + rest && header_map::all_visible(rest) {
        let value = f["content-type"@][0];
        assert forall|j: int| 0 <= j < value.len() implies header_map::is_visible(
            #[trigger] value[j],
        ) by {
            if j < 16 {
                assert(value[j] == lead[j] as u8);
            } else {
                assert(value[j] == rest[j - 16]);
            }
        }
        assert(header_map::chars_of(value).take(16) =~= lead);
    }
    if grpc(f) && 0 <= i < 16 {
        let value = f["content-type"@][0];
        let chars = header_map::chars_of(value);
        assert(chars.take(16)[i] == lead[i]);
        assert(chars[i] == value[i] as char);
    }
}

/// A matched request is turned away exactly for two reasons: gRPC for a backend that is
/// dialled over HTTP/1.1, with a 502 that names what is missing, and a backend without
/// endpoints, with a 503.
pub proof fn a_request_is_turned_away_for_two_reasons(
    protocol: BackendProtocol,
    f: Fields,
    endpoints: nat,
)
    ensures
        refusal(protocol, f, endpoints) is None <==> endpoints > 0 && (protocol
            == BackendProtocol::H2c || !grpc(f)),
        protocol == BackendProtocol::Http1 && grpc(f) ==> {
            &&& refusal(protocol, f, endpoints)->Some_0.status == 502
            &&& refusal(protocol, f, endpoints)->Some_0.unsupported == Some(
                "grpc-needs-backend-protocol",
            )
        },
        endpoints == 0 && !(protocol == BackendProtocol::Http1 && grpc(f)) ==> {
            &&& refusal(protocol, f, endpoints)->Some_0.status == 503
            &&& refusal(protocol, f, endpoints)->Some_0.unsupported is None
        },
{
}

/// How many endpoints a request may go to: one, unless its body can be made again, and
/// then as many as there are, up to the bound.
pub proof fn a_request_goes_to_so_many(retryable: bool, endpoints: nat, max: nat)
    requires
        endpoints >= 1,
        max >= 1,
    ensures
        1 <= allowed(retryable, endpoints, max) <= endpoints,
        allowed(retryable, endpoints, max) <= max,
        !retryable ==> allowed(retryable, endpoints, max) == 1,
        retryable ==> allowed(retryable, endpoints, max) == endpoints || allowed(
            retryable,
            endpoints,
            max,
        ) == max,
{
}

/// The attempts begin with the endpoint that was chosen, and each goes to the one after
/// the last, round from the end to the beginning.
pub proof fn attempts_go_round(view: AttemptsView, k: nat)
    requires
        view.first < view.endpoints,
    ensures
        view.endpoint(0) == view.first,
        view.endpoint(k) + 1 < view.endpoints ==> view.endpoint(k + 1) == view.endpoint(k) + 1,
        view.endpoint(k) + 1 == view.endpoints ==> view.endpoint(k + 1) == 0,
        view.endpoint(k) < view.endpoints,
{
    let n = view.endpoints as int;
    let at = (view.first + k) as int;
    vstd::arithmetic::div_mod::lemma_small_mod(view.first, view.endpoints);
    vstd::arithmetic::div_mod::lemma_mod_bound(at, n);
    vstd::arithmetic::div_mod::lemma_add_mod_noop(at, 1, n);
    if n > 1 {
        vstd::arithmetic::div_mod::lemma_small_mod(1, view.endpoints);
    }
    if at % n + 1 < n {
        vstd::arithmetic::div_mod::lemma_small_mod((at % n + 1) as nat, view.endpoints);
    } else {
        vstd::arithmetic::div_mod::lemma_mod_self_0(n);
    }
    if n == 1 {
        vstd::arithmetic::div_mod::lemma_mod_bound(at + 1, n);
    }
}

/// After a failed attempt there is another exactly where nothing was sent and one is
/// left; otherwise the client is told which it was: a 504 for a response that did not
/// come in time, and a 502 for the other two.
pub proof fn a_failure_is_retried_or_told(view: AttemptsView, error: UpstreamError)
    ensures
        view.goes_on(error) <==> error is Connect && view.attempt + 1 < view.attempts,
        failure_reply(error).status == if error is Timeout {
            504int
        } else {
            502
        },
        error is Connect ==> failure_reply(error).body
            == "502 Bad Gateway: could not connect to any upstream endpoint\n",
        error is Transport ==> failure_reply(error).body
            == "502 Bad Gateway: the upstream connection failed\n",
        error is Timeout ==> failure_reply(error).body
            == "504 Gateway Timeout: the upstream sent no response headers in time\n",
{
}

/// A failed attempt moves the counter of its own kind by one, a retry its own, and no
/// other.
pub proof fn a_failure_counts_once(m: Metrics, error: UpstreamError, retried: bool)
    requires
        m.upstream_connect_failures < u64::MAX,
        m.upstream_timeouts < u64::MAX,
        m.upstream_retries < u64::MAX,
    ensures
        ({
            let after = counted(m, error, retried);
            &&& after.upstream_connect_failures == m.upstream_connect_failures + if error is Connect {
                1int
            } else {
                0
            }
            &&& after.upstream_timeouts == m.upstream_timeouts + if error is Timeout {
                1int
            } else {
                0
            }
            &&& after.upstream_retries == m.upstream_retries + if retried {
                1int
            } else {
                0
            }
            &&& after == (Metrics {
                upstream_connect_failures: after.upstream_connect_failures,
                upstream_timeouts: after.upstream_timeouts,
                upstream_retries: after.upstream_retries,
                ..m
            })
        }),
{
}

/// A response goes back without the fields of the upstream's connection. Only a 101
/// opens a tunnel, and only where both halves can be taken over and there is a protocol
/// to switch to, which is the response's own or else the one the client asked for; a 101
/// without them is answered with a 502.
pub proof fn only_a_whole_switch_opens_a_tunnel(
    status: u16,
    f: Fields,
    both: bool,
    requested: Option<Seq<u8>>,
    r: Relayed,
    after: Fields,
)
    requires
        relayed(status, f, both, requested, r, after),
    ensures
        status != 101 ==> r is Pass,
        r is Tunnel <==> status == 101 && both && (headers::upgrade_value(f) is Some
            || requested is Some),
        r is Tunnel ==> {
            &&& after["connection"@] == seq![
                seq![117u8, 112u8, 103u8, 114u8, 97u8, 100u8, 101u8],
            ]
            &&& headers::upgrade_value(f) is Some ==> after["upgrade"@] == seq![f["upgrade"@][0]]
            &&& headers::upgrade_value(f) is None ==> after["upgrade"@] == seq![requested->Some_0]
        },
        r is Pass ==> !after.contains_key("connection"@) && !after.contains_key("keep-alive"@)
            && !after.contains_key("transfer-encoding"@) && !after.contains_key("upgrade"@)
            && !after.contains_key("proxy-authenticate"@) && !after.contains_key("trailer"@),
        status == 101 && !(r is Tunnel) ==> (r matches Relayed::Refuse(reply)
            && reply.status == 502),
{
    headers::no_connection_field_crosses(f);
    headers::an_upgrade_takes_both_fields(f, 0, Seq::empty(), Seq::empty(), Seq::empty());
    if let Some(protocol) = switched_to(status, f, requested) {
        headers::an_upgrade_is_put_back_in_two_fields(headers::end_to_end(f), protocol, "host"@);
    }
}

/// A backend that speaks HTTP/2 gets HTTP/2, and any other HTTP/1.1.
pub proof fn a_version_is_the_backends(protocol: BackendProtocol)
    ensures
        version_of(protocol) == Version::Http2 <==> protocol == BackendProtocol::H2c,
        version_of(protocol) == Version::Http11 <==> protocol == BackendProtocol::Http1,
{
}

/// An attempt is sent to the address of the endpoint that it goes to, with the path and
/// query as they came: in front of them stand the scheme and that address, and a request
/// without a path asks for the root.
pub proof fn an_attempt_goes_to_its_endpoint(view: DispatchView)
    ensures
        ({
            let endpoint = view.endpoints[view.attempts.endpoint(view.attempts.attempt) as int];
            &&& view.path_and_query matches Some(path) ==> view.aim() == upstream::uri(
                "http://"@ + net::socket_text(endpoint) + path,
            )
            &&& view.path_and_query is None ==> view.aim() == upstream::uri(
                "http://"@ + net::socket_text(endpoint) + "/"@,
            )
        }),
{
}

/// A copy goes to the mirror's endpoint, with the path and query of the request.
pub proof fn a_copy_goes_to_the_mirrors_endpoint(endpoint: SocketAddr, path: Seq<char>)
    ensures
        copy_uri(Some(endpoint), Some(path)) == upstream::uri(
            "http://"@ + net::socket_text(endpoint@) + path,
        ),
        copy_uri(Some(endpoint), None) == upstream::uri(
            "http://"@ + net::socket_text(endpoint@) + "/"@,
        ),
        copy_uri(None, Some(path)) is None,
{
}

} // verus!
