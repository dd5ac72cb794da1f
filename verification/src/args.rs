//! Command-line and environment parsing.
//!
//! Every option is `--name value` or `--name=value`, and nearly every one has an
//! environment variable twin, because that is how a container is configured. An
//! explicit flag beats the environment, which beats the default.
use vstd::prelude::*;
use crate::headers;
use crate::history::DEFAULT_HISTORY_SIZE;
use crate::mirror::DEFAULT_MIRROR_MAX_BODY;
use crate::net;
use crate::net::{parse_socket, SocketAddr};
use crate::server::{
    DEFAULT_ADMIN_PORT, DEFAULT_HTTPS_PORT, DEFAULT_HTTP_PORT, DEFAULT_MAX_BUF_SIZE,
    MIN_MAX_BUF_SIZE,
};
use crate::text;
use crate::text::{
    copy_range, find_char, from_chars, lowercase, push_text, read_unsigned, same_text, to_chars,
    trim,
};
use crate::time::Duration;
use crate::upstream::DEFAULT_POOL_MAX_IDLE_PER_HOST;

verus! {

/// A copy of a text.
fn own(s: &str) -> (r: String)
    ensures
        r@ == s@,
{
    let mut out = String::new();
    push_text(&mut out, s);
    assert(out@ =~= s@);
    out
}

/// Why the command line could not be understood.
#[derive(Debug)]
pub enum ArgError {
    /// An option this binary does not have.
    Unknown(String),
    /// An option that needs a value did not get one.
    MissingValue(String),
    /// A positional argument, which this binary never takes.
    Unexpected(String),
    /// An argument that was not valid UTF-8, as it is shown.
    NotUtf8(String),
    /// Two options that each parse but cannot both be honoured. Refused at
    /// startup, rather than accepted and then quietly doing nothing.
    Conflict(String),
    /// A value that could not be parsed as the option's type.
    BadValue {
        /// The option being set.
        option: String,
        /// What was supplied.
        value: String,
        /// What was expected, such as "address".
        kind: &'static str,
    },
}

/// An error without its storage.
pub enum ArgErrorView {
    Unknown(Seq<char>),
    MissingValue(Seq<char>),
    Unexpected(Seq<char>),
    NotUtf8(Seq<char>),
    Conflict(Seq<char>),
    BadValue { option: Seq<char>, value: Seq<char>, kind: Seq<char> },
}

impl View for ArgError {
    type V = ArgErrorView;

    open spec fn view(&self) -> ArgErrorView {
        match *self {
            ArgError::Unknown(name) => ArgErrorView::Unknown(name@),
            ArgError::MissingValue(name) => ArgErrorView::MissingValue(name@),
            ArgError::Unexpected(name) => ArgErrorView::Unexpected(name@),
            ArgError::NotUtf8(shown) => ArgErrorView::NotUtf8(shown@),
            ArgError::Conflict(message) => ArgErrorView::Conflict(message@),
            ArgError::BadValue { option, value, kind } => ArgErrorView::BadValue {
                option: option@,
                value: value@,
                kind: kind@,
            },
        }
    }
}

/// What an error says.
pub open spec fn arg_error_text(error: ArgErrorView) -> Seq<char> {
    match error {
        ArgErrorView::Unknown(name) => "unknown option `"@ + name + "` (try --help)"@,
        ArgErrorView::MissingValue(name) => "option `"@ + name + "` needs a value"@,
        ArgErrorView::Unexpected(name) => "unexpected argument `"@ + name
            + "` (every option is a --flag)"@,
        ArgErrorView::NotUtf8(shown) => "argument "@ + shown + " is not valid UTF-8"@,
        ArgErrorView::Conflict(message) => message,
        ArgErrorView::BadValue { option, value, kind } => "`"@ + value + "` is not a valid "@ + kind
            + " for `"@ + option + "`"@,
    }
}

impl ArgError {
    /// The error in words.
    pub fn to_text(&self) -> (r: String)
        ensures
            r@ == arg_error_text(self@),
    {
        let mut out = String::new();
        match self {
            ArgError::Unknown(name) => {
                push_text(&mut out, "unknown option `");
                push_text(&mut out, name.as_str());
                push_text(&mut out, "` (try --help)");
            },
            ArgError::MissingValue(name) => {
                push_text(&mut out, "option `");
                push_text(&mut out, name.as_str());
                push_text(&mut out, "` needs a value");
            },
            ArgError::Unexpected(name) => {
                push_text(&mut out, "unexpected argument `");
                push_text(&mut out, name.as_str());
                push_text(&mut out, "` (every option is a --flag)");
            },
            ArgError::NotUtf8(shown) => {
                push_text(&mut out, "argument ");
                push_text(&mut out, shown.as_str());
                push_text(&mut out, " is not valid UTF-8");
            },
            ArgError::Conflict(message) => {
                push_text(&mut out, message.as_str());
            },
            ArgError::BadValue { option, value, kind } => {
                push_text(&mut out, "`");
                push_text(&mut out, value.as_str());
                push_text(&mut out, "` is not a valid ");
                push_text(&mut out, kind);
                push_text(&mut out, " for `");
                push_text(&mut out, option.as_str());
                push_text(&mut out, "`");
            },
        }
        assert(out@ =~= arg_error_text(self@));
        out
    }
}

/// Which data plane serves traffic.
#[derive(Debug, Clone, Copy, PartialEq, Eq, Structural)]
pub enum Engine {
    /// hyper on tokio. Everything works.
    Hyper,
    /// The `ramjet` reactor: io_uring on Linux, kqueue elsewhere. HTTP/1.1 with
    /// TLS. Falls back to `Hyper` on a host where the reactor cannot start.
    Uring,
    /// The same engine, and a refusal to start rather than a fallback.
    UringStrict,
}

impl Default for Engine {
    fn default() -> (r: Engine)
        ensures
            r == Engine::Hyper,
    {
        Engine::Hyper
    }
}

/// The name an engine is selected by.
pub open spec fn engine_name(engine: Engine) -> Seq<char> {
    match engine {
        Engine::Hyper => "hyper"@,
        Engine::Uring => "uring"@,
        Engine::UringStrict => "uring-strict"@,
    }
}

impl Engine {
    /// The name this engine is selected by.
    pub fn as_str(self) -> (r: &'static str)
        ensures
            r@ == engine_name(self),
    {
        match self {
            Engine::Hyper => "hyper",
            Engine::Uring => "uring",
            Engine::UringStrict => "uring-strict",
        }
    }

    /// Whether this selection runs the reactor engine.
    pub fn is_uring(self) -> (r: bool)
        ensures
            r == (self != Engine::Hyper),
    {
        matches!(self, Engine::Uring | Engine::UringStrict)
    }

    /// Whether a reactor that will not start is fatal.
    pub fn is_strict(self) -> (r: bool)
        ensures
            r == (self == Engine::UringStrict),
    {
        matches!(self, Engine::UringStrict)
    }
}

/// A Service and one of its ports.
#[derive(Debug, Clone, PartialEq, Eq)]
pub struct ServiceRef {
    pub namespace: String,
    pub name: String,
    /// A number or a name.
    pub port: String,
}

/// A reference without its storage.
pub struct ServiceView {
    pub namespace: Seq<char>,
    pub name: Seq<char>,
    pub port: Seq<char>,
}

impl View for ServiceRef {
    type V = ServiceView;

    open spec fn view(&self) -> ServiceView {
        ServiceView { namespace: self.namespace@, name: self.name@, port: self.port@ }
    }
}

/// A reference the way an Ingress names a backend.
pub open spec fn service_text(s: ServiceView) -> Seq<char> {
    s.namespace + "/"@ + s.name + ":"@ + s.port
}

/// One part of a reference: something, and no separator in it.
pub open spec fn is_part(s: Seq<char>) -> bool {
    s.len() > 0 && !s.contains('/') && !s.contains(':')
}

/// Is a reference made of three parts?
pub open spec fn is_service(s: ServiceView) -> bool {
    is_part(s.namespace) && is_part(s.name) && is_part(s.port)
}

/// The reference a text spells: a namespace, a slash, a name, a colon and a port.
pub open spec fn service_value(s: Seq<char>) -> Option<ServiceView> {
    let slash = text::first_index(s, '/');
    let colon = text::first_index(s, ':');
    if slash < colon < s.len() {
        let r = ServiceView {
            namespace: s.take(slash),
            name: s.subrange(slash + 1, colon),
            port: s.skip(colon + 1),
        };
        if is_service(r) {
            Some(r)
        } else {
            None
        }
    } else {
        None
    }
}

fn is_part_of(s: &[char]) -> (r: bool)
    ensures
        r == is_part(s@),
{
    proof {
        text::lemma_first_index_meaning(s@, '/');
        text::lemma_first_index_meaning(s@, ':');
    }
    s.len() > 0 && find_char(s, '/') == s.len() && find_char(s, ':') == s.len()
}

impl ServiceRef {
    /// Reads `namespace/name:port`.
    pub fn parse(value: &str) -> (r: Option<ServiceRef>)
        ensures
            option_service(r) == service_value(value@),
    {
        let s = to_chars(value);
        let slash: usize = find_char(s.as_slice(), '/');
        let colon: usize = find_char(s.as_slice(), ':');
        if slash < colon && colon < s.len() {
            let namespace = copy_range(s.as_slice(), 0, slash);
            let name = copy_range(s.as_slice(), slash + 1, colon);
            let port = copy_range(s.as_slice(), colon + 1, s.len());
            proof {
                assert(namespace@ =~= s@.take(slash as int));
                assert(port@ =~= s@.skip(colon + 1));
            }
            if is_part_of(namespace.as_slice()) && is_part_of(name.as_slice()) && is_part_of(
                port.as_slice(),
            ) {
                return Some(
                    ServiceRef {
                        namespace: from_chars(namespace.as_slice()),
                        name: from_chars(name.as_slice()),
                        port: from_chars(port.as_slice()),
                    },
                );
            }
        }
        None
    }

    /// The reference as text.
    pub fn backend_name(&self) -> (r: String)
        ensures
            r@ == service_text(self@),
    {
        let mut out = String::new();
        push_text(&mut out, self.namespace.as_str());
        push_text(&mut out, "/");
        push_text(&mut out, self.name.as_str());
        push_text(&mut out, ":");
        push_text(&mut out, self.port.as_str());
        assert(out@ =~= service_text(self@));
        out
    }
}

/// A reference that may be missing.
pub open spec fn option_service(s: Option<ServiceRef>) -> Option<ServiceView> {
    match s {
        Some(s) => Some(s@),
        None => None,
    }
}

/// An address that may be missing.
pub open spec fn option_address(a: Option<SocketAddr>) -> Option<net::SocketView> {
    match a {
        Some(a) => Some(a@),
        None => None,
    }
}

/// A count that may be missing.
pub open spec fn option_count(n: Option<usize>) -> Option<nat> {
    match n {
        Some(n) => Some(n as nat),
        None => None,
    }
}

/// A port on every IPv4 interface.
pub open spec fn any_address(port: nat) -> net::SocketView {
    net::SocketView { ip: net::IpView::V4(seq![0u8, 0u8, 0u8, 0u8]), port, scope_id: 0 }
}

fn every_interface(port: u16) -> (r: SocketAddr)
    ensures
        r@ == any_address(port as nat),
{
    let r = SocketAddr::v4([0, 0, 0, 0], port);
    assert(r@ == any_address(port as nat)) by {
        assert([0u8, 0u8, 0u8, 0u8]@ =~= seq![0u8, 0u8, 0u8, 0u8]);
    }
    r
}

/// Everything the daemon was asked to do.
#[derive(Debug, Clone, PartialEq, Eq)]
pub struct Args {
    /// Print usage and exit.
    pub help: bool,
    /// Print the version and exit.
    pub version: bool,
    /// Serve the routes in this file instead of watching Kubernetes. Its presence
    /// selects the mode, because a file and an API server are two writers for one
    /// route table.
    pub static_routes: Option<String>,
    /// `IngressClass` we answer to. Ingresses naming any other class are
    /// invisible to this replica.
    pub ingress_class: String,
    /// Single namespace to watch, or `None` for the whole cluster.
    pub watch_namespace: Option<String>,
    /// Address written into managed Ingresses' `.status.loadBalancer`.
    pub publish_address: Option<String>,
    /// `namespace/name` of a Service whose own status supplies that address.
    pub publish_service: Option<String>,
    /// Backend for requests matching no rule, as `namespace/name:port`.
    pub default_backend: Option<ServiceRef>,
    /// `namespace/name` of the Secret answering a handshake whose SNI matches
    /// nothing.
    pub default_tls_secret: Option<String>,
    /// Whether to write Ingress status at all.
    pub update_status: bool,
    /// Compiled generations kept for `/admin/generations` and rollback.
    pub history_size: usize,
    /// URL the semantic configuration diff is POSTed to on every publish.
    pub audit_webhook: Option<String>,
    /// Plaintext listener, or `None` if disabled.
    pub http: Option<SocketAddr>,
    /// TLS listener, or `None` if disabled.
    pub https: Option<SocketAddr>,
    /// Admin listener, or `None` if disabled.
    pub admin: Option<SocketAddr>,
    /// Whether the TLS listener was asked for or refused explicitly. Without
    /// that, dev mode skips it when the configuration declares no certificates.
    pub https_explicit: bool,
    /// Bound on establishing an upstream connection.
    pub connect_timeout: Duration,
    /// Bound on receiving upstream response headers.
    pub response_timeout: Duration,
    /// How long in-flight requests get after a shutdown signal.
    pub shutdown_grace: Duration,
    /// Endpoints tried before giving up on a retryable failure.
    pub max_connect_attempts: usize,
    /// Idle upstream connections kept per endpoint.
    pub upstream_pool_idle: usize,
    /// Ceiling on one client connection's HTTP/1 read and write buffers.
    pub max_buf_size: usize,
    /// Largest request body copied to a mirror backend.
    pub mirror_max_body: usize,
    /// Serving runtimes to start, or `None` for one per available core.
    pub worker_threads: Option<usize>,
    /// Which data plane serves traffic.
    pub engine: Engine,
    /// Require a PROXY protocol header on the traffic listeners. Only safe behind
    /// a load balancer that always sends one: the header names the client.
    pub proxy_protocol: bool,
    /// How long a sender gets to deliver a complete PROXY header.
    pub proxy_protocol_timeout: Duration,
    /// Serve HTTP/3 over QUIC on the TLS listener's port, in UDP.
    pub http3: bool,
    /// Serve HTTP/2 on the uring engine by handing those connections to the
    /// hyper engine, rather than not offering HTTP/2 at all.
    pub h2_dispatch: bool,
}

/// What the daemon was asked to do, without its storage.
pub struct ArgsView {
    pub help: bool,
    pub version: bool,
    pub static_routes: Option<Seq<char>>,
    pub ingress_class: Seq<char>,
    pub watch_namespace: Option<Seq<char>>,
    pub publish_address: Option<Seq<char>>,
    pub publish_service: Option<Seq<char>>,
    pub default_backend: Option<ServiceView>,
    pub default_tls_secret: Option<Seq<char>>,
    pub update_status: bool,
    pub history_size: nat,
    pub audit_webhook: Option<Seq<char>>,
    pub http: Option<net::SocketView>,
    pub https: Option<net::SocketView>,
    pub admin: Option<net::SocketView>,
    pub https_explicit: bool,
    pub connect_timeout: nat,
    pub response_timeout: nat,
    pub shutdown_grace: nat,
    pub max_connect_attempts: nat,
    pub upstream_pool_idle: nat,
    pub max_buf_size: nat,
    pub mirror_max_body: nat,
    pub worker_threads: Option<nat>,
    pub engine: Engine,
    pub proxy_protocol: bool,
    pub proxy_protocol_timeout: nat,
    pub http3: bool,
    pub h2_dispatch: bool,
}

impl View for Args {
    type V = ArgsView;

    open spec fn view(&self) -> ArgsView {
        ArgsView {
            help: self.help,
            version: self.version,
            static_routes: headers::option_text(self.static_routes),
            ingress_class: self.ingress_class@,
            watch_namespace: headers::option_text(self.watch_namespace),
            publish_address: headers::option_text(self.publish_address),
            publish_service: headers::option_text(self.publish_service),
            default_backend: option_service(self.default_backend),
            default_tls_secret: headers::option_text(self.default_tls_secret),
            update_status: self.update_status,
            history_size: self.history_size as nat,
            audit_webhook: headers::option_text(self.audit_webhook),
            http: option_address(self.http),
            https: option_address(self.https),
            admin: option_address(self.admin),
            https_explicit: self.https_explicit,
            connect_timeout: self.connect_timeout@,
            response_timeout: self.response_timeout@,
            shutdown_grace: self.shutdown_grace@,
            max_connect_attempts: self.max_connect_attempts as nat,
            upstream_pool_idle: self.upstream_pool_idle as nat,
            max_buf_size: self.max_buf_size as nat,
            mirror_max_body: self.mirror_max_body as nat,
            worker_threads: option_count(self.worker_threads),
            engine: self.engine,
            proxy_protocol: self.proxy_protocol,
            proxy_protocol_timeout: self.proxy_protocol_timeout@,
            http3: self.http3,
            h2_dispatch: self.h2_dispatch,
        }
    }
}

/// What is done when nothing is asked for.
pub open spec fn defaults() -> ArgsView {
    ArgsView {
        help: false,
        version: false,
        static_routes: None,
        ingress_class: "ramjet"@,
        watch_namespace: None,
        publish_address: None,
        publish_service: None,
        default_backend: None,
        default_tls_secret: None,
        update_status: true,
        history_size: DEFAULT_HISTORY_SIZE as nat,
        audit_webhook: None,
        http: Some(any_address(DEFAULT_HTTP_PORT as nat)),
        https: Some(any_address(DEFAULT_HTTPS_PORT as nat)),
        admin: Some(any_address(DEFAULT_ADMIN_PORT as nat)),
        https_explicit: false,
        connect_timeout: 5_000_000_000,
        response_timeout: 60_000_000_000,
        shutdown_grace: 30_000_000_000,
        max_connect_attempts: 3,
        upstream_pool_idle: DEFAULT_POOL_MAX_IDLE_PER_HOST as nat,
        max_buf_size: DEFAULT_MAX_BUF_SIZE as nat,
        mirror_max_body: DEFAULT_MIRROR_MAX_BODY as nat,
        worker_threads: None,
        engine: Engine::Hyper,
        proxy_protocol: false,
        proxy_protocol_timeout: 5_000_000_000,
        http3: false,
        h2_dispatch: true,
    }
}

impl Default for Args {
    fn default() -> (r: Args)
        ensures
            r@ == defaults(),
    {
        Args {
            help: false,
            version: false,
            static_routes: None,
            ingress_class: own("ramjet"),
            watch_namespace: None,
            publish_address: None,
            publish_service: None,
            default_backend: None,
            default_tls_secret: None,
            update_status: true,
            history_size: DEFAULT_HISTORY_SIZE,
            audit_webhook: None,
            http: Some(every_interface(DEFAULT_HTTP_PORT)),
            https: Some(every_interface(DEFAULT_HTTPS_PORT)),
            admin: Some(every_interface(DEFAULT_ADMIN_PORT)),
            https_explicit: false,
            connect_timeout: Duration::from_secs(5),
            response_timeout: Duration::from_secs(60),
            shutdown_grace: Duration::from_secs(30),
            max_connect_attempts: 3,
            upstream_pool_idle: DEFAULT_POOL_MAX_IDLE_PER_HOST,
            max_buf_size: DEFAULT_MAX_BUF_SIZE,
            mirror_max_body: DEFAULT_MIRROR_MAX_BODY,
            worker_threads: None,
            engine: Engine::Hyper,
            proxy_protocol: false,
            proxy_protocol_timeout: Duration::from_secs(5),
            http3: false,
            h2_dispatch: true,
        }
    }
}

/// What `--help` prints.
pub const USAGE: &'static str = "\
ramjet-ingressd — the ramjet-ingress data plane

USAGE:
    ramjet-ingressd [OPTIONS]

    With no --static-routes, the daemon watches the Kubernetes API and serves
    what the controller compiles. With one, it serves that file and never talks
    to Kubernetes at all.

KUBERNETES:
    --ingress-class <NAME>    IngressClass to answer to      [default: ramjet]
    --watch-namespace <NS>    Watch one namespace       [default: all of them]
    --default-backend <REF>   Backend for requests matching no rule, as
                              namespace/name:port
    --default-tls-secret <REF>
                              Secret (namespace/name) serving a handshake whose
                              SNI matches nothing
    --publish-address <ADDR>  Written into managed Ingresses' status
    --publish-service <REF>   Service (namespace/name) whose own status supplies
                              that address. Beats --publish-address.
    --no-status-update        Never write Ingress status.

    The client is configured the way every Kubernetes tool configures one: the
    in-cluster ServiceAccount if there is one, otherwise the current context of
    $KUBECONFIG or ~/.kube/config.

TIME TRAVEL AND THE AUDIT TRAIL:
    --history-size <N>        Compiled generations kept for /admin/generations
                              and rollback                      [default: 10]
    --audit-webhook <URL>     POST the semantic diff of every published
                              generation to URL

    Each kept generation holds its route table and its parsed certificates
    alive, which is roughly a hundred bytes per route per generation; the
    certificates are content-addressed and shared between generations that did
    not rotate them. Ten generations of a ten-thousand route cluster is a few
    megabytes.

    Every publish is written down three ways: a structured `tracing` event on
    the `audit` target, a Kubernetes Event on the IngressClass (reason
    ConfigApplied, ConfigPinned, or ConfigResumed), and — with --audit-webhook —
    one POST of the diff as JSON. The webhook is fire-and-forget: one attempt, a
    5s timeout, failures logged and never blocking a publish. It speaks http://
    only and refuses an https:// URL at startup rather than downgrading, because
    the control plane does not carry a TLS client for this; point it at a
    collector inside the cluster.

    Events need RBAC: `events.k8s.io` / `events` / create. The chart's
    ClusterRole has it. Without it the Events are skipped at debug level and
    everything else still works.

DEV MODE:
    --static-routes <FILE>    Serve the hosts, paths, backends, and certificates
                              described in FILE and never talk to Kubernetes.

LISTENERS:
    --http <ADDR>             Plaintext listener        [default: 0.0.0.0:8080]
    --https <ADDR>            TLS listener              [default: 0.0.0.0:8443]
    --admin <ADDR>            Metrics and probes        [default: 0.0.0.0:10254]
    --no-http, --no-https, --no-admin
                              Disable a listener.

    An address may be `host:port`, `:port`, or a bare port. In dev mode, without
    an explicit --https or --no-https, the TLS listener is skipped when the
    configuration declares no certificates. In Kubernetes mode it always binds:
    the certificates arrive over a watch, after the socket.

HTTP/3 (EXPERIMENTAL):
    --http3                   Also serve HTTP/3 over QUIC, on the --https port
                              in UDP, and advertise it with alt-svc.

    Off by default, and off costs nothing: no UDP socket is bound, no thread is
    started, and no header is added. On, the TLS listener's responses carry
    `alt-svc: h3=\":<port>\"; ma=86400`, which is how a client learns to retry
    over QUIC — so the same port number has to be reachable over UDP as well as
    TCP, all the way through whatever is in front of this process. An AWS NLB
    forwards UDP; most other cloud load balancers do not, or do only on a
    separate listener. See deploy/README.md.

    It shares the TLS listener's certificates, exactly: the same SNI resolution,
    the same store, the same rotation. What it does not share is the thread
    budget — the QUIC endpoint runs on one dedicated runtime rather than one per
    core, because sharding a UDP port by 4-tuple breaks connection migration —
    so it is not the path to put peak traffic on yet.

    No 0-RTT, no QUIC upstream (upstream stays HTTP/1.1), no protocol upgrades,
    and no PROXY protocol, which has no UDP form. Requires --https, and refuses
    --engine uring, which speaks no HTTP/2 and so no HTTP/3 either.

BEHIND A LOAD BALANCER:
    --proxy-protocol          Require a PROXY protocol header (v1 or v2) on the
                              --http and --https listeners, and take the client
                              address from it.
    --proxy-protocol-timeout <SECS>
                              Time a sender gets to deliver a complete header
                              before the connection is dropped   [default: 5]

    A cloud L4 load balancer — AWS NLB, DigitalOcean, Scaleway, GCP passthrough
    — forwards TCP without touching the payload, so without this every request
    is attributed to the balancer. Turn it on where the balancer is configured
    to send the header, and set the same option on both sides.

    SECURITY: the header *is* the client identity. Anything that can reach the
    listener can claim to be any address, and X-Forwarded-For, X-Real-IP and
    every application decision made from them follow. Enable it only on a
    listener nothing but the load balancer can reach. The header is required,
    not optional: a connection without a valid one is dropped, and the first
    such drop on each serving runtime is logged at warn — so a balancer that
    is not sending the header says so rather than looking like a network
    fault. The --admin listener never reads one, because Prometheus and the
    kubelet do not send one.

UPSTREAMS:
    --connect-timeout <SECS>      TCP connect bound          [default: 5]
    --response-timeout <SECS>     Response header bound      [default: 60]
    --max-connect-attempts <N>    Endpoints tried on a connect failure
                                                             [default: 3]
    --upstream-pool-idle <N>      Idle upstream connections kept per endpoint
                                                            [default: 128]

    --upstream-pool-idle is a ceiling, not a reservation: nothing is opened
    until a request needs it. Below the concurrent requests an endpoint
    receives, the surplus connections are closed as they go idle and reopened
    on the next request, which is a TCP handshake on the request path. Above
    it, the only cost is file descriptors.

SERVING:
    --engine <NAME>           Data plane: hyper, uring or uring-strict
                                                             [default: hyper]
    --no-h2-dispatch          On --engine uring, stop offering HTTP/2 rather
                              than handing those connections to the hyper
                              engine
    --worker-threads <N>      Serving runtimes, one per thread
                                              [default: one per available core]
    --max-buf-size <BYTES>    Ceiling on one client connection's HTTP/1 read and
                              write buffers, and so on the request head this
                              replica will accept    [default: 65536, min 8192]

    `uring` serves HTTP/1.1 on the ramjet reactor — io_uring on Linux, kqueue
    elsewhere — to find out whether batched submission gets under the syscall
    floor the hyper engine measured. It terminates TLS, carries WebSocket and
    other upgrades, reads the PROXY protocol, and runs in Kubernetes mode, all
    against the same certificate store and route table the hyper engine reads.
    What it does not speak is HTTP/2 in any form, and so neither gRPC nor
    HTTP/3; it refuses those with a status and an explanation rather than
    silently doing something else. Everything about routing, load balancing,
    canaries, mirroring, headers and /metrics is the same on both, and a
    differential test drives the two with identical traffic to keep it that
    way.

    `uring` falls back to `hyper` on a host where the reactor will not start,
    logging the reason. In practice that means io_uring_setup blocked by
    seccomp, which Docker's default profile does. `uring-strict` refuses to
    start instead, for a deployment that would rather crash-loop visibly than
    serve on an engine it did not choose. On macOS and BSD the reactor uses
    kqueue and this never comes up.

    Each runtime owns its connections, its upstream connection pool, and its
    timers, and a connection stays on the one it landed on. Setting this above
    the cores the process can actually use makes them compete; setting it to 1
    serves everything on one thread.

    --max-buf-size bounds the tail, not the common case. hyper allocates the
    first 8 KiB of each buffer whatever this is set to, and never shrinks one
    again while the connection lives — so a client that sends a 400 KiB header
    block would pin 400 KiB until it disconnects. 64 KiB accepts every request
    nginx's own 32 KiB limit would and bounds the worst case at a sixth of
    hyper's default. Requests over the ceiling are answered 431.

TRAFFIC MIRRORING:
    --mirror-max-body <BYTES> Largest request body copied to a mirror backend
                                                         [default: 262144]

    A route whose Ingress carries `ramjet.dev/mirror-backend:
    <namespace>/<service>:<port>` gets a second, fire-and-forget copy of each
    sampled request sent to that backend, and the answer is thrown away.
    `ramjet.dev/mirror-percent` (0-100, default 100) samples it down, and
    `ramjet.dev/mirror-host` overrides the Host header on the copy — which a
    shadow deployment answering to a different name needs, and which stops a
    copy being routed back to production by whatever is in front of it. Copies
    carry `X-Mirrored-By: ramjet-ingress`.

    Mirroring cannot slow the request the client is waiting for. Nothing is
    awaited on the request path; each serving runtime has a bounded queue and
    drops on overflow; responses are drained and discarded; a mirror backend
    that is down, refusing, or wedged produces a number on /metrics and nothing
    else. The one real cost is the body: a request with one is read up to
    --mirror-max-body so both copies can have it, and a body over the cap is
    forwarded whole to the real backend with the mirror skipped. A request with
    no body -- every GET, HEAD, OPTIONS and DELETE -- is mirrored with no
    buffering at all and keeps its endpoint failover.

    Watch ramjet_mirrored_total, ramjet_mirror_dropped_total (queue full),
    ramjet_mirror_skipped_total (body over the cap), and
    ramjet_mirror_failures_total (the backend refused or did not answer).

CANARY AUTO-PROMOTION:
    No flags. It is annotation-driven, per canary Ingress, and off unless
    `ramjet.dev/auto-promote: \"true\"` is set on one:

      auto-promote-interval             [default: 60s]  observation window
      auto-promote-steps       [default: 5,10,25,50,100]  weights to walk
      auto-promote-max-5xx-percent      [default: 1]    canary error budget
      auto-promote-max-latency-factor   [default: 1.5]  canary mean vs stable
      auto-promote-min-requests         [default: 50]   per window, per side

    Every interval the daemon takes that window's request, 5xx and latency
    counters for the canary and stable sides of the route separately. If either
    side saw fewer than min-requests it holds -- no traffic is not failure.
    Otherwise it advances the canary Ingress's canary-weight to the next step,
    or, on a breach, pulls the weight to 0 and writes `auto-promote: \"false\"`
    plus `auto-promote-status: \"rolled-back: <reason>\"`. A rollback is one-way:
    re-arming is a human decision. Reaching the last step writes
    `auto-promote-status: promoted` and stops; swapping the production Ingress's
    backend stays a human edit, deliberately.

    Decisions are logged with their numbers on the `audit` target, written as
    Events on the IngressClass (CanaryStepped, CanaryPromoted, CanaryRolledBack)
    and POSTed to --audit-webhook. Everything is paused while a rollback pin is
    held. RBAC: `networking.k8s.io` / `ingresses` / `patch`, which the chart's
    ClusterRole has.

SHUTDOWN:
    --shutdown-grace <SECS>   In-flight requests get this long after SIGTERM
                                                             [default: 30]

OTHER:
    -h, --help                Print this help
    -V, --version             Print the version

Every option has an environment twin (RAMJET_STATIC_ROUTES, RAMJET_INGRESS_CLASS,
RAMJET_WATCH_NAMESPACE, RAMJET_DEFAULT_BACKEND, RAMJET_DEFAULT_TLS_SECRET,
RAMJET_PUBLISH_ADDRESS, RAMJET_PUBLISH_SERVICE, RAMJET_UPDATE_STATUS,
RAMJET_HISTORY_SIZE, RAMJET_AUDIT_WEBHOOK,
RAMJET_HTTP, RAMJET_HTTPS, RAMJET_ADMIN, RAMJET_CONNECT_TIMEOUT,
RAMJET_RESPONSE_TIMEOUT, RAMJET_MAX_CONNECT_ATTEMPTS, RAMJET_UPSTREAM_POOL_IDLE,
RAMJET_MAX_BUF_SIZE, RAMJET_MIRROR_MAX_BODY, RAMJET_WORKER_THREADS,
RAMJET_SHUTDOWN_GRACE,
RAMJET_ENGINE, RAMJET_PROXY_PROTOCOL, RAMJET_PROXY_PROTOCOL_TIMEOUT,
RAMJET_HTTP3).
A flag always beats the environment. RUST_LOG sets the log filter.

ADMIN ENDPOINTS:
    GET    /metrics             Prometheus text exposition
    GET    /healthz             Liveness: 200 whenever the process is answering
    GET    /readyz              Readiness: 200 once a route table has been
                                published. In Kubernetes mode that means a
                                compiled generation, not the controller's empty
                                seed.
    GET    /admin/generations   The generations this replica has applied, newest
                                first, each with what changed and whether it
                                went live
    GET    /admin/routes        Every route in the serving table, with its
                                request, error, and upstream-latency counters
    POST   /admin/rollback      {\"generation\": N} — republish N and hold
                                publication there. 404 if N is not in the
                                history, 409 if something is already pinned.
    DELETE /admin/rollback      Release the pin and publish the newest
                                generation. Idempotent.

    A rollback is an emergency brake, not desired state. The controller keeps
    watching and compiling while a pin is held — the generations it builds are
    recorded and marked as not published — and releasing the pin jumps straight
    to the newest one. The pin lives in memory and dies with the process:
    Kubernetes is the source of truth after a restart, so fix the objects and
    then release it.

    Per-route counters are served here and deliberately not exported as
    Prometheus series: ten thousand routes would mean ten thousand series on
    every scrape. /metrics gains only ramjet_pinned, which is 1 while a rollback
    is holding publication.

    The listener has no authentication and is not meant to be reachable from
    outside the cluster; the chart puts it behind a ClusterIP Service. Only POST
    and DELETE can change what is served, so nothing that follows links can roll
    a cluster back by accident.
";

/// A setting that takes a value.
#[derive(Debug, Clone, Copy, PartialEq, Eq, Structural)]
pub enum Setting {
    StaticRoutes,
    IngressClass,
    WatchNamespace,
    PublishAddress,
    PublishService,
    DefaultBackend,
    DefaultTlsSecret,
    UpdateStatus,
    HistorySize,
    AuditWebhook,
    Http,
    Https,
    Admin,
    ConnectTimeout,
    ResponseTimeout,
    ShutdownGrace,
    MaxConnectAttempts,
    UpstreamPoolIdle,
    MaxBufSize,
    MirrorMaxBody,
    Engine,
    Http3,
    ProxyProtocol,
    ProxyProtocolTimeout,
    WorkerThreads,
}

/// The setting a flag with a value sets.
pub open spec fn flag_setting(name: Seq<char>) -> Option<Setting> {
    if name == "--static-routes"@ {
        Some(Setting::StaticRoutes)
    } else if name == "--ingress-class"@ {
        Some(Setting::IngressClass)
    } else if name == "--watch-namespace"@ {
        Some(Setting::WatchNamespace)
    } else if name == "--publish-address"@ {
        Some(Setting::PublishAddress)
    } else if name == "--publish-service"@ {
        Some(Setting::PublishService)
    } else if name == "--default-backend"@ {
        Some(Setting::DefaultBackend)
    } else if name == "--default-tls-secret"@ {
        Some(Setting::DefaultTlsSecret)
    } else if name == "--history-size"@ {
        Some(Setting::HistorySize)
    } else if name == "--audit-webhook"@ {
        Some(Setting::AuditWebhook)
    } else if name == "--http"@ {
        Some(Setting::Http)
    } else if name == "--https"@ {
        Some(Setting::Https)
    } else if name == "--admin"@ {
        Some(Setting::Admin)
    } else if name == "--connect-timeout"@ {
        Some(Setting::ConnectTimeout)
    } else if name == "--response-timeout"@ {
        Some(Setting::ResponseTimeout)
    } else if name == "--shutdown-grace"@ {
        Some(Setting::ShutdownGrace)
    } else if name == "--max-connect-attempts"@ {
        Some(Setting::MaxConnectAttempts)
    } else if name == "--upstream-pool-idle"@ {
        Some(Setting::UpstreamPoolIdle)
    } else if name == "--max-buf-size"@ {
        Some(Setting::MaxBufSize)
    } else if name == "--mirror-max-body"@ {
        Some(Setting::MirrorMaxBody)
    } else if name == "--engine"@ {
        Some(Setting::Engine)
    } else if name == "--proxy-protocol-timeout"@ {
        Some(Setting::ProxyProtocolTimeout)
    } else if name == "--worker-threads"@ {
        Some(Setting::WorkerThreads)
    } else {
        None
    }
}

/// The environment variables, in the order in which they are read, each with the
/// setting it sets.
pub open spec fn variables() -> Seq<(Seq<char>, Setting)> {
    seq![
        ("RAMJET_STATIC_ROUTES"@, Setting::StaticRoutes),
        ("RAMJET_INGRESS_CLASS"@, Setting::IngressClass),
        ("RAMJET_WATCH_NAMESPACE"@, Setting::WatchNamespace),
        ("RAMJET_PUBLISH_ADDRESS"@, Setting::PublishAddress),
        ("RAMJET_PUBLISH_SERVICE"@, Setting::PublishService),
        ("RAMJET_DEFAULT_BACKEND"@, Setting::DefaultBackend),
        ("RAMJET_DEFAULT_TLS_SECRET"@, Setting::DefaultTlsSecret),
        ("RAMJET_UPDATE_STATUS"@, Setting::UpdateStatus),
        ("RAMJET_HISTORY_SIZE"@, Setting::HistorySize),
        ("RAMJET_AUDIT_WEBHOOK"@, Setting::AuditWebhook),
        ("RAMJET_HTTP"@, Setting::Http),
        ("RAMJET_HTTPS"@, Setting::Https),
        ("RAMJET_ADMIN"@, Setting::Admin),
        ("RAMJET_CONNECT_TIMEOUT"@, Setting::ConnectTimeout),
        ("RAMJET_RESPONSE_TIMEOUT"@, Setting::ResponseTimeout),
        ("RAMJET_SHUTDOWN_GRACE"@, Setting::ShutdownGrace),
        ("RAMJET_MAX_CONNECT_ATTEMPTS"@, Setting::MaxConnectAttempts),
        ("RAMJET_UPSTREAM_POOL_IDLE"@, Setting::UpstreamPoolIdle),
        ("RAMJET_MAX_BUF_SIZE"@, Setting::MaxBufSize),
        ("RAMJET_MIRROR_MAX_BODY"@, Setting::MirrorMaxBody),
        ("RAMJET_ENGINE"@, Setting::Engine),
        ("RAMJET_HTTP3"@, Setting::Http3),
        ("RAMJET_PROXY_PROTOCOL"@, Setting::ProxyProtocol),
        ("RAMJET_PROXY_PROTOCOL_TIMEOUT"@, Setting::ProxyProtocolTimeout),
        ("RAMJET_WORKER_THREADS"@, Setting::WorkerThreads),
    ]
}

/// What a flag without a value makes of the settings, or `None` when there is no
/// such flag.
pub open spec fn switched(args: ArgsView, name: Seq<char>) -> Option<ArgsView> {
    if name == "-h"@ || name == "--help"@ {
        Some(ArgsView { help: true, ..args })
    } else if name == "-V"@ || name == "--version"@ {
        Some(ArgsView { version: true, ..args })
    } else if name == "--no-status-update"@ {
        Some(ArgsView { update_status: false, ..args })
    } else if name == "--no-h2-dispatch"@ {
        Some(ArgsView { h2_dispatch: false, ..args })
    } else if name == "--no-http"@ {
        Some(ArgsView { http: None, ..args })
    } else if name == "--no-https"@ {
        Some(ArgsView { https: None, https_explicit: true, ..args })
    } else if name == "--no-admin"@ {
        Some(ArgsView { admin: None, ..args })
    } else if name == "--http3"@ {
        Some(ArgsView { http3: true, ..args })
    } else if name == "--proxy-protocol"@ {
        Some(ArgsView { proxy_protocol: true, ..args })
    } else {
        None
    }
}

// ---------------------------------------------------------------------------
// Values
// ---------------------------------------------------------------------------

/// The address a text names: `host:port`, `:port`, or a bare port.
pub open spec fn address_value(s: Seq<char>) -> Option<net::SocketView> {
    match text::unsigned_value(s, 65535) {
        Some(port) => Some(any_address(port)),
        None => if s.len() > 0 && s[0] == ':' {
            match text::unsigned_value(s.skip(1), 65535) {
                Some(port) => Some(any_address(port)),
                None => None,
            }
        } else {
            net::socket_value(s)
        },
    }
}

/// The boolean a text names.
pub open spec fn boolean_value(s: Seq<char>) -> Option<bool> {
    let word = text::lower(text::trimmed(s));
    if word == "true"@ || word == "1"@ || word == "yes"@ || word == "on"@ {
        Some(true)
    } else if word == "false"@ || word == "0"@ || word == "no"@ || word == "off"@ {
        Some(false)
    } else {
        None
    }
}

/// The engine a text names.
pub open spec fn engine_value(s: Seq<char>) -> Option<Engine> {
    if s == engine_name(Engine::Hyper) {
        Some(Engine::Hyper)
    } else if s == engine_name(Engine::Uring) {
        Some(Engine::Uring)
    } else if s == engine_name(Engine::UringStrict) {
        Some(Engine::UringStrict)
    } else {
        None
    }
}

/// The count a text names.
pub open spec fn count_value(s: Seq<char>) -> Option<nat> {
    text::unsigned_value(s, usize::MAX as nat)
}

/// The whole seconds a text names, in nanoseconds.
pub open spec fn seconds_value(s: Seq<char>) -> Option<nat> {
    match text::unsigned_value(s, u64::MAX as nat) {
        Some(n) => Some(n * 1_000_000_000),
        None => None,
    }
}

/// `n`, or `least` when that is more.
pub open spec fn at_least(n: nat, least: nat) -> nat {
    if n < least {
        least
    } else {
        n
    }
}

/// What was expected of a setting's value.
pub open spec fn kind_of(setting: Setting) -> Seq<char> {
    match setting {
        Setting::DefaultBackend => "service reference of the form namespace/name:port"@,
        Setting::UpdateStatus
        | Setting::Http3
        | Setting::ProxyProtocol => "boolean"@,
        Setting::HistorySize
        | Setting::MaxConnectAttempts
        | Setting::UpstreamPoolIdle
        | Setting::MaxBufSize
        | Setting::MirrorMaxBody
        | Setting::WorkerThreads => "count"@,
        Setting::Http
        | Setting::Https
        | Setting::Admin => "address"@,
        Setting::ConnectTimeout
        | Setting::ResponseTimeout
        | Setting::ShutdownGrace
        | Setting::ProxyProtocolTimeout => "number of seconds"@,
        Setting::Engine => "engine (hyper, uring or uring-strict)"@,
        _ => "text"@,
    }
}

/// The settings with one of them changed, or `None` when the value is not one
/// that setting can have.
pub open spec fn changed(args: ArgsView, setting: Setting, value: Seq<char>) -> Option<ArgsView> {
    match setting {
        Setting::StaticRoutes => Some(ArgsView { static_routes: Some(value), ..args }),
        Setting::IngressClass => Some(ArgsView { ingress_class: value, ..args }),
        Setting::WatchNamespace => Some(ArgsView { watch_namespace: Some(value), ..args }),
        Setting::PublishAddress => Some(ArgsView { publish_address: Some(value), ..args }),
        Setting::PublishService => Some(ArgsView { publish_service: Some(value), ..args }),
        Setting::DefaultBackend => match service_value(value) {
            Some(v) => Some(ArgsView { default_backend: Some(v), ..args }),
            None => None,
        },
        Setting::DefaultTlsSecret => Some(ArgsView { default_tls_secret: Some(value), ..args }),
        Setting::UpdateStatus => match boolean_value(value) {
            Some(v) => Some(ArgsView { update_status: v, ..args }),
            None => None,
        },
        Setting::HistorySize => match count_value(value) {
            Some(v) => Some(ArgsView { history_size: at_least(v, 1), ..args }),
            None => None,
        },
        Setting::AuditWebhook => Some(ArgsView { audit_webhook: Some(value), ..args }),
        Setting::Http => match address_value(value) {
            Some(v) => Some(ArgsView { http: Some(v), ..args }),
            None => None,
        },
        Setting::Https => match address_value(value) {
            Some(v) => Some(ArgsView { https: Some(v), https_explicit: true, ..args }),
            None => None,
        },
        Setting::Admin => match address_value(value) {
            Some(v) => Some(ArgsView { admin: Some(v), ..args }),
            None => None,
        },
        Setting::ConnectTimeout => match seconds_value(value) {
            Some(v) => Some(ArgsView { connect_timeout: v, ..args }),
            None => None,
        },
        Setting::ResponseTimeout => match seconds_value(value) {
            Some(v) => Some(ArgsView { response_timeout: v, ..args }),
            None => None,
        },
        Setting::ShutdownGrace => match seconds_value(value) {
            Some(v) => Some(ArgsView { shutdown_grace: v, ..args }),
            None => None,
        },
        Setting::MaxConnectAttempts => match count_value(value) {
            Some(v) => Some(ArgsView { max_connect_attempts: at_least(v, 1), ..args }),
            None => None,
        },
        Setting::UpstreamPoolIdle => match count_value(value) {
            Some(v) => Some(ArgsView { upstream_pool_idle: v, ..args }),
            None => None,
        },
        Setting::MaxBufSize => match count_value(value) {
            Some(v) => Some(ArgsView { max_buf_size: at_least(v, MIN_MAX_BUF_SIZE as nat), ..args }),
            None => None,
        },
        Setting::MirrorMaxBody => match count_value(value) {
            Some(v) => Some(ArgsView { mirror_max_body: v, ..args }),
            None => None,
        },
        Setting::Engine => match engine_value(value) {
            Some(v) => Some(ArgsView { engine: v, ..args }),
            None => None,
        },
        Setting::Http3 => match boolean_value(value) {
            Some(v) => Some(ArgsView { http3: v, ..args }),
            None => None,
        },
        Setting::ProxyProtocol => match boolean_value(value) {
            Some(v) => Some(ArgsView { proxy_protocol: v, ..args }),
            None => None,
        },
        Setting::ProxyProtocolTimeout => match seconds_value(value) {
            Some(v) => Some(ArgsView { proxy_protocol_timeout: v, ..args }),
            None => None,
        },
        Setting::WorkerThreads => match count_value(value) {
            Some(v) => Some(ArgsView { worker_threads: Some(at_least(v, 1)), ..args }),
            None => None,
        },
    }
}

/// The settings with one of them changed, or the error that names the option the
/// value was given for.
pub open spec fn assigned(
    args: ArgsView,
    setting: Setting,
    option: Seq<char>,
    value: Seq<char>,
) -> Result<ArgsView, ArgErrorView> {
    match changed(args, setting, value) {
        Some(args) => Ok(args),
        None => Err(ArgErrorView::BadValue { option, value, kind: kind_of(setting) }),
    }
}

fn bad(option: &str, value: &str, kind: &'static str) -> (r: ArgError)
    ensures
        r@ == (ArgErrorView::BadValue { option: option@, value: value@, kind: kind@ }),
{
    ArgError::BadValue { option: own(option), value: own(value), kind }
}

/// Parses `host:port`, `:port`, or a bare port.
fn address(value: &str) -> (r: Option<SocketAddr>)
    ensures
        option_address(r) == address_value(value@),
{
    let s = to_chars(value);
    if let Some(port) = read_unsigned(s.as_slice(), 65535) {
        return Some(every_interface(port as u16));
    }
    if s.len() > 0 && s[0] == ':' {
        let rest = copy_range(s.as_slice(), 1, s.len());
        assert(rest@ =~= s@.skip(1));
        return match read_unsigned(rest.as_slice(), 65535) {
            Some(port) => Some(every_interface(port as u16)),
            None => None,
        };
    }
    parse_socket(s.as_slice())
}

/// Parses a boolean environment value.
fn boolean(value: &str) -> (r: Option<bool>)
    ensures
        r == boolean_value(value@),
{
    let s = to_chars(value);
    let trimmed = trim(s.as_slice());
    let lower = lowercase(trimmed.as_slice());
    let word = from_chars(lower.as_slice());
    let w = word.as_str();
    if same_text(w, "true") || same_text(w, "1") || same_text(w, "yes") || same_text(w, "on") {
        Some(true)
    } else if same_text(w, "false") || same_text(w, "0") || same_text(w, "no") || same_text(
        w,
        "off",
    ) {
        Some(false)
    } else {
        None
    }
}

fn seconds(value: &str) -> (r: Option<Duration>)
    ensures
        match seconds_value(value@) {
            Some(nanos) => r matches Some(span) && span@ == nanos,
            None => r is None,
        },
{
    let s = to_chars(value);
    match read_unsigned(s.as_slice(), u64::MAX) {
        Some(n) => Some(Duration::from_secs(n)),
        None => None,
    }
}

/// The engine named by an option or an environment variable. An unrecognised name is
/// an error rather than the default: whoever typed it asked for something specific.
pub fn engine(option: &str, value: &str) -> (r: Result<Engine, ArgError>)
    ensures
        match engine_value(value@) {
            Some(engine) => r == Ok::<Engine, ArgError>(engine),
            None => r matches Err(e) && e@ == (ArgErrorView::BadValue {
                option: option@,
                value: value@,
                kind: "engine (hyper, uring or uring-strict)"@,
            }),
        },
{
    if same_text(value, "hyper") {
        Ok(Engine::Hyper)
    } else if same_text(value, "uring") {
        Ok(Engine::Uring)
    } else if same_text(value, "uring-strict") {
        Ok(Engine::UringStrict)
    } else {
        Err(bad(option, value, "engine (hyper, uring or uring-strict)"))
    }
}

fn number(value: &str) -> (r: Option<usize>)
    ensures
        option_count(r) == count_value(value@),
{
    let s = to_chars(value);
    match read_unsigned(s.as_slice(), usize::MAX as u64) {
        Some(n) => Some(n as usize),
        None => None,
    }
}

fn raise(n: usize, least: usize) -> (r: usize)
    ensures
        r == at_least(n as nat, least as nat),
{
    if n < least {
        least
    } else {
        n
    }
}

impl Args {
    /// Gives one setting its value.
    fn assign(&mut self, setting: Setting, option: &str, value: String) -> (r: Result<(), ArgError>)
        ensures
            match assigned(old(self)@, setting, option@, value@) {
                Ok(args) => r is Ok && final(self)@ == args,
                Err(error) => r matches Err(e) && e@ == error,
            },
    {
        match setting {
            Setting::StaticRoutes => {
                self.static_routes = Some(value);
            },
            Setting::IngressClass => {
                self.ingress_class = value;
            },
            Setting::WatchNamespace => {
                self.watch_namespace = Some(value);
            },
            Setting::PublishAddress => {
                self.publish_address = Some(value);
            },
            Setting::PublishService => {
                self.publish_service = Some(value);
            },
            Setting::DefaultBackend => match ServiceRef::parse(value.as_str()) {
                Some(v) => {
                    self.default_backend = Some(v);
                },
                None => {
                    return Err(bad(option, value.as_str(), "service reference of the form namespace/name:port"));
                },
            },
            Setting::DefaultTlsSecret => {
                self.default_tls_secret = Some(value);
            },
            Setting::UpdateStatus => match boolean(value.as_str()) {
                Some(v) => {
                    self.update_status = v;
                },
                None => {
                    return Err(bad(option, value.as_str(), "boolean"));
                },
            },
            Setting::HistorySize => match number(value.as_str()) {
                Some(v) => {
                    self.history_size = raise(v, 1);
                },
                None => {
                    return Err(bad(option, value.as_str(), "count"));
                },
            },
            Setting::AuditWebhook => {
                self.audit_webhook = Some(value);
            },
            Setting::Http => match address(value.as_str()) {
                Some(v) => {
                    self.http = Some(v);
                },
                None => {
                    return Err(bad(option, value.as_str(), "address"));
                },
            },
            Setting::Https => match address(value.as_str()) {
                Some(v) => {
                    self.https = Some(v);
                    self.https_explicit = true;
                },
                None => {
                    return Err(bad(option, value.as_str(), "address"));
                },
            },
            Setting::Admin => match address(value.as_str()) {
                Some(v) => {
                    self.admin = Some(v);
                },
                None => {
                    return Err(bad(option, value.as_str(), "address"));
                },
            },
            Setting::ConnectTimeout => match seconds(value.as_str()) {
                Some(v) => {
                    self.connect_timeout = v;
                },
                None => {
                    return Err(bad(option, value.as_str(), "number of seconds"));
                },
            },
            Setting::ResponseTimeout => match seconds(value.as_str()) {
                Some(v) => {
                    self.response_timeout = v;
                },
                None => {
                    return Err(bad(option, value.as_str(), "number of seconds"));
                },
            },
            Setting::ShutdownGrace => match seconds(value.as_str()) {
                Some(v) => {
                    self.shutdown_grace = v;
                },
                None => {
                    return Err(bad(option, value.as_str(), "number of seconds"));
                },
            },
            Setting::MaxConnectAttempts => match number(value.as_str()) {
                Some(v) => {
                    self.max_connect_attempts = raise(v, 1);
                },
                None => {
                    return Err(bad(option, value.as_str(), "count"));
                },
            },
            Setting::UpstreamPoolIdle => match number(value.as_str()) {
                Some(v) => {
                    self.upstream_pool_idle = v;
                },
                None => {
                    return Err(bad(option, value.as_str(), "count"));
                },
            },
            Setting::MaxBufSize => match number(value.as_str()) {
                Some(v) => {
                    self.max_buf_size = raise(v, MIN_MAX_BUF_SIZE);
                },
                None => {
                    return Err(bad(option, value.as_str(), "count"));
                },
            },
            Setting::MirrorMaxBody => match number(value.as_str()) {
                Some(v) => {
                    self.mirror_max_body = v;
                },
                None => {
                    return Err(bad(option, value.as_str(), "count"));
                },
            },
            Setting::Engine => match engine(option, value.as_str()) {
                Ok(v) => {
                    self.engine = v;
                },
                Err(error) => {
                    return Err(error);
                },
            },
            Setting::Http3 => match boolean(value.as_str()) {
                Some(v) => {
                    self.http3 = v;
                },
                None => {
                    return Err(bad(option, value.as_str(), "boolean"));
                },
            },
            Setting::ProxyProtocol => match boolean(value.as_str()) {
                Some(v) => {
                    self.proxy_protocol = v;
                },
                None => {
                    return Err(bad(option, value.as_str(), "boolean"));
                },
            },
            Setting::ProxyProtocolTimeout => match seconds(value.as_str()) {
                Some(v) => {
                    self.proxy_protocol_timeout = v;
                },
                None => {
                    return Err(bad(option, value.as_str(), "number of seconds"));
                },
            },
            Setting::WorkerThreads => match number(value.as_str()) {
                Some(v) => {
                    self.worker_threads = Some(raise(v, 1));
                },
                None => {
                    return Err(bad(option, value.as_str(), "count"));
                },
            },
        }
        Ok(())
    }

    /// Throws a flag that takes no value; says whether there is such a flag.
    fn switch(&mut self, name: &str) -> (r: bool)
        ensures
            match switched(old(self)@, name@) {
                Some(args) => r && final(self)@ == args,
                None => !r && final(self)@ == old(self)@,
            },
    {
        if same_text(name, "-h") || same_text(name, "--help") {
            self.help = true;
        } else if same_text(name, "-V") || same_text(name, "--version") {
            self.version = true;
        } else if same_text(name, "--no-status-update") {
            self.update_status = false;
        } else if same_text(name, "--no-h2-dispatch") {
            self.h2_dispatch = false;
        } else if same_text(name, "--no-http") {
            self.http = None;
        } else if same_text(name, "--no-https") {
            self.https = None;
            self.https_explicit = true;
        } else if same_text(name, "--no-admin") {
            self.admin = None;
        } else if same_text(name, "--http3") {
            self.http3 = true;
        } else if same_text(name, "--proxy-protocol") {
            self.proxy_protocol = true;
        } else {
            return false;
        }
        true
    }
}

/// The setting a flag with a value sets.
fn setting_of(name: &str) -> (r: Option<Setting>)
    ensures
        r == flag_setting(name@),
{
    if same_text(name, "--static-routes") {
        Some(Setting::StaticRoutes)
    } else if same_text(name, "--ingress-class") {
        Some(Setting::IngressClass)
    } else if same_text(name, "--watch-namespace") {
        Some(Setting::WatchNamespace)
    } else if same_text(name, "--publish-address") {
        Some(Setting::PublishAddress)
    } else if same_text(name, "--publish-service") {
        Some(Setting::PublishService)
    } else if same_text(name, "--default-backend") {
        Some(Setting::DefaultBackend)
    } else if same_text(name, "--default-tls-secret") {
        Some(Setting::DefaultTlsSecret)
    } else if same_text(name, "--history-size") {
        Some(Setting::HistorySize)
    } else if same_text(name, "--audit-webhook") {
        Some(Setting::AuditWebhook)
    } else if same_text(name, "--http") {
        Some(Setting::Http)
    } else if same_text(name, "--https") {
        Some(Setting::Https)
    } else if same_text(name, "--admin") {
        Some(Setting::Admin)
    } else if same_text(name, "--connect-timeout") {
        Some(Setting::ConnectTimeout)
    } else if same_text(name, "--response-timeout") {
        Some(Setting::ResponseTimeout)
    } else if same_text(name, "--shutdown-grace") {
        Some(Setting::ShutdownGrace)
    } else if same_text(name, "--max-connect-attempts") {
        Some(Setting::MaxConnectAttempts)
    } else if same_text(name, "--upstream-pool-idle") {
        Some(Setting::UpstreamPoolIdle)
    } else if same_text(name, "--max-buf-size") {
        Some(Setting::MaxBufSize)
    } else if same_text(name, "--mirror-max-body") {
        Some(Setting::MirrorMaxBody)
    } else if same_text(name, "--engine") {
        Some(Setting::Engine)
    } else if same_text(name, "--proxy-protocol-timeout") {
        Some(Setting::ProxyProtocolTimeout)
    } else if same_text(name, "--worker-threads") {
        Some(Setting::WorkerThreads)
    } else {
        None
    }
}

// ---------------------------------------------------------------------------
// The environment
// ---------------------------------------------------------------------------

/// The value an environment gives a variable: that of the first entry with its
/// name.
pub open spec fn looked_up(env: Seq<(String, String)>, name: Seq<char>) -> Option<Seq<char>>
    decreases env.len(),
{
    if env.len() == 0 {
        None
    } else if env[0].0@ == name {
        Some(env[0].1@)
    } else {
        looked_up(env.skip(1), name)
    }
}

fn look_up(env: &Vec<(String, String)>, name: &str) -> (r: Option<String>)
    ensures
        headers::option_text(r) == looked_up(env@, name@),
{
    let mut i: usize = 0;
    assert(env@.skip(0) =~= env@);
    while i < env.len()
        invariant
            i <= env@.len(),
            looked_up(env@, name@) == looked_up(env@.skip(i as int), name@),
        decreases env@.len() - i,
    {
        assert(env@.skip(i as int)[0] == env@[i as int]);
        assert(env@.skip(i as int).skip(1) =~= env@.skip(i + 1));
        if same_text(env[i].0.as_str(), name) {
            return Some(own(env[i].1.as_str()));
        }
        i = i + 1;
    }
    None
}

/// The settings after the first `n` variables were read. The first value that is
/// not one its setting can have ends the reading.
pub open spec fn after_variables(env: Seq<(String, String)>, n: nat) -> Result<ArgsView, ArgErrorView>
    decreases n,
{
    if n == 0 {
        Ok(defaults())
    } else {
        match after_variables(env, (n - 1) as nat) {
            Err(error) => Err(error),
            Ok(args) => {
                let (name, setting) = variables()[n - 1];
                match looked_up(env, name) {
                    Some(value) => assigned(args, setting, name, value),
                    None => Ok(args),
                }
            },
        }
    }
}

/// What an environment asks for.
pub open spec fn environment_value(env: Seq<(String, String)>) -> Result<ArgsView, ArgErrorView> {
    after_variables(env, 25)
}

// ---------------------------------------------------------------------------
// The command line
// ---------------------------------------------------------------------------

/// One argument of the command line.
#[derive(Debug)]
pub enum Argument {
    /// An argument in UTF-8.
    Text(String),
    /// One that is not, as it is shown.
    Raw(String),
}

/// An argument without its storage.
pub enum ArgumentView {
    Text(Seq<char>),
    Raw(Seq<char>),
}

impl View for Argument {
    type V = ArgumentView;

    open spec fn view(&self) -> ArgumentView {
        match *self {
            Argument::Text(s) => ArgumentView::Text(s@),
            Argument::Raw(s) => ArgumentView::Raw(s@),
        }
    }
}

/// The arguments without their storage.
pub open spec fn argument_views(arguments: Seq<Argument>) -> Seq<ArgumentView> {
    arguments.map_values(|a: Argument| a@)
}

/// The option an argument names: what stands in front of the first equals sign.
pub open spec fn option_name(argument: Seq<char>) -> Seq<char> {
    argument.take(text::first_index(argument, '='))
}

/// The value an argument carries behind an equals sign.
pub open spec fn inline_value(argument: Seq<char>) -> Option<Seq<char>> {
    let equals = text::first_index(argument, '=');
    if equals < argument.len() {
        Some(argument.skip(equals + 1))
    } else {
        None
    }
}

/// The value of the first argument's option, and how many arguments the two take.
pub open spec fn value_at(input: Seq<ArgumentView>, argument: Seq<char>) -> Option<(Seq<char>, nat)> {
    match inline_value(argument) {
        Some(value) => Some((value, 1)),
        None => if input.len() >= 2 {
            match input[1] {
                ArgumentView::Text(value) => Some((value, 2)),
                ArgumentView::Raw(_) => None,
            }
        } else {
            None
        },
    }
}

/// What the first argument does: the settings after it and how many arguments
/// were used up.
pub open spec fn one_step(args: ArgsView, input: Seq<ArgumentView>) -> Result<
    (ArgsView, nat),
    ArgErrorView,
> {
    match input[0] {
        ArgumentView::Raw(shown) => Err(ArgErrorView::NotUtf8(shown)),
        ArgumentView::Text(argument) => {
            let name = option_name(argument);
            match switched(args, name) {
                Some(args) => Ok((args, 1)),
                None => match flag_setting(name) {
                    Some(setting) => match value_at(input, argument) {
                        None => Err(ArgErrorView::MissingValue(name)),
                        Some((value, used)) => match assigned(args, setting, name, value) {
                            Ok(args) => Ok((args, used)),
                            Err(error) => Err(error),
                        },
                    },
                    None => if name.len() > 0 && name[0] == '-' {
                        Err(ArgErrorView::Unknown(name))
                    } else {
                        Err(ArgErrorView::Unexpected(name))
                    },
                },
            }
        },
    }
}

/// The settings after every argument, one option after the other.
pub open spec fn after_arguments(args: ArgsView, input: Seq<ArgumentView>) -> Result<
    ArgsView,
    ArgErrorView,
>
    decreases input.len(),
{
    if input.len() == 0 {
        Ok(args)
    } else {
        match one_step(args, input) {
            Err(error) => Err(error),
            Ok((args, used)) => if 1 <= used <= input.len() {
                after_arguments(args, input.skip(used as int))
            } else {
                Ok(args)
            },
        }
    }
}

/// Why settings that are each valid cannot be honoured together.
pub open spec fn conflict(args: ArgsView) -> Option<Seq<char>> {
    if args.http3 && args.engine != Engine::Hyper {
        Some(
            "--http3 is not implemented on --engine uring, which speaks no HTTP/2 and so no HTTP/3; use --engine hyper"@,
        )
    } else if args.http3 && args.https is None {
        Some(
            "--http3 serves on the --https port in UDP, and --no-https leaves it none; give --https a port back or drop --http3"@,
        )
    } else {
        None
    }
}

/// The settings that a command line and an environment ask for together.
///
/// A conflict is a property of the result rather than of the order things came
/// in, and a request for text is answered whatever the rest of the line says.
pub open spec fn parsed(input: Seq<ArgumentView>, env: Seq<(String, String)>) -> Result<
    ArgsView,
    ArgErrorView,
> {
    match environment_value(env) {
        Err(error) => Err(error),
        Ok(base) => match after_arguments(base, input) {
            Err(error) => Err(error),
            Ok(args) => match conflict(args) {
                Some(message) => if args.help || args.version {
                    Ok(args)
                } else {
                    Err(ArgErrorView::Conflict(message))
                },
                None => Ok(args),
            },
        },
    }
}

/// A reading of the settings and what it is to be.
pub open spec fn reads_as(r: Result<Args, ArgError>, value: Result<ArgsView, ArgErrorView>) -> bool {
    match value {
        Ok(args) => r matches Ok(a) && a@ == args,
        Err(error) => r matches Err(e) && e@ == error,
    }
}

fn split_option(argument: &str) -> (r: (String, Option<String>))
    ensures
        r.0@ == option_name(argument@),
        headers::option_text(r.1) == inline_value(argument@),
{
    let s = to_chars(argument);
    proof {
        text::lemma_first_index_meaning(s@, '=');
    }
    let equals: usize = find_char(s.as_slice(), '=');
    let name = copy_range(s.as_slice(), 0, equals);
    assert(name@ =~= s@.take(equals as int));
    if equals < s.len() {
        let value = copy_range(s.as_slice(), equals + 1, s.len());
        assert(value@ =~= s@.skip(equals + 1));
        (from_chars(name.as_slice()), Some(from_chars(value.as_slice())))
    } else {
        (from_chars(name.as_slice()), None)
    }
}

impl Args {
    /// Parses `arguments`, falling back to `env` for anything not given.
    pub fn parse(arguments: &Vec<Argument>, env: &Vec<(String, String)>) -> (r: Result<Args, ArgError>)
        ensures
            reads_as(r, parsed(argument_views(arguments@), env@)),
    {
        let mut args = match Args::from_environment(env) {
            Ok(args) => args,
            Err(error) => return Err(error),
        };
        let ghost base = args@;
        let ghost input = argument_views(arguments@);
        let mut at: usize = 0;
        assert(input.skip(0) =~= input);
        while at < arguments.len()
            invariant
                at <= arguments@.len(),
                input == argument_views(arguments@),
                after_arguments(base, input) == after_arguments(args@, input.skip(at as int)),
                environment_value(env@) == Ok::<ArgsView, ArgErrorView>(base),
            decreases arguments@.len() - at,
        {
            let ghost rest = input.skip(at as int);
            assert(rest[0] == arguments@[at as int]@);
            match args.read_one(arguments, at) {
                Ok(used) => {
                    assert(rest.skip(used as int) =~= input.skip(at + used));
                    at = at + used;
                },
                Err(error) => {
                    return Err(error);
                },
            }
        }
        if !args.help && !args.version {
            if let Err(error) = args.check_conflicts() {
                return Err(error);
            }
        }
        Ok(args)
    }

    /// Reads the option at a place; returns how many arguments it took.
    fn read_one(&mut self, arguments: &Vec<Argument>, at: usize) -> (r: Result<usize, ArgError>)
        requires
            at < arguments@.len(),
        ensures
            match one_step(old(self)@, argument_views(arguments@).skip(at as int)) {
                Ok((args, used)) => {
                    &&& r == Ok::<usize, ArgError>(used as usize)
                    &&& final(self)@ == args
                    &&& 1 <= used <= arguments@.len() - at
                },
                Err(error) => r matches Err(e) && e@ == error,
            },
    {
        let ghost rest = argument_views(arguments@).skip(at as int);
        assert(rest[0] == arguments@[at as int]@);
        let argument = match &arguments[at] {
            Argument::Raw(shown) => return Err(ArgError::NotUtf8(own(shown.as_str()))),
            Argument::Text(argument) => argument,
        };
        let (name, inline) = split_option(argument.as_str());
        if self.switch(name.as_str()) {
            return Ok(1);
        }
        let setting = match setting_of(name.as_str()) {
            Some(setting) => setting,
            None => {
                let chars = to_chars(name.as_str());
                return if chars.len() > 0 && chars[0] == '-' {
                    Err(ArgError::Unknown(name))
                } else {
                    Err(ArgError::Unexpected(name))
                };
            },
        };
        match inline {
            Some(value) => match self.assign(setting, name.as_str(), value) {
                Ok(_) => Ok(1),
                Err(error) => Err(error),
            },
            None => {
                if arguments.len() - at < 2 {
                    return Err(ArgError::MissingValue(name));
                }
                assert(rest[1] == arguments@[at + 1]@);
                match &arguments[at + 1] {
                    Argument::Raw(_) => Err(ArgError::MissingValue(name)),
                    Argument::Text(value) => match self.assign(
                        setting,
                        name.as_str(),
                        own(value.as_str()),
                    ) {
                        Ok(_) => Ok(2),
                        Err(error) => Err(error),
                    },
                }
            },
        }
    }

    /// Options that are individually valid and jointly impossible.
    fn check_conflicts(&self) -> (r: Result<(), ArgError>)
        ensures
            match conflict(self@) {
                Some(message) => r matches Err(e) && e@ == ArgErrorView::Conflict(message),
                None => r is Ok,
            },
    {
        if self.http3 && self.engine.is_uring() {
            return Err(
                ArgError::Conflict(
                    own(
                        "--http3 is not implemented on --engine uring, which speaks no HTTP/2 and so no HTTP/3; use --engine hyper",
                    ),
                ),
            );
        }
        if self.http3 && self.https.is_none() {
            return Err(
                ArgError::Conflict(
                    own(
                        "--http3 serves on the --https port in UDP, and --no-https leaves it none; give --https a port back or drop --http3",
                    ),
                ),
            );
        }
        Ok(())
    }

    /// Reads the environment alone.
    fn from_environment(env: &Vec<(String, String)>) -> (r: Result<Args, ArgError>)
        ensures
            reads_as(r, environment_value(env@)),
    {
        let list: [(&'static str, Setting); 25] = [
        ("RAMJET_STATIC_ROUTES", Setting::StaticRoutes),
        ("RAMJET_INGRESS_CLASS", Setting::IngressClass),
        ("RAMJET_WATCH_NAMESPACE", Setting::WatchNamespace),
        ("RAMJET_PUBLISH_ADDRESS", Setting::PublishAddress),
        ("RAMJET_PUBLISH_SERVICE", Setting::PublishService),
        ("RAMJET_DEFAULT_BACKEND", Setting::DefaultBackend),
        ("RAMJET_DEFAULT_TLS_SECRET", Setting::DefaultTlsSecret),
        ("RAMJET_UPDATE_STATUS", Setting::UpdateStatus),
        ("RAMJET_HISTORY_SIZE", Setting::HistorySize),
        ("RAMJET_AUDIT_WEBHOOK", Setting::AuditWebhook),
        ("RAMJET_HTTP", Setting::Http),
        ("RAMJET_HTTPS", Setting::Https),
        ("RAMJET_ADMIN", Setting::Admin),
        ("RAMJET_CONNECT_TIMEOUT", Setting::ConnectTimeout),
        ("RAMJET_RESPONSE_TIMEOUT", Setting::ResponseTimeout),
        ("RAMJET_SHUTDOWN_GRACE", Setting::ShutdownGrace),
        ("RAMJET_MAX_CONNECT_ATTEMPTS", Setting::MaxConnectAttempts),
        ("RAMJET_UPSTREAM_POOL_IDLE", Setting::UpstreamPoolIdle),
        ("RAMJET_MAX_BUF_SIZE", Setting::MaxBufSize),
        ("RAMJET_MIRROR_MAX_BODY", Setting::MirrorMaxBody),
        ("RAMJET_ENGINE", Setting::Engine),
        ("RAMJET_HTTP3", Setting::Http3),
        ("RAMJET_PROXY_PROTOCOL", Setting::ProxyProtocol),
        ("RAMJET_PROXY_PROTOCOL_TIMEOUT", Setting::ProxyProtocolTimeout),
        ("RAMJET_WORKER_THREADS", Setting::WorkerThreads),
        ];
        let ghost all = variables();
        let mut args = Args::default();
        let mut i: usize = 0;
        while i < 25
            invariant
                i <= 25,
                all == variables(),
                all.len() == 25,
                forall|j: int|
                    #![trigger list@[j]]
                    0 <= j < 25 ==> list@[j].0@ == all[j].0 && list@[j].1 == all[j].1,
                after_variables(env@, i as nat) == Ok::<ArgsView, ArgErrorView>(args@),
            decreases 25 - i,
        {
            let (name, setting) = list[i];
            if let Some(value) = look_up(env, name) {
                if let Err(error) = args.assign(setting, name, value) {
                    proof {
                        lemma_an_error_stays(env@, (i + 1) as nat, 25);
                    }
                    return Err(error);
                }
            }
            i = i + 1;
        }
        Ok(args)
    }
}

/// Once a variable could not be read, the rest of them do not matter.
proof fn lemma_an_error_stays(env: Seq<(String, String)>, i: nat, n: nat)
    requires
        i <= n,
        after_variables(env, i) is Err,
    ensures
        after_variables(env, n) == after_variables(env, i),
    decreases n - i,
{
    if i < n {
        lemma_an_error_stays(env, i, (n - 1) as nat);
    }
}

// ---------------------------------------------------------------------------
// Laws
// ---------------------------------------------------------------------------

/// A later value replaces an earlier one wholly: after it, it is as if the
/// earlier one had never been given. A flag is read after the environment, so a
/// flag beats its environment twin.
#[verifier::spinoff_prover]
#[verifier::rlimit(60)]
pub proof fn a_later_value_replaces_an_earlier_one(
    args: ArgsView,
    setting: Setting,
    earlier: Seq<char>,
    later: Seq<char>,
)
    requires
        changed(args, setting, earlier) is Some,
    ensures
        changed(changed(args, setting, earlier)->0, setting, later) == changed(args, setting, later),
{
    match setting {
        Setting::StaticRoutes => {},
        Setting::IngressClass => {},
        Setting::WatchNamespace => {},
        Setting::PublishAddress => {},
        Setting::PublishService => {},
        Setting::DefaultBackend => {},
        Setting::DefaultTlsSecret => {},
        Setting::UpdateStatus => {},
        Setting::HistorySize => {},
        Setting::AuditWebhook => {},
        Setting::Http => {},
        Setting::Https => {},
        Setting::Admin => {},
        Setting::ConnectTimeout => {},
        Setting::ResponseTimeout => {},
        Setting::ShutdownGrace => {},
        Setting::MaxConnectAttempts => {},
        Setting::UpstreamPoolIdle => {},
        Setting::MaxBufSize => {},
        Setting::MirrorMaxBody => {},
        Setting::Engine => {},
        Setting::Http3 => {},
        Setting::ProxyProtocol => {},
        Setting::ProxyProtocolTimeout => {},
        Setting::WorkerThreads => {},
    }
}

/// Whether a value is accepted does not depend on what was read before it.
pub proof fn a_value_is_judged_on_its_own(
    a: ArgsView,
    b: ArgsView,
    setting: Setting,
    option: Seq<char>,
    value: Seq<char>,
)
    ensures
        changed(a, setting, value) is Some <==> changed(b, setting, value) is Some,
        assigned(a, setting, option, value) is Err ==> assigned(b, setting, option, value)
            == assigned(a, setting, option, value),
{
}

/// `--name value` and `--name=value` mean the same.
pub proof fn both_flag_shapes_mean_the_same(
    args: ArgsView,
    name: Seq<char>,
    value: Seq<char>,
    rest: Seq<ArgumentView>,
)
    requires
        flag_setting(name) is Some,
    ensures
        after_arguments(args, seq![ArgumentView::Text(name), ArgumentView::Text(value)] + rest)
            == after_arguments(args, seq![ArgumentView::Text(name + seq!['='] + value)] + rest),
{
    let apart = seq![ArgumentView::Text(name), ArgumentView::Text(value)] + rest;
    let whole = name + seq!['='] + value;
    let together = seq![ArgumentView::Text(whole)] + rest;
    lemma_a_flag_is_no_switch(args, name);
    text::lemma_first_index_meaning(name, '=');
    text::lemma_first_index(whole, '=', name.len() as int);
    assert(option_name(name) =~= name);
    assert(whole.take(name.len() as int) =~= name);
    assert(whole.skip(name.len() as int + 1) =~= value);
    assert(apart[0] == ArgumentView::Text(name));
    assert(apart[1] == ArgumentView::Text(value));
    assert(together[0] == ArgumentView::Text(whole));
    assert(apart.skip(2) =~= rest);
    assert(together.skip(1) =~= rest);
}

/// A request for help is answered even when the rest of the line asks for what
/// cannot be honoured together.
pub proof fn help_is_always_answered(input: Seq<ArgumentView>, env: Seq<(String, String)>)
    requires
        environment_value(env) is Ok,
        after_arguments(environment_value(env)->Ok_0, input) is Ok,
        after_arguments(environment_value(env)->Ok_0, input)->Ok_0.help,
    ensures
        parsed(input, env) == after_arguments(environment_value(env)->Ok_0, input),
{
}

/// A reference that is read is the text it was read from, and every reference
/// reads back.
pub proof fn a_reference_reads_back(s: ServiceView)
    requires
        is_service(s),
    ensures
        service_value(service_text(s)) == Some(s),
{
    reveal_strlit("/");
    reveal_strlit(":");
    let t = service_text(s);
    let slash = s.namespace.len() as int;
    let colon = slash + 1 + s.name.len();
    assert forall|j: int| 0 <= j < slash implies #[trigger] t[j] != '/' && t[j] != ':' by {
        assert(t[j] == s.namespace[j]);
    }
    assert(t[slash] == '/');
    assert forall|j: int| slash < j < colon implies #[trigger] t[j] != ':' by {
        assert(t[j] == s.name[j - slash - 1]);
    }
    assert(t[colon] == ':');
    text::lemma_first_index(t, '/', slash);
    text::lemma_first_index(t, ':', colon);
    assert(t.take(slash) =~= s.namespace);
    assert(t.subrange(slash + 1, colon) =~= s.name);
    assert(t.skip(colon + 1) =~= s.port);
}

/// What has been read stays read: further arguments start from it.
proof fn lemma_reading_goes_on(args: ArgsView, input: Seq<ArgumentView>, more: Seq<ArgumentView>)
    requires
        after_arguments(args, input) is Ok,
    ensures
        after_arguments(args, input + more) == after_arguments(
            after_arguments(args, input)->Ok_0,
            more,
        ),
    decreases input.len(),
{
    if input.len() == 0 {
        assert(input + more =~= more);
    } else {
        let (next, used) = one_step(args, input)->Ok_0;
        let all = input + more;
        assert(all[0] == input[0]);
        if input.len() >= 2 {
            assert(all[1] == input[1]);
        }
        assert(1 <= used <= input.len());
        assert(one_step(args, all) == one_step(args, input));
        assert(all.skip(used as int) =~= input.skip(used as int) + more);
        lemma_reading_goes_on(next, input.skip(used as int), more);
    }
}

/// A flag decides its setting, whatever the environment and the arguments before
/// it said: after it the setting has the flag's value, so that giving the value
/// once more would change nothing.
pub proof fn a_flag_decides_its_setting(
    input: Seq<ArgumentView>,
    env: Seq<(String, String)>,
    name: Seq<char>,
    value: Seq<char>,
)
    requires
        flag_setting(name) is Some,
        environment_value(env) is Ok,
        after_arguments(environment_value(env)->Ok_0, input) is Ok,
        parsed(input + seq![ArgumentView::Text(name), ArgumentView::Text(value)], env) is Ok,
    ensures
        ({
            let before = after_arguments(environment_value(env)->Ok_0, input)->Ok_0;
            let args = parsed(
                input + seq![ArgumentView::Text(name), ArgumentView::Text(value)],
                env,
            )->Ok_0;
            let setting = flag_setting(name)->0;
            &&& changed(before, setting, value) == Some(args)
            &&& changed(args, setting, value) == Some(args)
        }),
{
    let base = environment_value(env)->Ok_0;
    let before = after_arguments(base, input)->Ok_0;
    let flag = seq![ArgumentView::Text(name), ArgumentView::Text(value)];
    let setting = flag_setting(name)->0;
    lemma_reading_goes_on(base, input, flag);
    lemma_a_flag_is_no_switch(before, name);
    text::lemma_first_index_meaning(name, '=');
    assert(option_name(name) =~= name);
    assert(flag.skip(2) =~= Seq::<ArgumentView>::empty());
    reveal_with_fuel(after_arguments, 2);
    a_later_value_replaces_an_earlier_one(before, setting, value, value);
}

/// A flag with a value is not also one without, and holds no equals sign.
proof fn lemma_a_flag_is_no_switch(args: ArgsView, name: Seq<char>)
    requires
        flag_setting(name) is Some,
    ensures
        switched(args, name) is None,
        !name.contains('='),
{
    reveal_strlit("-h");
    reveal_strlit("--help");
    reveal_strlit("-V");
    reveal_strlit("--version");
    reveal_strlit("--no-status-update");
    reveal_strlit("--no-h2-dispatch");
    reveal_strlit("--no-http");
    reveal_strlit("--no-https");
    reveal_strlit("--no-admin");
    reveal_strlit("--http3");
    reveal_strlit("--proxy-protocol");
    if name == "--static-routes"@ {
        reveal_strlit("--static-routes");
        assert(name.len() == 15);
    } else if name == "--ingress-class"@ {
        reveal_strlit("--ingress-class");
        assert(name.len() == 15);
    } else if name == "--watch-namespace"@ {
        reveal_strlit("--watch-namespace");
        assert(name.len() == 17);
    } else if name == "--publish-address"@ {
        reveal_strlit("--publish-address");
        assert(name.len() == 17);
    } else if name == "--publish-service"@ {
        reveal_strlit("--publish-service");
        assert(name.len() == 17);
    } else if name == "--default-backend"@ {
        reveal_strlit("--default-backend");
        assert(name.len() == 17);
    } else if name == "--default-tls-secret"@ {
        reveal_strlit("--default-tls-secret");
        assert(name.len() == 20);
    } else if name == "--history-size"@ {
        reveal_strlit("--history-size");
        assert(name.len() == 14);
    } else if name == "--audit-webhook"@ {
        reveal_strlit("--audit-webhook");
        assert(name.len() == 15);
    } else if name == "--http"@ {
        reveal_strlit("--http");
        assert(name.len() == 6);
        assert(name[3] == 't' && "--help"@[3] == 'e');
    } else if name == "--https"@ {
        reveal_strlit("--https");
        assert(name.len() == 7);
        assert(name[6] == 's' && "--http3"@[6] == '3');
    } else if name == "--admin"@ {
        reveal_strlit("--admin");
        assert(name.len() == 7);
        assert(name[2] == 'a' && "--http3"@[2] == 'h');
    } else if name == "--connect-timeout"@ {
        reveal_strlit("--connect-timeout");
        assert(name.len() == 17);
    } else if name == "--response-timeout"@ {
        reveal_strlit("--response-timeout");
        assert(name.len() == 18);
        assert(name[2] == 'r' && "--no-status-update"@[2] == 'n');
    } else if name == "--shutdown-grace"@ {
        reveal_strlit("--shutdown-grace");
        assert(name.len() == 16);
        assert(name[2] == 's' && "--no-h2-dispatch"@[2] == 'n');
        assert(name[2] == 's' && "--proxy-protocol"@[2] == 'p');
    } else if name == "--max-connect-attempts"@ {
        reveal_strlit("--max-connect-attempts");
        assert(name.len() == 22);
    } else if name == "--upstream-pool-idle"@ {
        reveal_strlit("--upstream-pool-idle");
        assert(name.len() == 20);
    } else if name == "--max-buf-size"@ {
        reveal_strlit("--max-buf-size");
        assert(name.len() == 14);
    } else if name == "--mirror-max-body"@ {
        reveal_strlit("--mirror-max-body");
        assert(name.len() == 17);
    } else if name == "--engine"@ {
        reveal_strlit("--engine");
        assert(name.len() == 8);
    } else if name == "--proxy-protocol-timeout"@ {
        reveal_strlit("--proxy-protocol-timeout");
        assert(name.len() == 24);
    } else if name == "--worker-threads"@ {
        reveal_strlit("--worker-threads");
        assert(name.len() == 16);
        assert(name[2] == 'w' && "--no-h2-dispatch"@[2] == 'n');
        assert(name[2] == 'w' && "--proxy-protocol"@[2] == 'p');
    }
}

// ---------------------------------------------------------------------------
// Who has the last word
// ---------------------------------------------------------------------------

/// One option as it was given, whichever way it was written.
pub enum Given {
    /// An option without a value.
    Switch(Seq<char>),
    /// An option that gives a setting a value.
    Value(Setting, Seq<char>),
}

/// The setting that an option without a value decides, if it decides one.
pub open spec fn switch_setting(name: Seq<char>) -> Option<Setting> {
    if name == "-h"@ || name == "--help"@ {
        None
    } else if name == "-V"@ || name == "--version"@ {
        None
    } else if name == "--no-status-update"@ {
        Some(Setting::UpdateStatus)
    } else if name == "--no-h2-dispatch"@ {
        None
    } else if name == "--no-http"@ {
        Some(Setting::Http)
    } else if name == "--no-https"@ {
        Some(Setting::Https)
    } else if name == "--no-admin"@ {
        Some(Setting::Admin)
    } else if name == "--http3"@ {
        Some(Setting::Http3)
    } else if name == "--proxy-protocol"@ {
        Some(Setting::ProxyProtocol)
    } else {
        None
    }
}

/// Does an option decide a setting?
pub open spec fn decides(given: Given, setting: Setting) -> bool {
    match given {
        Given::Switch(name) => switch_setting(name) == Some(setting),
        Given::Value(other, _) => other == setting,
    }
}

/// What an option makes of the settings.
pub open spec fn effect(args: ArgsView, given: Given) -> Option<ArgsView> {
    match given {
        Given::Switch(name) => switched(args, name),
        Given::Value(setting, value) => changed(args, setting, value),
    }
}

/// Do the settings already say what an option says?
#[verifier::opaque]
pub open spec fn says(args: ArgsView, given: Given) -> bool {
    effect(args, given) == Some(args)
}

/// The first option of a command line, and how many arguments it takes.
pub open spec fn first_given(input: Seq<ArgumentView>) -> Option<(Given, nat)> {
    match input[0] {
        ArgumentView::Raw(_) => None,
        ArgumentView::Text(argument) => {
            let name = option_name(argument);
            match switched(defaults(), name) {
                Some(_) => Some((Given::Switch(name), 1)),
                None => match flag_setting(name) {
                    Some(setting) => match value_at(input, argument) {
                        Some((value, used)) => Some((Given::Value(setting, value), used)),
                        None => None,
                    },
                    None => None,
                },
            }
        },
    }
}

/// The options of a command line, in order.
pub open spec fn givens(input: Seq<ArgumentView>) -> Seq<Given>
    decreases input.len(),
{
    if input.len() == 0 {
        Seq::empty()
    } else {
        match first_given(input) {
            Some((given, used)) => if 1 <= used <= input.len() {
                seq![given] + givens(input.skip(used as int))
            } else {
                Seq::empty()
            },
            None => Seq::empty(),
        }
    }
}

/// Do two sets of settings agree on one of them?
#[verifier::opaque]
pub open spec fn agree(a: ArgsView, b: ArgsView, setting: Setting) -> bool {
    match setting {
        Setting::StaticRoutes => a.static_routes == b.static_routes,
        Setting::IngressClass => a.ingress_class == b.ingress_class,
        Setting::WatchNamespace => a.watch_namespace == b.watch_namespace,
        Setting::PublishAddress => a.publish_address == b.publish_address,
        Setting::PublishService => a.publish_service == b.publish_service,
        Setting::DefaultBackend => a.default_backend == b.default_backend,
        Setting::DefaultTlsSecret => a.default_tls_secret == b.default_tls_secret,
        Setting::UpdateStatus => a.update_status == b.update_status,
        Setting::HistorySize => a.history_size == b.history_size,
        Setting::AuditWebhook => a.audit_webhook == b.audit_webhook,
        Setting::Http => a.http == b.http,
        Setting::Https => a.https == b.https && a.https_explicit == b.https_explicit,
        Setting::Admin => a.admin == b.admin,
        Setting::ConnectTimeout => a.connect_timeout == b.connect_timeout,
        Setting::ResponseTimeout => a.response_timeout == b.response_timeout,
        Setting::ShutdownGrace => a.shutdown_grace == b.shutdown_grace,
        Setting::MaxConnectAttempts => a.max_connect_attempts == b.max_connect_attempts,
        Setting::UpstreamPoolIdle => a.upstream_pool_idle == b.upstream_pool_idle,
        Setting::MaxBufSize => a.max_buf_size == b.max_buf_size,
        Setting::MirrorMaxBody => a.mirror_max_body == b.mirror_max_body,
        Setting::Engine => a.engine == b.engine,
        Setting::Http3 => a.http3 == b.http3,
        Setting::ProxyProtocol => a.proxy_protocol == b.proxy_protocol,
        Setting::ProxyProtocolTimeout => a.proxy_protocol_timeout == b.proxy_protocol_timeout,
        Setting::WorkerThreads => a.worker_threads == b.worker_threads,
    }
}

/// The settings with one of them taken from others.
spec fn taken(args: ArgsView, from: ArgsView, setting: Setting) -> ArgsView {
    match setting {
        Setting::StaticRoutes => ArgsView { static_routes: from.static_routes, ..args },
        Setting::IngressClass => ArgsView { ingress_class: from.ingress_class, ..args },
        Setting::WatchNamespace => ArgsView { watch_namespace: from.watch_namespace, ..args },
        Setting::PublishAddress => ArgsView { publish_address: from.publish_address, ..args },
        Setting::PublishService => ArgsView { publish_service: from.publish_service, ..args },
        Setting::DefaultBackend => ArgsView { default_backend: from.default_backend, ..args },
        Setting::DefaultTlsSecret => ArgsView { default_tls_secret: from.default_tls_secret, ..args },
        Setting::UpdateStatus => ArgsView { update_status: from.update_status, ..args },
        Setting::HistorySize => ArgsView { history_size: from.history_size, ..args },
        Setting::AuditWebhook => ArgsView { audit_webhook: from.audit_webhook, ..args },
        Setting::Http => ArgsView { http: from.http, ..args },
        Setting::Https => ArgsView {
            https: from.https,
            https_explicit: from.https_explicit,
            ..args
        },
        Setting::Admin => ArgsView { admin: from.admin, ..args },
        Setting::ConnectTimeout => ArgsView { connect_timeout: from.connect_timeout, ..args },
        Setting::ResponseTimeout => ArgsView { response_timeout: from.response_timeout, ..args },
        Setting::ShutdownGrace => ArgsView { shutdown_grace: from.shutdown_grace, ..args },
        Setting::MaxConnectAttempts => ArgsView { max_connect_attempts: from.max_connect_attempts, ..args },
        Setting::UpstreamPoolIdle => ArgsView { upstream_pool_idle: from.upstream_pool_idle, ..args },
        Setting::MaxBufSize => ArgsView { max_buf_size: from.max_buf_size, ..args },
        Setting::MirrorMaxBody => ArgsView { mirror_max_body: from.mirror_max_body, ..args },
        Setting::Engine => ArgsView { engine: from.engine, ..args },
        Setting::Http3 => ArgsView { http3: from.http3, ..args },
        Setting::ProxyProtocol => ArgsView { proxy_protocol: from.proxy_protocol, ..args },
        Setting::ProxyProtocolTimeout => ArgsView { proxy_protocol_timeout: from.proxy_protocol_timeout, ..args },
        Setting::WorkerThreads => ArgsView { worker_threads: from.worker_threads, ..args },
    }
}

#[verifier::spinoff_prover]
#[verifier::rlimit(60)]
proof fn lemma_one_setting_changes(args: ArgsView, setting: Setting, value: Seq<char>)
    requires
        changed(args, setting, value) is Some,
    ensures
        changed(args, setting, value)->0 == taken(args, changed(args, setting, value)->0, setting),
{
    match setting {
        Setting::StaticRoutes => {},
        Setting::IngressClass => {},
        Setting::WatchNamespace => {},
        Setting::PublishAddress => {},
        Setting::PublishService => {},
        Setting::DefaultBackend => {},
        Setting::DefaultTlsSecret => {},
        Setting::UpdateStatus => {},
        Setting::HistorySize => {},
        Setting::AuditWebhook => {},
        Setting::Http => {},
        Setting::Https => {},
        Setting::Admin => {},
        Setting::ConnectTimeout => {},
        Setting::ResponseTimeout => {},
        Setting::ShutdownGrace => {},
        Setting::MaxConnectAttempts => {},
        Setting::UpstreamPoolIdle => {},
        Setting::MaxBufSize => {},
        Setting::MirrorMaxBody => {},
        Setting::Engine => {},
        Setting::Http3 => {},
        Setting::ProxyProtocol => {},
        Setting::ProxyProtocolTimeout => {},
        Setting::WorkerThreads => {},
    }
}

#[verifier::spinoff_prover]
#[verifier::rlimit(60)]
proof fn lemma_taken_leaves_others(args: ArgsView, from: ArgsView, other: Setting, setting: Setting)
    requires
        other != setting,
    ensures
        agree(taken(args, from, other), args, setting),
{
    reveal(agree);
    match setting {
        Setting::StaticRoutes => {},
        Setting::IngressClass => {},
        Setting::WatchNamespace => {},
        Setting::PublishAddress => {},
        Setting::PublishService => {},
        Setting::DefaultBackend => {},
        Setting::DefaultTlsSecret => {},
        Setting::UpdateStatus => {},
        Setting::HistorySize => {},
        Setting::AuditWebhook => {},
        Setting::Http => {},
        Setting::Https => {},
        Setting::Admin => {},
        Setting::ConnectTimeout => {},
        Setting::ResponseTimeout => {},
        Setting::ShutdownGrace => {},
        Setting::MaxConnectAttempts => {},
        Setting::UpstreamPoolIdle => {},
        Setting::MaxBufSize => {},
        Setting::MirrorMaxBody => {},
        Setting::Engine => {},
        Setting::Http3 => {},
        Setting::ProxyProtocol => {},
        Setting::ProxyProtocolTimeout => {},
        Setting::WorkerThreads => {},
    }
}

proof fn lemma_a_switch_leaves_others(args: ArgsView, name: Seq<char>, setting: Setting)
    requires
        switched(args, name) is Some,
        switch_setting(name) != Some(setting),
    ensures
        agree(switched(args, name)->0, args, setting),
{
    reveal(agree);
    let out = switched(args, name)->0;
    match switch_setting(name) {
        Some(other) => {
            assert(out == taken(args, out, other));
            lemma_taken_leaves_others(args, out, other, setting);
        },
        None => {},
    }
}

proof fn lemma_others_stay(args: ArgsView, given: Given, setting: Setting)
    requires
        effect(args, given) is Some,
        !decides(given, setting),
    ensures
        agree(effect(args, given)->0, args, setting),
{
    match given {
        Given::Value(other, value) => {
            lemma_one_setting_changes(args, other, value);
            lemma_taken_leaves_others(args, effect(args, given)->0, other, setting);
        },
        Given::Switch(name) => {
            lemma_a_switch_leaves_others(args, name, setting);
        },
    }
}

#[verifier::spinoff_prover]
#[verifier::rlimit(60)]
proof fn lemma_said_once_is_said(args: ArgsView, given: Given)
    requires
        effect(args, given) is Some,
    ensures
        says(effect(args, given)->0, given),
{
    reveal(says);
    if let Given::Value(setting, value) = given {
        a_later_value_replaces_an_earlier_one(args, setting, value, value);
    }
}

#[verifier::spinoff_prover]
#[verifier::rlimit(60)]
proof fn lemma_a_value_is_about_its_setting(
    a: ArgsView,
    b: ArgsView,
    setting: Setting,
    value: Seq<char>,
)
    requires
        changed(a, setting, value) == Some(a),
        agree(a, b, setting),
    ensures
        changed(b, setting, value) == Some(b),
{
    reveal(agree);
    match setting {
        Setting::StaticRoutes => {},
        Setting::IngressClass => {},
        Setting::WatchNamespace => {},
        Setting::PublishAddress => {},
        Setting::PublishService => {},
        Setting::DefaultBackend => {},
        Setting::DefaultTlsSecret => {},
        Setting::UpdateStatus => {},
        Setting::HistorySize => {},
        Setting::AuditWebhook => {},
        Setting::Http => {},
        Setting::Https => {},
        Setting::Admin => {},
        Setting::ConnectTimeout => {},
        Setting::ResponseTimeout => {},
        Setting::ShutdownGrace => {},
        Setting::MaxConnectAttempts => {},
        Setting::UpstreamPoolIdle => {},
        Setting::MaxBufSize => {},
        Setting::MirrorMaxBody => {},
        Setting::Engine => {},
        Setting::Http3 => {},
        Setting::ProxyProtocol => {},
        Setting::ProxyProtocolTimeout => {},
        Setting::WorkerThreads => {},
    }
}

#[verifier::spinoff_prover]
#[verifier::rlimit(60)]
proof fn lemma_a_switch_is_about_its_setting(
    a: ArgsView,
    b: ArgsView,
    setting: Setting,
    name: Seq<char>,
)
    requires
        switched(a, name) == Some(a),
        switch_setting(name) == Some(setting),
        agree(a, b, setting),
    ensures
        switched(b, name) == Some(b),
{
    reveal(agree);
    match setting {
        Setting::UpdateStatus => {},
        Setting::Http => {},
        Setting::Https => {},
        Setting::Admin => {},
        Setting::Http3 => {},
        Setting::ProxyProtocol => {},
        _ => {},
    }
}

proof fn lemma_saying_is_about_the_setting(a: ArgsView, b: ArgsView, given: Given, setting: Setting)
    requires
        says(a, given),
        decides(given, setting),
        agree(a, b, setting),
    ensures
        says(b, given),
{
    reveal(says);
    match given {
        Given::Switch(name) => lemma_a_switch_is_about_its_setting(a, b, setting, name),
        Given::Value(_, value) => lemma_a_value_is_about_its_setting(a, b, setting, value),
    }
}

proof fn lemma_agrees_with_itself(a: ArgsView, setting: Setting)
    ensures
        agree(a, a, setting),
{
    reveal(agree);
}

proof fn lemma_agreement_is_mutual(a: ArgsView, b: ArgsView, setting: Setting)
    requires
        agree(a, b, setting),
    ensures
        agree(b, a, setting),
{
    reveal(agree);
}

proof fn lemma_agreement_carries(a: ArgsView, b: ArgsView, c: ArgsView, setting: Setting)
    requires
        agree(a, b, setting),
        agree(b, c, setting),
    ensures
        agree(a, c, setting),
{
    reveal(agree);
}

proof fn lemma_a_step_is_an_option(args: ArgsView, input: Seq<ArgumentView>)
    requires
        input.len() > 0,
        one_step(args, input) is Ok,
    ensures
        first_given(input) matches Some((given, used)) && used == one_step(args, input)->Ok_0.1
            && effect(args, given) == Some(one_step(args, input)->Ok_0.0) && 1 <= used
            <= input.len(),
{
}

/// The last option that decides a setting decides it, wherever it stands and
/// whichever way it is written; and a setting that no option decides stays what it
/// was.
#[verifier::spinoff_prover]
#[verifier::rlimit(60)]
pub proof fn the_last_option_decides(
    base: ArgsView,
    input: Seq<ArgumentView>,
    setting: Setting,
    i: int,
)
    requires
        after_arguments(base, input) is Ok,
    ensures
        ({
            let out = after_arguments(base, input)->Ok_0;
            let options = givens(input);
            &&& (forall|j: int| 0 <= j < options.len() ==> !decides(#[trigger] options[j], setting))
                ==> agree(out, base, setting)
            &&& 0 <= i < options.len() && decides(options[i], setting) && (forall|j: int|
                i < j < options.len() ==> !decides(#[trigger] options[j], setting)) ==> says(
                out,
                options[i],
            )
        }),
    decreases input.len(),
{
    lemma_agrees_with_itself(base, setting);
    if input.len() > 0 {
        lemma_a_step_is_an_option(base, input);
        let (next, used) = one_step(base, input)->Ok_0;
        let (given, _) = first_given(input)->Some_0;
        let rest = input.skip(used as int);
        let out = after_arguments(base, input)->Ok_0;
        let options = givens(input);
        let later = givens(rest);
        assert(options == seq![given] + later);
        assert forall|j: int| 0 <= j < later.len() implies later[j] == #[trigger] options[j + 1] by {}
        the_last_option_decides(next, rest, setting, i - 1);
        if forall|j: int| 0 < j < options.len() ==> !decides(#[trigger] options[j], setting) {
            assert forall|j: int| 0 <= j < later.len() implies !decides(#[trigger] later[j], setting) by {
                assert(options[j + 1] == later[j]);
            }
            assert(agree(out, next, setting));
            if decides(given, setting) {
                lemma_said_once_is_said(base, given);
                lemma_agreement_is_mutual(out, next, setting);
                lemma_saying_is_about_the_setting(next, out, given, setting);
            } else {
                lemma_others_stay(base, given, setting);
                lemma_agreement_carries(out, next, base, setting);
            }
        }
        if 0 < i < options.len() && decides(options[i], setting) && (forall|j: int|
            i < j < options.len() ==> !decides(#[trigger] options[j], setting)) {
            assert(later[i - 1] == options[i]);
            assert forall|j: int| i - 1 < j < later.len() implies !decides(
                #[trigger] later[j],
                setting,
            ) by {
                assert(options[j + 1] == later[j]);
            }
        }
        assert(options[0] == given);
        if forall|j: int| 0 <= j < options.len() ==> !decides(#[trigger] options[j], setting) {
            assert(!decides(options[0], setting));
        }
    }
}

/// Where a setting's variable stands.
pub open spec fn rank(setting: Setting) -> int {
    match setting {
        Setting::StaticRoutes => 0,
        Setting::IngressClass => 1,
        Setting::WatchNamespace => 2,
        Setting::PublishAddress => 3,
        Setting::PublishService => 4,
        Setting::DefaultBackend => 5,
        Setting::DefaultTlsSecret => 6,
        Setting::UpdateStatus => 7,
        Setting::HistorySize => 8,
        Setting::AuditWebhook => 9,
        Setting::Http => 10,
        Setting::Https => 11,
        Setting::Admin => 12,
        Setting::ConnectTimeout => 13,
        Setting::ResponseTimeout => 14,
        Setting::ShutdownGrace => 15,
        Setting::MaxConnectAttempts => 16,
        Setting::UpstreamPoolIdle => 17,
        Setting::MaxBufSize => 18,
        Setting::MirrorMaxBody => 19,
        Setting::Engine => 20,
        Setting::Http3 => 21,
        Setting::ProxyProtocol => 22,
        Setting::ProxyProtocolTimeout => 23,
        Setting::WorkerThreads => 24,
    }
}

/// Every setting has one variable.
proof fn lemma_one_variable_each(i: int)
    requires
        0 <= i < 25,
    ensures
        rank(variables()[i].1) == i,
{
    assert(variables()[0].1 == Setting::StaticRoutes);
    assert(variables()[1].1 == Setting::IngressClass);
    assert(variables()[2].1 == Setting::WatchNamespace);
    assert(variables()[3].1 == Setting::PublishAddress);
    assert(variables()[4].1 == Setting::PublishService);
    assert(variables()[5].1 == Setting::DefaultBackend);
    assert(variables()[6].1 == Setting::DefaultTlsSecret);
    assert(variables()[7].1 == Setting::UpdateStatus);
    assert(variables()[8].1 == Setting::HistorySize);
    assert(variables()[9].1 == Setting::AuditWebhook);
    assert(variables()[10].1 == Setting::Http);
    assert(variables()[11].1 == Setting::Https);
    assert(variables()[12].1 == Setting::Admin);
    assert(variables()[13].1 == Setting::ConnectTimeout);
    assert(variables()[14].1 == Setting::ResponseTimeout);
    assert(variables()[15].1 == Setting::ShutdownGrace);
    assert(variables()[16].1 == Setting::MaxConnectAttempts);
    assert(variables()[17].1 == Setting::UpstreamPoolIdle);
    assert(variables()[18].1 == Setting::MaxBufSize);
    assert(variables()[19].1 == Setting::MirrorMaxBody);
    assert(variables()[20].1 == Setting::Engine);
    assert(variables()[21].1 == Setting::Http3);
    assert(variables()[22].1 == Setting::ProxyProtocol);
    assert(variables()[23].1 == Setting::ProxyProtocolTimeout);
    assert(variables()[24].1 == Setting::WorkerThreads);
}

#[verifier::spinoff_prover]
#[verifier::rlimit(60)]
proof fn lemma_variables_decide(env: Seq<(String, String)>, n: nat, k: int)
    requires
        n <= 25,
        0 <= k < 25,
        after_variables(env, n) is Ok,
    ensures
        ({
            let out = after_variables(env, n)->Ok_0;
            let (name, setting) = variables()[k];
            match looked_up(env, name) {
                Some(value) => if k < n {
                    says(out, Given::Value(setting, value))
                } else {
                    agree(out, defaults(), setting)
                },
                None => agree(out, defaults(), setting),
            }
        }),
    decreases n,
{
    lemma_agrees_with_itself(defaults(), variables()[k].1);
    if n > 0 {
        lemma_variables_decide(env, (n - 1) as nat, k);
        let before = after_variables(env, (n - 1) as nat)->Ok_0;
        let out = after_variables(env, n)->Ok_0;
        let (name, setting) = variables()[n - 1];
        let wanted = variables()[k].1;
        lemma_one_variable_each(n - 1);
        lemma_one_variable_each(k);
        if let Some(value) = looked_up(env, name) {
            let given = Given::Value(setting, value);
            if k == n - 1 {
                lemma_said_once_is_said(before, given);
            } else {
                lemma_others_stay(before, given, wanted);
                lemma_agreement_is_mutual(out, before, wanted);
                match looked_up(env, variables()[k].0) {
                    Some(earlier) if k < n => {
                        lemma_saying_is_about_the_setting(
                            before,
                            out,
                            Given::Value(wanted, earlier),
                            wanted,
                        );
                    },
                    _ => {
                        lemma_agreement_carries(out, before, defaults(), wanted);
                    },
                }
            }
        }
    }
}

/// Every setting has the value of the last option that decides it; where no option
/// does, the value of its environment variable; and where there is none, its
/// default. So an option always beats the environment.
#[verifier::spinoff_prover]
#[verifier::rlimit(60)]
pub proof fn an_option_beats_the_environment(
    input: Seq<ArgumentView>,
    env: Seq<(String, String)>,
    setting: Setting,
    i: int,
)
    requires
        parsed(input, env) is Ok,
    ensures
        ({
            let args = parsed(input, env)->Ok_0;
            let options = givens(input);
            let (name, own) = variables()[rank(setting)];
            &&& own == setting
            &&& 0 <= i < options.len() && decides(options[i], setting) && (forall|j: int|
                i < j < options.len() ==> !decides(#[trigger] options[j], setting)) ==> says(
                args,
                options[i],
            )
            &&& (forall|j: int| 0 <= j < options.len() ==> !decides(#[trigger] options[j], setting))
                ==> match looked_up(env, name) {
                Some(value) => says(args, Given::Value(setting, value)),
                None => agree(args, defaults(), setting),
            }
        }),
{
    let base = environment_value(env)->Ok_0;
    let args = parsed(input, env)->Ok_0;
    let options = givens(input);
    let k = rank(setting);
    lemma_own_variable(setting);
    the_last_option_decides(base, input, setting, i);
    lemma_variables_decide(env, 25, k);
    if forall|j: int| 0 <= j < options.len() ==> !decides(#[trigger] options[j], setting) {
        lemma_agreement_is_mutual(args, base, setting);
        match looked_up(env, variables()[k].0) {
            Some(value) => {
                lemma_saying_is_about_the_setting(
                    base,
                    args,
                    Given::Value(setting, value),
                    setting,
                );
            },
            None => {
                lemma_agreement_carries(args, base, defaults(), setting);
            },
        }
    }
}

proof fn lemma_own_variable(setting: Setting)
    ensures
        0 <= rank(setting) < 25,
        variables()[rank(setting)].1 == setting,
{
    assert(variables()[0].1 == Setting::StaticRoutes);
    assert(variables()[1].1 == Setting::IngressClass);
    assert(variables()[2].1 == Setting::WatchNamespace);
    assert(variables()[3].1 == Setting::PublishAddress);
    assert(variables()[4].1 == Setting::PublishService);
    assert(variables()[5].1 == Setting::DefaultBackend);
    assert(variables()[6].1 == Setting::DefaultTlsSecret);
    assert(variables()[7].1 == Setting::UpdateStatus);
    assert(variables()[8].1 == Setting::HistorySize);
    assert(variables()[9].1 == Setting::AuditWebhook);
    assert(variables()[10].1 == Setting::Http);
    assert(variables()[11].1 == Setting::Https);
    assert(variables()[12].1 == Setting::Admin);
    assert(variables()[13].1 == Setting::ConnectTimeout);
    assert(variables()[14].1 == Setting::ResponseTimeout);
    assert(variables()[15].1 == Setting::ShutdownGrace);
    assert(variables()[16].1 == Setting::MaxConnectAttempts);
    assert(variables()[17].1 == Setting::UpstreamPoolIdle);
    assert(variables()[18].1 == Setting::MaxBufSize);
    assert(variables()[19].1 == Setting::MirrorMaxBody);
    assert(variables()[20].1 == Setting::Engine);
    assert(variables()[21].1 == Setting::Http3);
    assert(variables()[22].1 == Setting::ProxyProtocol);
    assert(variables()[23].1 == Setting::ProxyProtocolTimeout);
    assert(variables()[24].1 == Setting::WorkerThreads);
}

/// An engine's name selects that engine, and no other text selects one.
pub proof fn an_engine_has_one_name(engine: Engine, name: Seq<char>)
    ensures
        engine_value(engine_name(engine)) == Some(engine),
        engine_value(name) == Some(engine) <==> name == engine_name(engine),
        engine_value(name) is None <==> forall|e: Engine| name != #[trigger] engine_name(e),
{
    reveal_strlit("hyper");
    reveal_strlit("uring");
    reveal_strlit("uring-strict");
    assert("hyper"@[0] == 'h' && "uring"@[0] == 'u');
    assert("uring"@.len() == 5 && "uring-strict"@.len() == 12);
    assert(name == engine_name(Engine::Hyper) || name == engine_name(Engine::Uring) || name
        == engine_name(Engine::UringStrict) || engine_value(name) is None);
}

// ---------------------------------------------------------------------------
// What every option does
// ---------------------------------------------------------------------------

/// What two arguments, an option and its value, make of the settings.
pub open spec fn asked(args: ArgsView, name: Seq<char>, value: Seq<char>) -> Result<
    ArgsView,
    ArgErrorView,
> {
    after_arguments(args, seq![ArgumentView::Text(name), ArgumentView::Text(value)])
}

proof fn lemma_asked(args: ArgsView, name: Seq<char>, value: Seq<char>)
    requires
        flag_setting(name) is Some,
    ensures
        asked(args, name, value) == assigned(args, flag_setting(name)->0, name, value),
{
    let input = seq![ArgumentView::Text(name), ArgumentView::Text(value)];
    lemma_a_flag_is_no_switch(args, name);
    text::lemma_first_index_meaning(name, '=');
    assert(option_name(name) =~= name);
    assert(input[0] == ArgumentView::Text(name));
    assert(input[1] == ArgumentView::Text(value));
    assert(input.skip(2).len() == 0);
    assert(value_at(input, name) == Some((value, 2nat)));
    match assigned(args, flag_setting(name)->0, name, value) {
        Ok(next) => {
            assert(one_step(args, input) == Ok::<(ArgsView, nat), ArgErrorView>((next, 2nat)));
            assert(after_arguments(args, input) == after_arguments(next, input.skip(2)));
        },
        Err(error) => {},
    }
}

#[verifier::spinoff_prover]
#[verifier::rlimit(60)]
proof fn lemma_flags()
    ensures
        flag_setting("--static-routes"@) == Some(Setting::StaticRoutes),
        flag_setting("--ingress-class"@) == Some(Setting::IngressClass),
        flag_setting("--watch-namespace"@) == Some(Setting::WatchNamespace),
        flag_setting("--publish-address"@) == Some(Setting::PublishAddress),
        flag_setting("--publish-service"@) == Some(Setting::PublishService),
        flag_setting("--default-backend"@) == Some(Setting::DefaultBackend),
        flag_setting("--default-tls-secret"@) == Some(Setting::DefaultTlsSecret),
        flag_setting("--history-size"@) == Some(Setting::HistorySize),
        flag_setting("--audit-webhook"@) == Some(Setting::AuditWebhook),
        flag_setting("--http"@) == Some(Setting::Http),
        flag_setting("--https"@) == Some(Setting::Https),
        flag_setting("--admin"@) == Some(Setting::Admin),
        flag_setting("--connect-timeout"@) == Some(Setting::ConnectTimeout),
        flag_setting("--response-timeout"@) == Some(Setting::ResponseTimeout),
        flag_setting("--shutdown-grace"@) == Some(Setting::ShutdownGrace),
        flag_setting("--max-connect-attempts"@) == Some(Setting::MaxConnectAttempts),
        flag_setting("--upstream-pool-idle"@) == Some(Setting::UpstreamPoolIdle),
        flag_setting("--max-buf-size"@) == Some(Setting::MaxBufSize),
        flag_setting("--mirror-max-body"@) == Some(Setting::MirrorMaxBody),
        flag_setting("--engine"@) == Some(Setting::Engine),
        flag_setting("--proxy-protocol-timeout"@) == Some(Setting::ProxyProtocolTimeout),
        flag_setting("--worker-threads"@) == Some(Setting::WorkerThreads),
{
    reveal_strlit("--static-routes");
    reveal_strlit("--ingress-class");
    reveal_strlit("--watch-namespace");
    reveal_strlit("--publish-address");
    reveal_strlit("--publish-service");
    reveal_strlit("--default-backend");
    reveal_strlit("--default-tls-secret");
    reveal_strlit("--history-size");
    reveal_strlit("--audit-webhook");
    reveal_strlit("--http");
    reveal_strlit("--https");
    reveal_strlit("--admin");
    reveal_strlit("--connect-timeout");
    reveal_strlit("--response-timeout");
    reveal_strlit("--shutdown-grace");
    reveal_strlit("--max-connect-attempts");
    reveal_strlit("--upstream-pool-idle");
    reveal_strlit("--max-buf-size");
    reveal_strlit("--mirror-max-body");
    reveal_strlit("--engine");
    reveal_strlit("--proxy-protocol-timeout");
    reveal_strlit("--worker-threads");
    assert("--static-routes"@.len() == 15);
    assert("--ingress-class"@.len() == 15);
    assert("--watch-namespace"@.len() == 17);
    assert("--publish-address"@.len() == 17);
    assert("--publish-service"@.len() == 17);
    assert("--default-backend"@.len() == 17);
    assert("--default-tls-secret"@.len() == 20);
    assert("--history-size"@.len() == 14);
    assert("--audit-webhook"@.len() == 15);
    assert("--http"@.len() == 6);
    assert("--https"@.len() == 7);
    assert("--admin"@.len() == 7);
    assert("--connect-timeout"@.len() == 17);
    assert("--response-timeout"@.len() == 18);
    assert("--shutdown-grace"@.len() == 16);
    assert("--max-connect-attempts"@.len() == 22);
    assert("--upstream-pool-idle"@.len() == 20);
    assert("--max-buf-size"@.len() == 14);
    assert("--mirror-max-body"@.len() == 17);
    assert("--engine"@.len() == 8);
    assert("--proxy-protocol-timeout"@.len() == 24);
    assert("--worker-threads"@.len() == 16);
    assert("--static-routes"@[2] == 's');
    assert("--ingress-class"@[2] == 'i');
    assert("--audit-webhook"@[2] == 'a');
    assert("--watch-namespace"@[2] == 'w');
    assert("--publish-address"@[2] == 'p');
    assert("--publish-service"@[2] == 'p');
    assert("--default-backend"@[2] == 'd');
    assert("--connect-timeout"@[2] == 'c');
    assert("--mirror-max-body"@[2] == 'm');
    assert("--publish-address"@[10] == 'a');
    assert("--publish-service"@[10] == 's');
    assert("--default-tls-secret"@[2] == 'd');
    assert("--upstream-pool-idle"@[2] == 'u');
    assert("--history-size"@[2] == 'h');
    assert("--max-buf-size"@[2] == 'm');
    assert("--https"@[2] == 'h');
    assert("--admin"@[2] == 'a');
    assert("--shutdown-grace"@[2] == 's');
    assert("--worker-threads"@[2] == 'w');
}

/// An option that takes a text sets what it names to that text, and nothing else.
pub proof fn a_text_option_sets_what_it_names(args: ArgsView, value: Seq<char>)
    ensures
        asked(args, "--static-routes"@, value) == Ok::<ArgsView, ArgErrorView>(
            ArgsView { static_routes: Some(value), ..args },
        ),
        asked(args, "--watch-namespace"@, value) == Ok::<ArgsView, ArgErrorView>(
            ArgsView { watch_namespace: Some(value), ..args },
        ),
        asked(args, "--publish-address"@, value) == Ok::<ArgsView, ArgErrorView>(
            ArgsView { publish_address: Some(value), ..args },
        ),
        asked(args, "--publish-service"@, value) == Ok::<ArgsView, ArgErrorView>(
            ArgsView { publish_service: Some(value), ..args },
        ),
        asked(args, "--default-tls-secret"@, value) == Ok::<ArgsView, ArgErrorView>(
            ArgsView { default_tls_secret: Some(value), ..args },
        ),
        asked(args, "--audit-webhook"@, value) == Ok::<ArgsView, ArgErrorView>(
            ArgsView { audit_webhook: Some(value), ..args },
        ),
        asked(args, "--ingress-class"@, value) == Ok::<ArgsView, ArgErrorView>(
            ArgsView { ingress_class: value, ..args },
        ),
{
    lemma_flags();
    lemma_asked(args, "--static-routes"@, value);
    lemma_asked(args, "--watch-namespace"@, value);
    lemma_asked(args, "--publish-address"@, value);
    lemma_asked(args, "--publish-service"@, value);
    lemma_asked(args, "--default-tls-secret"@, value);
    lemma_asked(args, "--audit-webhook"@, value);
    lemma_asked(args, "--ingress-class"@, value);
}

proof fn lemma_a_number_reads(n: nat, max: nat)
    requires
        n <= max,
    ensures
        text::unsigned_value(text::decimal(n), max) == Some(n),
{
    text::lemma_numeral_reads_back(n, 10);
}

/// An option that takes a count sets what it names to that count, raised to the
/// least that makes sense of it, and nothing else.
pub proof fn a_count_option_sets_what_it_names(args: ArgsView, n: nat)
    requires
        n <= usize::MAX,
    ensures
        asked(args, "--history-size"@, text::decimal(n)) == Ok::<ArgsView, ArgErrorView>(
            ArgsView {
                history_size: if n == 0 {
                    1
                } else {
                    n
                },
                ..args
            },
        ),
        asked(args, "--max-connect-attempts"@, text::decimal(n)) == Ok::<ArgsView, ArgErrorView>(
            ArgsView {
                max_connect_attempts: if n == 0 {
                    1
                } else {
                    n
                },
                ..args
            },
        ),
        asked(args, "--upstream-pool-idle"@, text::decimal(n)) == Ok::<ArgsView, ArgErrorView>(
            ArgsView {
                upstream_pool_idle: n,
                ..args
            },
        ),
        asked(args, "--max-buf-size"@, text::decimal(n)) == Ok::<ArgsView, ArgErrorView>(
            ArgsView {
                max_buf_size: if n < 8192 {
                    8192
                } else {
                    n
                },
                ..args
            },
        ),
        asked(args, "--mirror-max-body"@, text::decimal(n)) == Ok::<ArgsView, ArgErrorView>(
            ArgsView {
                mirror_max_body: n,
                ..args
            },
        ),
        asked(args, "--worker-threads"@, text::decimal(n)) == Ok::<ArgsView, ArgErrorView>(
            ArgsView {
                worker_threads: Some(
                    if n == 0 {
                        1nat
                    } else {
                        n
                    },
                ),
                ..args
            },
        ),
{
    lemma_flags();
    lemma_a_number_reads(n, usize::MAX as nat);
    lemma_asked(args, "--history-size"@, text::decimal(n));
    lemma_asked(args, "--max-connect-attempts"@, text::decimal(n));
    lemma_asked(args, "--upstream-pool-idle"@, text::decimal(n));
    lemma_asked(args, "--max-buf-size"@, text::decimal(n));
    lemma_asked(args, "--mirror-max-body"@, text::decimal(n));
    lemma_asked(args, "--worker-threads"@, text::decimal(n));
}

/// An option that takes a time sets what it names to so many seconds, and nothing
/// else.
pub proof fn a_time_option_sets_what_it_names(args: ArgsView, n: nat)
    requires
        n <= u64::MAX,
    ensures
        asked(args, "--connect-timeout"@, text::decimal(n)) == Ok::<ArgsView, ArgErrorView>(
            ArgsView { connect_timeout: n * 1_000_000_000, ..args },
        ),
        asked(args, "--response-timeout"@, text::decimal(n)) == Ok::<ArgsView, ArgErrorView>(
            ArgsView { response_timeout: n * 1_000_000_000, ..args },
        ),
        asked(args, "--shutdown-grace"@, text::decimal(n)) == Ok::<ArgsView, ArgErrorView>(
            ArgsView { shutdown_grace: n * 1_000_000_000, ..args },
        ),
        asked(args, "--proxy-protocol-timeout"@, text::decimal(n)) == Ok::<ArgsView, ArgErrorView>(
            ArgsView { proxy_protocol_timeout: n * 1_000_000_000, ..args },
        ),
{
    lemma_flags();
    lemma_a_number_reads(n, u64::MAX as nat);
    lemma_asked(args, "--connect-timeout"@, text::decimal(n));
    lemma_asked(args, "--response-timeout"@, text::decimal(n));
    lemma_asked(args, "--shutdown-grace"@, text::decimal(n));
    lemma_asked(args, "--proxy-protocol-timeout"@, text::decimal(n));
}

proof fn lemma_a_port_is_an_address(port: nat)
    requires
        port <= 65535,
    ensures
        ({
            let any = net::SocketView {
                ip: net::IpView::V4(seq![0u8, 0u8, 0u8, 0u8]),
                port,
                scope_id: 0,
            };
            &&& address_value(text::decimal(port)) == Some(any)
            &&& address_value(seq![':'] + text::decimal(port)) == Some(any)
        }),
{
    lemma_a_number_reads(port, 65535);
    let s = seq![':'] + text::decimal(port);
    assert(s.skip(1) =~= text::decimal(port));
    assert(s[0] == ':');
}

/// An option that takes an address sets the listener it names and no other: a bare
/// port, with a colon in front of it or without, is that port on every interface.
/// Only the address for TLS is remembered as asked for.
pub proof fn an_address_option_sets_what_it_names(args: ArgsView, port: nat, shown: Seq<char>)
    requires
        port <= 65535,
        shown == text::decimal(port) || shown == seq![':'] + text::decimal(port),
    ensures
        ({
            let any = net::SocketView {
                ip: net::IpView::V4(seq![0u8, 0u8, 0u8, 0u8]),
                port,
                scope_id: 0,
            };
            &&& asked(args, "--http"@, shown) == Ok::<ArgsView, ArgErrorView>(
                ArgsView { http: Some(any), ..args },
            )
            &&& asked(args, "--https"@, shown) == Ok::<ArgsView, ArgErrorView>(
                ArgsView { https: Some(any), https_explicit: true, ..args },
            )
            &&& asked(args, "--admin"@, shown) == Ok::<ArgsView, ArgErrorView>(
                ArgsView { admin: Some(any), ..args },
            )
        }),
{
    lemma_flags();
    lemma_a_port_is_an_address(port);
    lemma_asked(args, "--http"@, shown);
    lemma_asked(args, "--https"@, shown);
    lemma_asked(args, "--admin"@, shown);
}

/// The engine and the default backend are set by their own options.
pub proof fn an_engine_and_a_backend_are_set_by_name(args: ArgsView, s: ServiceView)
    requires
        is_service(s),
    ensures
        asked(args, "--engine"@, "hyper"@) == Ok::<ArgsView, ArgErrorView>(
            ArgsView { engine: Engine::Hyper, ..args },
        ),
        asked(args, "--engine"@, "uring"@) == Ok::<ArgsView, ArgErrorView>(
            ArgsView { engine: Engine::Uring, ..args },
        ),
        asked(args, "--engine"@, "uring-strict"@) == Ok::<ArgsView, ArgErrorView>(
            ArgsView { engine: Engine::UringStrict, ..args },
        ),
        asked(args, "--default-backend"@, s.namespace + "/"@ + s.name + ":"@ + s.port) == Ok::<
            ArgsView,
            ArgErrorView,
        >(ArgsView { default_backend: Some(s), ..args }),
{
    lemma_flags();
    an_engine_has_one_name(Engine::Hyper, "hyper"@);
    an_engine_has_one_name(Engine::Uring, "uring"@);
    an_engine_has_one_name(Engine::UringStrict, "uring-strict"@);
    a_reference_reads_back(s);
    lemma_asked(args, "--engine"@, "hyper"@);
    lemma_asked(args, "--engine"@, "uring"@);
    lemma_asked(args, "--engine"@, "uring-strict"@);
    lemma_asked(args, "--default-backend"@, s.namespace + "/"@ + s.name + ":"@ + s.port);
}

/// A value that an option cannot take is refused, with what was expected of it.
pub proof fn a_refused_value_says_what_was_expected(args: ArgsView, value: Seq<char>)
    ensures
        text::unsigned_value(value, usize::MAX as nat) is None ==> asked(args, "--history-size"@, value) == Err::<ArgsView, ArgErrorView>(
            ArgErrorView::BadValue { option: "--history-size"@, value, kind: "count"@ },
        ),
        text::unsigned_value(value, usize::MAX as nat) is None ==> asked(args, "--max-connect-attempts"@, value) == Err::<ArgsView, ArgErrorView>(
            ArgErrorView::BadValue { option: "--max-connect-attempts"@, value, kind: "count"@ },
        ),
        text::unsigned_value(value, usize::MAX as nat) is None ==> asked(args, "--upstream-pool-idle"@, value) == Err::<ArgsView, ArgErrorView>(
            ArgErrorView::BadValue { option: "--upstream-pool-idle"@, value, kind: "count"@ },
        ),
        text::unsigned_value(value, usize::MAX as nat) is None ==> asked(args, "--max-buf-size"@, value) == Err::<ArgsView, ArgErrorView>(
            ArgErrorView::BadValue { option: "--max-buf-size"@, value, kind: "count"@ },
        ),
        text::unsigned_value(value, usize::MAX as nat) is None ==> asked(args, "--mirror-max-body"@, value) == Err::<ArgsView, ArgErrorView>(
            ArgErrorView::BadValue { option: "--mirror-max-body"@, value, kind: "count"@ },
        ),
        text::unsigned_value(value, usize::MAX as nat) is None ==> asked(args, "--worker-threads"@, value) == Err::<ArgsView, ArgErrorView>(
            ArgErrorView::BadValue { option: "--worker-threads"@, value, kind: "count"@ },
        ),
        text::unsigned_value(value, u64::MAX as nat) is None ==> asked(args, "--connect-timeout"@, value) == Err::<ArgsView, ArgErrorView>(
            ArgErrorView::BadValue { option: "--connect-timeout"@, value, kind: "number of seconds"@ },
        ),
        text::unsigned_value(value, u64::MAX as nat) is None ==> asked(args, "--response-timeout"@, value) == Err::<ArgsView, ArgErrorView>(
            ArgErrorView::BadValue { option: "--response-timeout"@, value, kind: "number of seconds"@ },
        ),
        text::unsigned_value(value, u64::MAX as nat) is None ==> asked(args, "--shutdown-grace"@, value) == Err::<ArgsView, ArgErrorView>(
            ArgErrorView::BadValue { option: "--shutdown-grace"@, value, kind: "number of seconds"@ },
        ),
        text::unsigned_value(value, u64::MAX as nat) is None ==> asked(args, "--proxy-protocol-timeout"@, value) == Err::<ArgsView, ArgErrorView>(
            ArgErrorView::BadValue { option: "--proxy-protocol-timeout"@, value, kind: "number of seconds"@ },
        ),
        address_value(value) is None ==> asked(args, "--http"@, value) == Err::<ArgsView, ArgErrorView>(
            ArgErrorView::BadValue { option: "--http"@, value, kind: "address"@ },
        ),
        address_value(value) is None ==> asked(args, "--https"@, value) == Err::<ArgsView, ArgErrorView>(
            ArgErrorView::BadValue { option: "--https"@, value, kind: "address"@ },
        ),
        address_value(value) is None ==> asked(args, "--admin"@, value) == Err::<ArgsView, ArgErrorView>(
            ArgErrorView::BadValue { option: "--admin"@, value, kind: "address"@ },
        ),
        value != "hyper"@ && value != "uring"@ && value != "uring-strict"@ ==> asked(args, "--engine"@, value) == Err::<ArgsView, ArgErrorView>(
            ArgErrorView::BadValue { option: "--engine"@, value, kind: "engine (hyper, uring or uring-strict)"@ },
        ),
        service_value(value) is None ==> asked(args, "--default-backend"@, value) == Err::<ArgsView, ArgErrorView>(
            ArgErrorView::BadValue { option: "--default-backend"@, value, kind: "service reference of the form namespace/name:port"@ },
        ),
{
    lemma_flags();
    lemma_asked(args, "--history-size"@, value);
    lemma_asked(args, "--max-connect-attempts"@, value);
    lemma_asked(args, "--upstream-pool-idle"@, value);
    lemma_asked(args, "--max-buf-size"@, value);
    lemma_asked(args, "--mirror-max-body"@, value);
    lemma_asked(args, "--worker-threads"@, value);
    lemma_asked(args, "--connect-timeout"@, value);
    lemma_asked(args, "--response-timeout"@, value);
    lemma_asked(args, "--shutdown-grace"@, value);
    lemma_asked(args, "--proxy-protocol-timeout"@, value);
    lemma_asked(args, "--http"@, value);
    lemma_asked(args, "--https"@, value);
    lemma_asked(args, "--admin"@, value);
    lemma_asked(args, "--engine"@, value);
    lemma_asked(args, "--default-backend"@, value);
}

#[verifier::spinoff_prover]
#[verifier::rlimit(60)]
proof fn lemma_switches(args: ArgsView)
    ensures
        switched(args, "-h"@) == Some(ArgsView { help: true, ..args }),
        !"-h"@.contains('='),
        switched(args, "--help"@) == Some(ArgsView { help: true, ..args }),
        !"--help"@.contains('='),
        switched(args, "-V"@) == Some(ArgsView { version: true, ..args }),
        !"-V"@.contains('='),
        switched(args, "--version"@) == Some(ArgsView { version: true, ..args }),
        !"--version"@.contains('='),
        switched(args, "--no-status-update"@) == Some(ArgsView { update_status: false, ..args }),
        !"--no-status-update"@.contains('='),
        switched(args, "--no-h2-dispatch"@) == Some(ArgsView { h2_dispatch: false, ..args }),
        !"--no-h2-dispatch"@.contains('='),
        switched(args, "--no-http"@) == Some(ArgsView { http: None, ..args }),
        !"--no-http"@.contains('='),
        switched(args, "--no-https"@) == Some(ArgsView { https: None, https_explicit: true, ..args }),
        !"--no-https"@.contains('='),
        switched(args, "--no-admin"@) == Some(ArgsView { admin: None, ..args }),
        !"--no-admin"@.contains('='),
        switched(args, "--http3"@) == Some(ArgsView { http3: true, ..args }),
        !"--http3"@.contains('='),
        switched(args, "--proxy-protocol"@) == Some(ArgsView { proxy_protocol: true, ..args }),
        !"--proxy-protocol"@.contains('='),
{
    reveal_strlit("-h");
    reveal_strlit("--help");
    reveal_strlit("-V");
    reveal_strlit("--version");
    reveal_strlit("--no-status-update");
    reveal_strlit("--no-h2-dispatch");
    reveal_strlit("--no-http");
    reveal_strlit("--no-https");
    reveal_strlit("--no-admin");
    reveal_strlit("--http3");
    reveal_strlit("--proxy-protocol");
    assert("-h"@.len() == 2);
    assert("--help"@.len() == 6);
    assert("-V"@.len() == 2);
    assert("--version"@.len() == 9);
    assert("--no-status-update"@.len() == 18);
    assert("--no-h2-dispatch"@.len() == 16);
    assert("--no-http"@.len() == 9);
    assert("--no-https"@.len() == 10);
    assert("--no-admin"@.len() == 10);
    assert("--http3"@.len() == 7);
    assert("--proxy-protocol"@.len() == 16);
    assert("-h"@[1] == 'h');
    assert("-V"@[1] == 'V');
    assert("--version"@[2] == 'v');
    assert("--no-http"@[2] == 'n');
    assert("--no-h2-dispatch"@[2] == 'n');
    assert("--proxy-protocol"@[2] == 'p');
    assert("--no-https"@[5] == 'h');
    assert("--no-admin"@[5] == 'a');
}

proof fn lemma_a_switch(args: ArgsView, name: Seq<char>)
    requires
        switched(args, name) is Some,
        !name.contains('='),
    ensures
        after_arguments(args, seq![ArgumentView::Text(name)]) == Ok::<ArgsView, ArgErrorView>(
            switched(args, name)->0,
        ),
{
    let input = seq![ArgumentView::Text(name)];
    text::lemma_first_index_meaning(name, '=');
    assert(option_name(name) =~= name);
    assert(input[0] == ArgumentView::Text(name));
    assert(input.skip(1).len() == 0);
    assert(after_arguments(args, input) == after_arguments(switched(args, name)->0, input.skip(1)));
}

/// A switch takes no value and turns what it names, and nothing else.
pub proof fn a_switch_turns_what_it_names(args: ArgsView)
    ensures
        after_arguments(args, seq![ArgumentView::Text("-h"@)]) == Ok::<ArgsView, ArgErrorView>(
            ArgsView { help: true, ..args },
        ),
        after_arguments(args, seq![ArgumentView::Text("--help"@)]) == Ok::<ArgsView, ArgErrorView>(
            ArgsView { help: true, ..args },
        ),
        after_arguments(args, seq![ArgumentView::Text("-V"@)]) == Ok::<ArgsView, ArgErrorView>(
            ArgsView { version: true, ..args },
        ),
        after_arguments(args, seq![ArgumentView::Text("--version"@)]) == Ok::<ArgsView, ArgErrorView>(
            ArgsView { version: true, ..args },
        ),
        after_arguments(args, seq![ArgumentView::Text("--no-status-update"@)]) == Ok::<ArgsView, ArgErrorView>(
            ArgsView { update_status: false, ..args },
        ),
        after_arguments(args, seq![ArgumentView::Text("--no-h2-dispatch"@)]) == Ok::<ArgsView, ArgErrorView>(
            ArgsView { h2_dispatch: false, ..args },
        ),
        after_arguments(args, seq![ArgumentView::Text("--no-http"@)]) == Ok::<ArgsView, ArgErrorView>(
            ArgsView { http: None, ..args },
        ),
        after_arguments(args, seq![ArgumentView::Text("--no-https"@)]) == Ok::<ArgsView, ArgErrorView>(
            ArgsView { https: None, https_explicit: true, ..args },
        ),
        after_arguments(args, seq![ArgumentView::Text("--no-admin"@)]) == Ok::<ArgsView, ArgErrorView>(
            ArgsView { admin: None, ..args },
        ),
        after_arguments(args, seq![ArgumentView::Text("--http3"@)]) == Ok::<ArgsView, ArgErrorView>(
            ArgsView { http3: true, ..args },
        ),
        after_arguments(args, seq![ArgumentView::Text("--proxy-protocol"@)]) == Ok::<ArgsView, ArgErrorView>(
            ArgsView { proxy_protocol: true, ..args },
        ),
{
    lemma_switches(args);
    lemma_a_switch(args, "-h"@);
    lemma_a_switch(args, "--help"@);
    lemma_a_switch(args, "-V"@);
    lemma_a_switch(args, "--version"@);
    lemma_a_switch(args, "--no-status-update"@);
    lemma_a_switch(args, "--no-h2-dispatch"@);
    lemma_a_switch(args, "--no-http"@);
    lemma_a_switch(args, "--no-https"@);
    lemma_a_switch(args, "--no-admin"@);
    lemma_a_switch(args, "--http3"@);
    lemma_a_switch(args, "--proxy-protocol"@);
}

/// Is a setting read from the variable with a name?
pub open spec fn is_read_from(setting: Setting, name: Seq<char>) -> bool {
    exists|i: int| 0 <= i < variables().len() && #[trigger] variables()[i] == (name, setting)
}

/// An option and its environment twin set the same thing.
pub proof fn an_option_has_an_environment_twin()
    ensures
        is_read_from(flag_setting("--static-routes"@)->0, "RAMJET_STATIC_ROUTES"@),
        is_read_from(flag_setting("--ingress-class"@)->0, "RAMJET_INGRESS_CLASS"@),
        is_read_from(flag_setting("--watch-namespace"@)->0, "RAMJET_WATCH_NAMESPACE"@),
        is_read_from(flag_setting("--publish-address"@)->0, "RAMJET_PUBLISH_ADDRESS"@),
        is_read_from(flag_setting("--publish-service"@)->0, "RAMJET_PUBLISH_SERVICE"@),
        is_read_from(flag_setting("--default-backend"@)->0, "RAMJET_DEFAULT_BACKEND"@),
        is_read_from(flag_setting("--default-tls-secret"@)->0, "RAMJET_DEFAULT_TLS_SECRET"@),
        is_read_from(flag_setting("--history-size"@)->0, "RAMJET_HISTORY_SIZE"@),
        is_read_from(flag_setting("--audit-webhook"@)->0, "RAMJET_AUDIT_WEBHOOK"@),
        is_read_from(flag_setting("--http"@)->0, "RAMJET_HTTP"@),
        is_read_from(flag_setting("--https"@)->0, "RAMJET_HTTPS"@),
        is_read_from(flag_setting("--admin"@)->0, "RAMJET_ADMIN"@),
        is_read_from(flag_setting("--connect-timeout"@)->0, "RAMJET_CONNECT_TIMEOUT"@),
        is_read_from(flag_setting("--response-timeout"@)->0, "RAMJET_RESPONSE_TIMEOUT"@),
        is_read_from(flag_setting("--shutdown-grace"@)->0, "RAMJET_SHUTDOWN_GRACE"@),
        is_read_from(flag_setting("--max-connect-attempts"@)->0, "RAMJET_MAX_CONNECT_ATTEMPTS"@),
        is_read_from(flag_setting("--upstream-pool-idle"@)->0, "RAMJET_UPSTREAM_POOL_IDLE"@),
        is_read_from(flag_setting("--max-buf-size"@)->0, "RAMJET_MAX_BUF_SIZE"@),
        is_read_from(flag_setting("--mirror-max-body"@)->0, "RAMJET_MIRROR_MAX_BODY"@),
        is_read_from(flag_setting("--engine"@)->0, "RAMJET_ENGINE"@),
        is_read_from(flag_setting("--proxy-protocol-timeout"@)->0, "RAMJET_PROXY_PROTOCOL_TIMEOUT"@),
        is_read_from(flag_setting("--worker-threads"@)->0, "RAMJET_WORKER_THREADS"@),
{
    lemma_flags();
    assert(variables()[0] == ("RAMJET_STATIC_ROUTES"@, Setting::StaticRoutes));
    assert(variables()[1] == ("RAMJET_INGRESS_CLASS"@, Setting::IngressClass));
    assert(variables()[2] == ("RAMJET_WATCH_NAMESPACE"@, Setting::WatchNamespace));
    assert(variables()[3] == ("RAMJET_PUBLISH_ADDRESS"@, Setting::PublishAddress));
    assert(variables()[4] == ("RAMJET_PUBLISH_SERVICE"@, Setting::PublishService));
    assert(variables()[5] == ("RAMJET_DEFAULT_BACKEND"@, Setting::DefaultBackend));
    assert(variables()[6] == ("RAMJET_DEFAULT_TLS_SECRET"@, Setting::DefaultTlsSecret));
    assert(variables()[8] == ("RAMJET_HISTORY_SIZE"@, Setting::HistorySize));
    assert(variables()[9] == ("RAMJET_AUDIT_WEBHOOK"@, Setting::AuditWebhook));
    assert(variables()[10] == ("RAMJET_HTTP"@, Setting::Http));
    assert(variables()[11] == ("RAMJET_HTTPS"@, Setting::Https));
    assert(variables()[12] == ("RAMJET_ADMIN"@, Setting::Admin));
    assert(variables()[13] == ("RAMJET_CONNECT_TIMEOUT"@, Setting::ConnectTimeout));
    assert(variables()[14] == ("RAMJET_RESPONSE_TIMEOUT"@, Setting::ResponseTimeout));
    assert(variables()[15] == ("RAMJET_SHUTDOWN_GRACE"@, Setting::ShutdownGrace));
    assert(variables()[16] == ("RAMJET_MAX_CONNECT_ATTEMPTS"@, Setting::MaxConnectAttempts));
    assert(variables()[17] == ("RAMJET_UPSTREAM_POOL_IDLE"@, Setting::UpstreamPoolIdle));
    assert(variables()[18] == ("RAMJET_MAX_BUF_SIZE"@, Setting::MaxBufSize));
    assert(variables()[19] == ("RAMJET_MIRROR_MAX_BODY"@, Setting::MirrorMaxBody));
    assert(variables()[20] == ("RAMJET_ENGINE"@, Setting::Engine));
    assert(variables()[23] == ("RAMJET_PROXY_PROTOCOL_TIMEOUT"@, Setting::ProxyProtocolTimeout));
    assert(variables()[24] == ("RAMJET_WORKER_THREADS"@, Setting::WorkerThreads));
}

/// The three switches that the environment can turn either way are turned by their
/// own variables.
pub proof fn a_switch_has_an_environment_twin(args: ArgsView, value: Seq<char>, on: bool)
    requires
        boolean_value(value) == Some(on),
    ensures
        exists|s: Setting|
            is_read_from(s, "RAMJET_UPDATE_STATUS"@) && #[trigger] changed(args, s, value) == Some(
                ArgsView { update_status: on, ..args },
            ),
        exists|s: Setting|
            is_read_from(s, "RAMJET_HTTP3"@) && #[trigger] changed(args, s, value) == Some(
                ArgsView { http3: on, ..args },
            ),
        exists|s: Setting|
            is_read_from(s, "RAMJET_PROXY_PROTOCOL"@) && #[trigger] changed(args, s, value) == Some(
                ArgsView { proxy_protocol: on, ..args },
            ),
{
    assert(variables()[7] == ("RAMJET_UPDATE_STATUS"@, Setting::UpdateStatus));
    assert(variables()[21] == ("RAMJET_HTTP3"@, Setting::Http3));
    assert(variables()[22] == ("RAMJET_PROXY_PROTOCOL"@, Setting::ProxyProtocol));
    assert(changed(args, Setting::UpdateStatus, value) == Some(
        ArgsView { update_status: on, ..args },
    ));
    assert(changed(args, Setting::Http3, value) == Some(ArgsView { http3: on, ..args }));
    assert(changed(args, Setting::ProxyProtocol, value) == Some(
        ArgsView { proxy_protocol: on, ..args },
    ));
}

proof fn lemma_trimming_a_word(s: Seq<char>)
    requires
        s.len() > 0,
        !text::is_space(s[0]),
        !text::is_space(s.last()),
    ensures
        text::trimmed(s) == s,
{
}

/// Four words say yes and four say no, in whatever case.
pub proof fn a_boolean_has_eight_names(s: Seq<char>)
    requires
        s.len() > 0,
        !text::is_space(s[0]),
        !text::is_space(s.last()),
    ensures
        boolean_value(s) == Some(true) <==> (text::lower(s) == "true"@ || text::lower(s) == "1"@
            || text::lower(s) == "yes"@ || text::lower(s) == "on"@),
        boolean_value(s) == Some(false) <==> (text::lower(s) == "false"@ || text::lower(s) == "0"@
            || text::lower(s) == "no"@ || text::lower(s) == "off"@),
{
    reveal_strlit("true");
    reveal_strlit("1");
    reveal_strlit("yes");
    reveal_strlit("on");
    reveal_strlit("false");
    reveal_strlit("0");
    reveal_strlit("no");
    reveal_strlit("off");
    assert("true"@[0] == 't' && "1"@[0] == '1' && "yes"@[0] == 'y' && "on"@[0] == 'o');
    assert("false"@[0] == 'f' && "0"@[0] == '0' && "no"@[0] == 'n' && "off"@[0] == 'o');
    assert("on"@.len() == 2 && "off"@.len() == 3);
    lemma_trimming_a_word(s);
}

/// With nothing asked for, the daemon answers to the class `ramjet`, listens on
/// three ports of every interface, and is bounded as the usage text says.
pub proof fn nothing_asked_for_leaves_the_defaults(input: Seq<ArgumentView>, env: Seq<(String, String)>)
    requires
        input.len() == 0,
        env.len() == 0,
    ensures
        parsed(input, env) matches Ok(a) && {
            &&& !a.help && !a.version && !a.http3 && !a.proxy_protocol && !a.https_explicit
            &&& a.update_status && a.h2_dispatch
            &&& a.static_routes is None && a.watch_namespace is None
            &&& a.publish_address is None && a.publish_service is None
            &&& a.default_backend is None && a.default_tls_secret is None
            &&& a.audit_webhook is None && a.worker_threads is None
            &&& a.ingress_class == "ramjet"@
            &&& a.http matches Some(at) && at.port == 8080 && at.ip == net::IpView::V4(
                seq![0u8, 0u8, 0u8, 0u8],
            )
            &&& a.https matches Some(at) && at.port == 8443 && at.ip == net::IpView::V4(
                seq![0u8, 0u8, 0u8, 0u8],
            )
            &&& a.admin matches Some(at) && at.port == 10254 && at.ip == net::IpView::V4(
                seq![0u8, 0u8, 0u8, 0u8],
            )
            &&& a.connect_timeout == 5 * 1_000_000_000
            &&& a.response_timeout == 60 * 1_000_000_000
            &&& a.shutdown_grace == 30 * 1_000_000_000
            &&& a.proxy_protocol_timeout == 5 * 1_000_000_000
            &&& a.history_size == 10 && a.max_connect_attempts == 3
            &&& a.upstream_pool_idle == 128 && a.max_buf_size == 65536
            &&& a.mirror_max_body == 262144
            &&& a.engine == Engine::Hyper
        },
{
    reveal_with_fuel(after_variables, 26);
    assert(environment_value(env) == Ok::<ArgsView, ArgErrorView>(defaults()));
}

/// HTTP/3 needs the engine that speaks it and the port of TLS, and nothing else is
/// in conflict.
pub proof fn http3_needs_hyper_and_a_port(input: Seq<ArgumentView>, env: Seq<(String, String)>)
    requires
        environment_value(env) is Ok,
        after_arguments(environment_value(env)->Ok_0, input) is Ok,
    ensures
        ({
            let a = after_arguments(environment_value(env)->Ok_0, input)->Ok_0;
            &&& parsed(input, env) is Err <==> (!a.help && !a.version && a.http3 && (a.engine
                != Engine::Hyper || a.https is None))
            &&& parsed(input, env) matches Err(e) ==> e is Conflict
            &&& parsed(input, env) matches Ok(b) ==> b == a
        }),
{
}

proof fn lemma_every_option_starts_with_a_dash(args: ArgsView, name: Seq<char>)
    requires
        name.len() == 0 || name[0] != '-',
    ensures
        switched(args, name) is None,
        flag_setting(name) is None,
{
    reveal_strlit("--static-routes");
    reveal_strlit("--ingress-class");
    reveal_strlit("--watch-namespace");
    reveal_strlit("--publish-address");
    reveal_strlit("--publish-service");
    reveal_strlit("--default-backend");
    reveal_strlit("--default-tls-secret");
    reveal_strlit("--history-size");
    reveal_strlit("--audit-webhook");
    reveal_strlit("--http");
    reveal_strlit("--https");
    reveal_strlit("--admin");
    reveal_strlit("--connect-timeout");
    reveal_strlit("--response-timeout");
    reveal_strlit("--shutdown-grace");
    reveal_strlit("--max-connect-attempts");
    reveal_strlit("--upstream-pool-idle");
    reveal_strlit("--max-buf-size");
    reveal_strlit("--mirror-max-body");
    reveal_strlit("--engine");
    reveal_strlit("--proxy-protocol-timeout");
    reveal_strlit("--worker-threads");
    reveal_strlit("-h");
    reveal_strlit("--help");
    reveal_strlit("-V");
    reveal_strlit("--version");
    reveal_strlit("--no-status-update");
    reveal_strlit("--no-h2-dispatch");
    reveal_strlit("--no-http");
    reveal_strlit("--no-https");
    reveal_strlit("--no-admin");
    reveal_strlit("--http3");
    reveal_strlit("--proxy-protocol");
    assert("--static-routes"@[0] == '-');
    assert("--ingress-class"@[0] == '-');
    assert("--watch-namespace"@[0] == '-');
    assert("--publish-address"@[0] == '-');
    assert("--publish-service"@[0] == '-');
    assert("--default-backend"@[0] == '-');
    assert("--default-tls-secret"@[0] == '-');
    assert("--history-size"@[0] == '-');
    assert("--audit-webhook"@[0] == '-');
    assert("--http"@[0] == '-');
    assert("--https"@[0] == '-');
    assert("--admin"@[0] == '-');
    assert("--connect-timeout"@[0] == '-');
    assert("--response-timeout"@[0] == '-');
    assert("--shutdown-grace"@[0] == '-');
    assert("--max-connect-attempts"@[0] == '-');
    assert("--upstream-pool-idle"@[0] == '-');
    assert("--max-buf-size"@[0] == '-');
    assert("--mirror-max-body"@[0] == '-');
    assert("--engine"@[0] == '-');
    assert("--proxy-protocol-timeout"@[0] == '-');
    assert("--worker-threads"@[0] == '-');
    assert("-h"@[0] == '-');
    assert("--help"@[0] == '-');
    assert("-V"@[0] == '-');
    assert("--version"@[0] == '-');
    assert("--no-status-update"@[0] == '-');
    assert("--no-h2-dispatch"@[0] == '-');
    assert("--no-http"@[0] == '-');
    assert("--no-https"@[0] == '-');
    assert("--no-admin"@[0] == '-');
    assert("--http3"@[0] == '-');
    assert("--proxy-protocol"@[0] == '-');
}

/// An argument that is no option is refused by name, whatever follows it.
pub proof fn a_bare_word_is_refused(args: ArgsView, word: Seq<char>, rest: Seq<ArgumentView>)
    requires
        word.len() == 0 || word[0] != '-',
        !word.contains('='),
    ensures
        after_arguments(args, seq![ArgumentView::Text(word)] + rest) == Err::<ArgsView, ArgErrorView>(
            ArgErrorView::Unexpected(word),
        ),
{
    let input = seq![ArgumentView::Text(word)] + rest;
    text::lemma_first_index_meaning(word, '=');
    assert(option_name(word) =~= word);
    assert(input[0] == ArgumentView::Text(word));
    lemma_every_option_starts_with_a_dash(args, word);
}

/// An option that does not exist is refused by name, and so is one that exists
/// and is given without its value, and an argument that is no text.
pub proof fn an_unknown_option_is_refused(
    args: ArgsView,
    name: Seq<char>,
    shown: Seq<char>,
    rest: Seq<ArgumentView>,
)
    ensures
        name.len() > 0 && name[0] == '-' && !name.contains('=') && flag_setting(name) is None
            && switched(args, name) is None ==> after_arguments(
            args,
            seq![ArgumentView::Text(name)] + rest,
        ) == Err::<ArgsView, ArgErrorView>(ArgErrorView::Unknown(name)),
        flag_setting(name) is Some ==> after_arguments(args, seq![ArgumentView::Text(name)])
            == Err::<ArgsView, ArgErrorView>(ArgErrorView::MissingValue(name)),
        after_arguments(args, seq![ArgumentView::Raw(shown)] + rest) == Err::<
            ArgsView,
            ArgErrorView,
        >(ArgErrorView::NotUtf8(shown)),
{
    let input = seq![ArgumentView::Text(name)] + rest;
    assert(input[0] == ArgumentView::Text(name));
    let alone = seq![ArgumentView::Text(name)];
    assert(alone[0] == ArgumentView::Text(name));
    text::lemma_first_index_meaning(name, '=');
    if !name.contains('=') {
        assert(option_name(name) =~= name);
    }
    if flag_setting(name) is Some {
        lemma_a_flag_is_no_switch(args, name);
        assert(option_name(name) =~= name);
        assert(value_at(alone, name) is None);
    }
    assert((seq![ArgumentView::Raw(shown)] + rest)[0] == ArgumentView::Raw(shown));
}

/// An error says what was wrong and where: the option it was given for, the value
/// that was given, and what was expected.
pub proof fn an_error_names_what_was_wrong(a: Seq<char>, b: Seq<char>, c: Seq<char>)
    ensures
        arg_error_text(ArgErrorView::Unknown(a)) == "unknown option `"@ + a + "` (try --help)"@,
        arg_error_text(ArgErrorView::MissingValue(a)) == "option `"@ + a + "` needs a value"@,
        arg_error_text(ArgErrorView::Unexpected(a)) == "unexpected argument `"@ + a
            + "` (every option is a --flag)"@,
        arg_error_text(ArgErrorView::NotUtf8(a)) == "argument "@ + a + " is not valid UTF-8"@,
        arg_error_text(ArgErrorView::Conflict(a)) == a,
        arg_error_text(ArgErrorView::BadValue { option: a, value: b, kind: c }) == "`"@ + b
            + "` is not a valid "@ + c + " for `"@ + a + "`"@,
{
}

/// A variable has the value it was first given, and none where it was not given.
pub proof fn a_variable_is_looked_up_by_name(env: Seq<(String, String)>, name: Seq<char>, i: int)
    requires
        0 <= i < env.len(),
        forall|j: int| 0 <= j < i ==> (#[trigger] env[j]).0@ != name,
    ensures
        env[i].0@ == name ==> looked_up(env, name) == Some(env[i].1@),
        i == env.len() - 1 && env[i].0@ != name ==> looked_up(env, name) is None,
    decreases env.len(),
{
    reveal_with_fuel(looked_up, 2);
    if i > 0 {
        let rest = env.skip(1);
        assert(env[0].0@ != name);
        assert forall|j: int| 0 <= j < i - 1 implies (#[trigger] rest[j]).0@ != name by {
            assert(rest[j] == env[j + 1]);
        }
        assert(rest[i - 1] == env[i]);
        a_variable_is_looked_up_by_name(rest, name, i - 1);
    }
}

} // verus!
