//! What the listeners serve with, how an accepted connection finds a thread, and
//! what counts as a clean drain.
//!
//! One accept loop feeds a fixed number of serving lanes in turn. A connection
//! belongs to the lane it was handed to until it closes. The admin listener is
//! apart from all that: it is neither counted nor handed out, so a scrape never
//! looks like traffic. On shutdown the sockets close first, and then whatever is
//! in flight gets the grace period.
use http::{HeaderMap, HeaderValue};
use vstd::prelude::*;
use crate::forward::{ConnInfo, Scheme};
use crate::header_map;
use crate::history::DEFAULT_HISTORY_SIZE;
use crate::http3;
use crate::http3::alt_svc_value;
use crate::listener::ListenerConfig;
use crate::metrics;
use crate::metrics::{ConnectionGuard, Metrics};
use crate::mirror::DEFAULT_MIRROR_MAX_BODY;
use crate::net;
use crate::net::SocketAddr;
use crate::proxy_protocol::AcceptError;
use crate::text;
use crate::text::push_text;
use crate::time::Duration;
use crate::upstream;
use crate::upstream::UpstreamConfig;

verus! {

/// Default plaintext port.
pub const DEFAULT_HTTP_PORT: u16 = 8080;

/// Default TLS port.
pub const DEFAULT_HTTPS_PORT: u16 = 8443;

/// Default admin port.
pub const DEFAULT_ADMIN_PORT: u16 = 10254;

/// Ceiling on one client connection's HTTP/1 buffers when nothing else is asked
/// for. It bounds the tail: a connection that carries ordinary requests costs the
/// same either way.
pub const DEFAULT_MAX_BUF_SIZE: usize = 65536;

/// The smallest ceiling the HTTP/1 implementation accepts.
pub const MIN_MAX_BUF_SIZE: usize = 8192;

/// The field that advertises HTTP/3.
pub const ALT_SVC: &'static str = "alt-svc";

/// How long to pause after an accept error. Out of file descriptors, `accept`
/// fails at once and forever, and without a pause the loop would spin.
pub fn accept_backoff() -> (r: Duration)
    ensures
        r@ == 10_000_000,
{
    Duration::from_millis(10)
}

/// Everything the data plane needs to start listening.
#[derive(Debug, Clone, Copy)]
pub struct ProxyConfig {
    /// Plaintext listener, or `None` to serve TLS only.
    pub http: Option<ListenerConfig>,
    /// TLS listener, or `None` to serve plaintext only.
    pub https: Option<ListenerConfig>,
    /// Admin listener, or `None` to disable metrics and probes.
    pub admin: Option<ListenerConfig>,
    /// Upstream timeouts and pooling.
    pub upstream: UpstreamConfig,
    /// How long in-flight requests get to finish after a shutdown signal.
    pub shutdown_grace: Duration,
    /// Serving lanes to start. `None` means one per core.
    pub worker_threads: Option<usize>,
    /// Ceiling on one connection's HTTP/1 buffers.
    pub max_buf_size: usize,
    /// Generations kept for rollback.
    pub history_size: usize,
    /// Largest request body copied to a mirror backend.
    pub mirror_max_body: usize,
    /// Require a PROXY protocol header on the traffic listeners, waiting this
    /// long for it. The admin listener never asks for one.
    pub proxy_protocol: Option<Duration>,
    /// UDP address for HTTP/3, or `None` for no QUIC socket at all.
    pub http3: Option<SocketAddr>,
}

/// Does a configuration listen on a port of every IPv4 address, with the options
/// every listener wants?
pub open spec fn listens_on(config: Option<ListenerConfig>, port: nat) -> bool {
    config matches Some(listener) && {
        &&& listener.addr@ == net::SocketView {
            ip: net::IpView::V4(seq![0u8, 0u8, 0u8, 0u8]),
            port,
            scope_id: 0,
        }
        &&& listener.backlog == 1024
        &&& listener.reuse_port
        &&& listener.nodelay
    }
}

impl Default for ProxyConfig {
    fn default() -> (r: ProxyConfig)
        ensures
            listens_on(r.http, DEFAULT_HTTP_PORT as nat),
            listens_on(r.https, DEFAULT_HTTPS_PORT as nat),
            listens_on(r.admin, DEFAULT_ADMIN_PORT as nat),
            upstream::is_default(r.upstream),
            r.shutdown_grace@ == 30_000_000_000,
            r.worker_threads is None,
            r.max_buf_size == DEFAULT_MAX_BUF_SIZE,
            r.history_size == DEFAULT_HISTORY_SIZE,
            r.mirror_max_body == DEFAULT_MIRROR_MAX_BODY,
            r.proxy_protocol is None,
            r.http3 is None,
    {
        ProxyConfig {
            http: Some(ListenerConfig::new(SocketAddr::v4([0, 0, 0, 0], DEFAULT_HTTP_PORT))),
            https: Some(ListenerConfig::new(SocketAddr::v4([0, 0, 0, 0], DEFAULT_HTTPS_PORT))),
            admin: Some(ListenerConfig::new(SocketAddr::v4([0, 0, 0, 0], DEFAULT_ADMIN_PORT))),
            upstream: UpstreamConfig::default(),
            shutdown_grace: Duration::from_secs(30),
            worker_threads: None,
            max_buf_size: DEFAULT_MAX_BUF_SIZE,
            history_size: DEFAULT_HISTORY_SIZE,
            mirror_max_body: DEFAULT_MIRROR_MAX_BODY,
            proxy_protocol: None,
            http3: None,
        }
    }
}

/// What is built around the sockets a configuration asks for.
#[derive(Debug, Clone, Copy, PartialEq, Eq, Structural)]
pub struct Wanted {
    /// One resolver that picks certificates, shared by every TLS listener so that
    /// no two of them can answer for a name differently.
    pub resolver: bool,
    /// A TLS configuration for the TCP listener.
    pub tls: bool,
    /// A QUIC endpoint.
    pub quic: bool,
}

impl ProxyConfig {
    /// What has to be built beside the sockets. A TLS configuration without a
    /// listener would only hide that there is none.
    pub fn wanted(&self) -> (r: Wanted)
        ensures
            r.tls == (self.https is Some),
            r.quic == (self.http3 is Some),
            r.resolver == (r.tls || r.quic),
    {
        let tls = self.https.is_some();
        let quic = self.http3.is_some();
        Wanted { resolver: tls || quic, tls, quic }
    }

    /// The ceiling the HTTP/1 implementation is given: the configured one, raised
    /// to the smallest it accepts.
    pub fn buffer_ceiling(&self) -> (r: usize)
        ensures
            r == buffer_ceiling(self.max_buf_size),
    {
        if self.max_buf_size < MIN_MAX_BUF_SIZE {
            MIN_MAX_BUF_SIZE
        } else {
            self.max_buf_size
        }
    }
}

/// A configured ceiling, raised to the smallest that is accepted.
pub open spec fn buffer_ceiling(configured: usize) -> usize {
    if configured < MIN_MAX_BUF_SIZE {
        MIN_MAX_BUF_SIZE
    } else {
        configured
    }
}

/// The number of lanes for what was asked for and the cores there are, where that is
/// known.
pub open spec fn lanes_for(configured: Option<usize>, cores: Option<usize>) -> usize {
    match configured {
        Some(count) => at_least_one(count),
        None => match cores {
            Some(count) => at_least_one(count),
            None => 1,
        },
    }
}

/// How many serving lanes to start: as many as were asked for, else one per core
/// where the number of cores is known, and never fewer than one. A data plane
/// with nowhere to serve is not a configuration, it is a hang.
pub fn worker_threads(configured: Option<usize>, cores: Option<usize>) -> (r: usize)
    ensures
        r >= 1,
        r == match (configured, cores) {
            (Some(count), _) => at_least_one(count),
            (None, Some(count)) => at_least_one(count),
            (None, None) => 1,
        },
        r == lanes_for(configured, cores),
{
    let count: usize = match (configured, cores) {
        (Some(count), _) => count,
        (None, Some(count)) => count,
        (None, None) => 1,
    };
    if count == 0 {
        1
    } else {
        count
    }
}

/// A count, or one in the place of none.
pub open spec fn at_least_one(count: usize) -> usize {
    if count == 0 {
        1
    } else {
        count
    }
}

// ---------------------------------------------------------------------------
// Handing connections to lanes
// ---------------------------------------------------------------------------

/// The lanes and whose turn it is.
#[verifier::ext_equal]
pub struct Rota {
    pub lanes: nat,
    pub next: nat,
}

impl Rota {
    /// The lane whose turn it is.
    pub open spec fn turn(self) -> nat {
        self.next % self.lanes
    }

    /// The rota once a connection has been handed out.
    pub open spec fn advanced(self) -> Rota {
        Rota {
            next: if self.next == usize::MAX {
                0
            } else {
                self.next + 1
            },
            ..self
        }
    }

    /// The rota after several connections.
    pub open spec fn after(self, count: nat) -> Rota
        decreases count,
    {
        if count == 0 {
            self
        } else {
            self.after((count - 1) as nat).advanced()
        }
    }
}

/// The serving lanes and the round-robin over them.
///
/// In turn rather than to the least loaded: connection counts even out over
/// anything longer than a burst, and nothing has to be read to pick.
#[derive(Debug)]
pub struct Workers {
    lanes: usize,
    next: usize,
}

impl View for Workers {
    type V = Rota;

    closed spec fn view(&self) -> Rota {
        Rota { lanes: self.lanes as nat, next: self.next as nat }
    }
}

impl Workers {
    /// So many lanes, the first one first.
    pub fn new(lanes: usize) -> (r: Workers)
        ensures
            r@ == (Rota { lanes: lanes as nat, next: 0 }),
    {
        Workers { lanes, next: 0 }
    }

    /// The lane the next connection goes to, or `None` when there is no lane.
    pub fn dispatch(&mut self) -> (r: Option<usize>)
        ensures
            old(self)@.lanes == 0 ==> r is None && final(self)@ == old(self)@,
            old(self)@.lanes > 0 ==> (r matches Some(lane) && lane == old(self)@.turn() && lane
                < old(self)@.lanes) && final(self)@ == old(self)@.advanced(),
    {
        if self.lanes == 0 {
            return None;
        }
        let lane: usize = self.next % self.lanes;
        self.next = self.next.wrapping_add(1);
        Some(lane)
    }

    /// Closes every lane: nothing is handed out from here on.
    pub fn close(&mut self)
        ensures
            final(self)@ == (Rota { lanes: 0, ..old(self)@ }),
    {
        self.lanes = 0;
    }

    /// The counter shard of the QUIC listener: the one past the lanes' own.
    pub fn quic_shard(&self) -> (r: usize)
        ensures
            r == self@.lanes,
    {
        self.lanes
    }
}

proof fn lemma_after(rota: Rota, count: nat)
    requires
        rota.next + count <= usize::MAX,
    ensures
        rota.after(count) == (Rota { next: rota.next + count, ..rota }),
    decreases count,
{
    if count > 0 {
        lemma_after(rota, (count - 1) as nat);
    }
}

/// Among as many consecutive connections as there are lanes, no lane is handed
/// two, so each is handed one. (Where the counter starts over in between, two may
/// meet.)
pub proof fn every_lane_takes_its_turn(rota: Rota, i: nat, j: nat)
    requires
        rota.lanes > 0,
        i < j < rota.lanes,
        rota.next + rota.lanes <= usize::MAX,
    ensures
        rota.after(i).turn() < rota.lanes,
        rota.after(i).turn() != rota.after(j).turn(),
        rota.after(rota.lanes).turn() == rota.turn(),
{
    lemma_after(rota, i);
    lemma_after(rota, j);
    lemma_after(rota, rota.lanes);
    let a = (rota.next + i) as int;
    let b = (rota.next + j) as int;
    let n = rota.lanes as int;
    if a % n == b % n {
        vstd::arithmetic::div_mod::lemma_fundamental_div_mod(a, n);
        vstd::arithmetic::div_mod::lemma_fundamental_div_mod(b, n);
        let turns = b / n - a / n;
        vstd::arithmetic::mul::lemma_mul_is_distributive_sub(n, b / n, a / n);
        assert(b - a == n * turns);
        if turns <= 0 {
            assert(n * turns <= 0) by (nonlinear_arith)
                requires
                    n > 0,
                    turns <= 0,
            ;
        } else {
            assert(n * turns >= n) by (nonlinear_arith)
                requires
                    n > 0,
                    turns >= 1,
            ;
        }
    }
    vstd::arithmetic::div_mod::lemma_mod_add_multiples_vanish(rota.next as int, n);
    assert((rota.next + n) % n == rota.next as int % n);
}

/// No serving lane shares its counter shard with the QUIC listener.
pub proof fn quic_counts_apart(rota: Rota)
    requires
        rota.lanes > 0,
    ensures
        rota.turn() != rota.lanes,
{
}

// ---------------------------------------------------------------------------
// The accept loop
// ---------------------------------------------------------------------------

/// A listener of the accept loop.
#[derive(Debug, Clone, Copy, PartialEq, Eq, Structural)]
pub enum Door {
    Http,
    Https,
    Admin,
}

/// What the accept loop was woken by. Where several are ready at once, shutdown
/// is looked at first: there is no reason to take one more connection.
#[derive(Debug)]
pub enum Arrival {
    /// Shutdown was requested.
    Shutdown,
    /// A connection was accepted.
    Accepted { door: Door, remote: SocketAddr },
    /// An accept failed.
    Failed,
}

/// What the accept loop does next.
#[derive(Debug)]
pub enum Turn {
    /// Close the sockets and drain.
    Stop,
    /// Hand the connection to a serving lane.
    Hand { lane: usize, guard: ConnectionGuard, conn: ConnInfo },
    /// Serve the connection on the spot, as the admin endpoint.
    Admin,
    /// Close the connection.
    Close,
    /// Wait this long before accepting again.
    Pause(Duration),
}

/// Which scheme the connections of a traffic listener speak.
pub open spec fn door_scheme(door: Door) -> Scheme {
    match door {
        Door::Https => Scheme::Https,
        _ => Scheme::Http,
    }
}

/// The accept loop between two events.
#[derive(Debug)]
pub struct Accepting {
    pub workers: Workers,
    /// Whether there is a TLS configuration to serve the TLS listener with.
    pub tls: bool,
}

impl Accepting {
    /// Is a connection of this listener handed to a lane?
    pub open spec fn serves(self, door: Door) -> bool {
        match door {
            Door::Http => self.workers@.lanes > 0,
            Door::Https => self.tls && self.workers@.lanes > 0,
            Door::Admin => false,
        }
    }

    /// Is this the answer to an event?
    pub open spec fn answers(self, arrival: Arrival, r: Turn) -> bool {
        match arrival {
            Arrival::Shutdown => r is Stop,
            Arrival::Failed => r matches Turn::Pause(span) && span@ == 10_000_000,
            Arrival::Accepted { door, remote } => if door == Door::Admin {
                r is Admin
            } else if self.serves(door) {
                r matches Turn::Hand { lane, guard: _, conn } && lane == self.workers@.turn()
                    && conn.remote == remote && conn.scheme == door_scheme(door)
            } else {
                r is Close
            },
        }
    }

    /// Decides what to do about an event. A connection is counted exactly when it
    /// is handed to a lane.
    pub fn on(&mut self, arrival: Arrival, metrics: &mut Metrics) -> (r: Turn)
        ensures
            final(self).tls == old(self).tls,
            old(self).answers(arrival, r),
            match arrival {
                Arrival::Shutdown => r is Stop,
                Arrival::Failed => r matches Turn::Pause(span) && span@ == 10_000_000,
                Arrival::Accepted { door, remote } => if door == Door::Admin {
                    r is Admin
                } else if old(self).serves(door) {
                    r matches Turn::Hand { lane, guard: _, conn } && lane
                        == old(self).workers@.turn() && conn == (ConnInfo {
                        remote,
                        scheme: door_scheme(door),
                    })
                } else {
                    r is Close
                },
            },
            r is Hand ==> final(self).workers@ == old(self).workers@.advanced()
                && *final(metrics) == (Metrics {
                active_connections: metrics::next_connections(old(metrics).active_connections),
                ..*old(metrics)
            }),
            !(r is Hand) ==> final(self).workers@ == old(self).workers@ && *final(metrics) == *old(
                metrics,
            ),
    {
        match arrival {
            Arrival::Shutdown => Turn::Stop,
            Arrival::Failed => Turn::Pause(accept_backoff()),
            Arrival::Accepted { door, remote } => {
                let scheme = match door {
                    Door::Admin => {
                        return Turn::Admin;
                    },
                    Door::Https => {
                        if !self.tls {
                            return Turn::Close;
                        }
                        Scheme::Https
                    },
                    Door::Http => Scheme::Http,
                };
                match self.workers.dispatch() {
                    Some(lane) => {
                        let guard = metrics.connection_opened();
                        Turn::Hand { lane, guard, conn: ConnInfo { remote, scheme } }
                    },
                    None => Turn::Close,
                }
            },
        }
    }
}

// ---------------------------------------------------------------------------
// One connection
// ---------------------------------------------------------------------------

/// What a lane does next with a connection.
#[derive(Debug)]
pub enum Act {
    /// Read a PROXY header first, waiting at most this long.
    ReadHeader(Duration),
    /// Terminate TLS first.
    Handshake(ConnInfo),
    /// Serve HTTP until the connection ends.
    Serve(ConnInfo),
    /// Close the connection.
    Close,
    /// Close the connection and say why, loudly or for whoever is looking.
    Complain { loud: bool, why: AcceptError },
}

/// What a lane serves every connection with.
#[derive(Debug)]
pub struct Lane {
    /// How long to wait for a PROXY header, where one is required.
    pub proxy_protocol: Option<Duration>,
    /// Whether there is a TLS configuration.
    pub tls: bool,
    /// Whether a rejected PROXY header has already been reported. What fails
    /// every connection would bury itself under a line for each.
    pub warned: bool,
    /// What advertises the QUIC listener, when there is one.
    pub alt_svc: Option<HeaderValue>,
}

/// What follows once the client of a connection is known.
pub open spec fn admitted(tls: bool, conn: ConnInfo) -> Act {
    match conn.scheme {
        Scheme::Http => Act::Serve(conn),
        Scheme::Https => if tls {
            Act::Handshake(conn)
        } else {
            Act::Close
        },
    }
}

/// What a lane starts with.
pub open spec fn begun(lane: Lane, conn: ConnInfo) -> Act {
    match lane.proxy_protocol {
        Some(timeout) => Act::ReadHeader(timeout),
        None => admitted(lane.tls, conn),
    }
}

/// Whom a connection is taken to come from.
pub open spec fn client_of(conn: ConnInfo, named: Option<SocketAddr>) -> SocketAddr {
    match named {
        Some(client) => client,
        None => conn.remote,
    }
}

/// What a lane does once a PROXY header was read, or was not there.
pub open spec fn after_header(
    lane: Lane,
    conn: ConnInfo,
    header: Result<Option<SocketAddr>, AcceptError>,
) -> Act {
    match header {
        Ok(named) => admitted(
            lane.tls,
            ConnInfo { remote: client_of(conn, named), scheme: conn.scheme },
        ),
        Err(why) => Act::Complain { loud: !lane.warned, why },
    }
}

impl Lane {
    /// A lane for a process whose QUIC listener, if any, is bound to `quic_port`.
    /// What is not listening is not advertised: every client that believed it
    /// would pay for a failed attempt.
    pub fn new(proxy_protocol: Option<Duration>, tls: bool, quic_port: Option<u16>) -> (r: Lane)
        ensures
            r.proxy_protocol == proxy_protocol,
            r.tls == tls,
            !r.warned,
            match quic_port {
                Some(port) => r.alt_svc matches Some(value) && header_map::value_bytes(value)
                    == header_map::ascii_bytes(http3::alt_svc_text(port as nat)),
                None => r.alt_svc is None,
            },
    {
        let alt_svc = match quic_port {
            Some(port) => alt_svc_value(port),
            None => None,
        };
        Lane { proxy_protocol, tls, warned: false, alt_svc }
    }

    /// What to do with a connection that was just handed over. The PROXY header
    /// comes before everything else, the TLS handshake included: the load
    /// balancer speaks it and then relays the client's bytes untouched.
    pub fn begin(&self, conn: ConnInfo) -> (r: Act)
        ensures
            r == begun(*self, conn),
    {
        match self.proxy_protocol {
            Some(timeout) => Act::ReadHeader(timeout),
            None => self.admitted(conn),
        }
    }

    /// What to do once a PROXY header was read, or was not there. A header that
    /// names nobody leaves the socket's own peer standing. The first rejection on
    /// a lane is loud, the rest are not.
    pub fn header_read(
        &mut self,
        conn: ConnInfo,
        header: Result<Option<SocketAddr>, AcceptError>,
    ) -> (r: Act)
        ensures
            r == after_header(*old(self), conn, header),
            *final(self) == (Lane { warned: old(self).warned || header is Err, ..*old(self) }),
    {
        match header {
            Ok(Some(client)) => self.admitted(ConnInfo { remote: client, scheme: conn.scheme }),
            Ok(None) => self.admitted(conn),
            Err(why) => {
                let loud = !self.warned;
                self.warned = true;
                Act::Complain { loud, why }
            },
        }
    }

    /// A TLS connection with no TLS configuration is closed rather than served in
    /// the clear.
    fn admitted(&self, conn: ConnInfo) -> (r: Act)
        ensures
            r == admitted(self.tls, conn),
    {
        match conn.scheme {
            Scheme::Http => Act::Serve(conn),
            Scheme::Https => if self.tls {
                Act::Handshake(conn)
            } else {
                Act::Close
            },
        }
    }

    /// What to do once the handshake succeeded or failed, and counts it.
    pub fn handshaken(&self, conn: ConnInfo, complete: bool, metrics: &mut Metrics) -> (r: Act)
        ensures
            complete ==> r == Act::Serve(conn) && *final(metrics) == (Metrics {
                tls_handshakes: metrics::bumped(old(metrics).tls_handshakes),
                ..*old(metrics)
            }),
            !complete ==> r is Close && *final(metrics) == (Metrics {
                tls_handshake_failures: metrics::bumped(old(metrics).tls_handshake_failures),
                ..*old(metrics)
            }),
            metrics::counts_one(
                *old(metrics),
                if complete {
                    "ramjet_tls_handshakes_total"@
                } else {
                    "ramjet_tls_handshake_failures_total"@
                },
                *final(metrics),
            ),
    {
        if complete {
            metrics.record_tls_handshake();
            Act::Serve(conn)
        } else {
            metrics.record_tls_handshake_failure();
            Act::Close
        }
    }

    /// The fields of a response once the QUIC listener was advertised on it.
    pub open spec fn advertised(
        self,
        scheme: Scheme,
        fields: Map<Seq<char>, Seq<Seq<u8>>>,
    ) -> Map<Seq<char>, Seq<Seq<u8>>> {
        match (scheme, self.alt_svc) {
            (Scheme::Https, Some(value)) => fields.insert(
                ALT_SVC@,
                seq![header_map::value_bytes(value)],
            ),
            _ => fields,
        }
    }

    /// Advertises the QUIC listener on a response that goes out over TLS. Over
    /// plaintext it would send a client from `http` to a port that serves HTTPS.
    pub fn advertise(&self, scheme: Scheme, headers: &mut HeaderMap)
        requires
            header_map::has_room(*old(headers), 1),
        ensures
            header_map::fields(*final(headers)) == match (scheme, self.alt_svc) {
                (Scheme::Https, Some(value)) => header_map::fields(*old(headers)).insert(
                    ALT_SVC@,
                    seq![header_map::value_bytes(value)],
                ),
                _ => header_map::fields(*old(headers)),
            },
            header_map::fields(*final(headers)) == self.advertised(
                scheme,
                header_map::fields(*old(headers)),
            ),
    {
        if let Scheme::Https = scheme {
            if let Some(value) = &self.alt_svc {
                proof {
                    reveal_strlit("alt-svc");
                    header_map::lemma_plain_name(ALT_SVC@);
                }
                header_map::insert(headers, ALT_SVC, value.clone());
            }
        }
    }
}

/// What is logged with a rejected PROXY header. Loudly, it names the usual cause.
pub fn complaint(loud: bool) -> (r: &'static str)
    ensures
        r@ == if loud {
            LOUD_COMPLAINT@
        } else {
            QUIET_COMPLAINT@
        },
{
    if loud {
        LOUD_COMPLAINT
    } else {
        QUIET_COMPLAINT
    }
}

/// The first rejection on a lane.
pub const LOUD_COMPLAINT: &'static str = "dropped a connection with no valid PROXY protocol header; \
    this listener requires one, so check that the load balancer \
    in front of it is configured to send it (further occurrences \
    are logged at debug)";

/// Every later one.
pub const QUIET_COMPLAINT: &'static str = "dropped a connection with no valid PROXY protocol header";

/// A lane that requires a PROXY header goes on with no connection that did not
/// bring one, and takes the client for whom the header names, or for the socket's
/// own peer where it names nobody.
pub proof fn a_required_header_is_required(
    lane: Lane,
    conn: ConnInfo,
    header: Result<Option<SocketAddr>, AcceptError>,
)
    requires
        lane.proxy_protocol is Some,
    ensures
        begun(lane, conn) is ReadHeader,
        header is Err ==> after_header(lane, conn, header) is Complain,
        after_header(lane, conn, header) matches Act::Serve(served) ==> header is Ok && served.scheme
            == conn.scheme && served.remote == client_of(conn, header->Ok_0),
        after_header(lane, conn, header) matches Act::Handshake(served) ==> header is Ok
            && served.scheme == conn.scheme && served.remote == client_of(conn, header->Ok_0),
{
}

// ---------------------------------------------------------------------------
// Draining
// ---------------------------------------------------------------------------

/// The grace period expired with connections still open: an outcome, and one
/// that is reported rather than swallowed.
#[derive(Debug, Clone, Copy, PartialEq, Eq, Structural)]
pub struct GraceExpired;

impl GraceExpired {
    /// The outcome in words.
    pub fn to_text(&self) -> (r: String)
        ensures
            r@ == "shutdown grace period expired with connections still open"@,
    {
        let mut out = String::new();
        push_text(&mut out, "shutdown grace period expired with connections still open");
        assert(out@ =~= "shutdown grace period expired with connections still open"@);
        out
    }
}

/// Whether every lane reported a drain inside its grace period. A lane that
/// vanished without a report cannot be said to have drained.
pub fn all_drained(reports: &Vec<Option<bool>>) -> (r: bool)
    ensures
        r == forall|i: int| 0 <= i < reports@.len() ==> (#[trigger] reports@[i]) == Some(true),
{
    let mut i: usize = 0;
    while i < reports.len()
        invariant
            i <= reports.len(),
            forall|k: int| 0 <= k < i ==> (#[trigger] reports@[k]) == Some(true),
        decreases reports.len() - i,
    {
        match reports[i] {
            Some(true) => {},
            _ => {
                assert(reports@[i as int] != Some(true));
                return false;
            },
        }
        i = i + 1;
    }
    true
}

/// Did everything drain: every lane, with a report, the admin listener, and the QUIC
/// listener where there is one?
pub open spec fn went_well(reports: Seq<Option<bool>>, admin: bool, quic: Option<bool>) -> bool {
    &&& admin
    &&& quic != Some(false)
    &&& forall|i: int| 0 <= i < reports.len() ==> (#[trigger] reports[i]) == Some(true)
}

/// How a shutdown went: clean when the lanes, the admin listener and the QUIC
/// listener, where there is one, all drained in time.
pub fn drained(reports: &Vec<Option<bool>>, admin: bool, quic: Option<bool>) -> (r: Result<
    (),
    GraceExpired,
>)
    ensures
        r is Ok <==> admin && quic != Some(false) && forall|i: int|
            0 <= i < reports@.len() ==> (#[trigger] reports@[i]) == Some(true),
        r is Ok <==> went_well(reports@, admin, quic),
{
    let quic_drained = match quic {
        Some(drained) => drained,
        None => true,
    };
    if all_drained(reports) && admin && quic_drained {
        Ok(())
    } else {
        Err(GraceExpired)
    }
}

/// What someone who waits for a shutdown does.
#[derive(Debug, Clone, Copy, PartialEq, Eq, Structural)]
pub enum Wait {
    /// Shutdown was requested.
    Over,
    /// Look again when something changes.
    Again,
    /// Every handle is gone, so nothing can ever be requested. Giving the handle
    /// up is not a request.
    Forever,
}

/// What someone who waits does, given whether shutdown was requested and whether
/// anyone is left who could request it.
pub open spec fn waits(requested: bool, handles: bool) -> Wait {
    if requested {
        Wait::Over
    } else if handles {
        Wait::Again
    } else {
        Wait::Forever
    }
}

/// What to do about a shutdown signal, given whether it has been fired and
/// whether anyone is left who could fire it.
pub fn wait(requested: bool, handles: bool) -> (r: Wait)
    ensures
        r == if requested {
            Wait::Over
        } else if handles {
            Wait::Again
        } else {
            Wait::Forever
        },
        r == waits(requested, handles),
{
    if requested {
        Wait::Over
    } else if handles {
        Wait::Again
    } else {
        Wait::Forever
    }
}

// ---------------------------------------------------------------------------
// What holds of every connection
// ---------------------------------------------------------------------------

/// Every listener's connections speak its own scheme, and the connections of the
/// admin listener are never handed to a lane. One for TLS is handed over only
/// where there is a TLS configuration, and none is where there is no lane.
pub proof fn a_listener_speaks_its_scheme(accepting: Accepting)
    ensures
        door_scheme(Door::Http) == Scheme::Http,
        door_scheme(Door::Https) == Scheme::Https,
        !accepting.serves(Door::Admin),
        accepting.workers@.lanes == 0 ==> !accepting.serves(Door::Http) && !accepting.serves(
            Door::Https,
        ),
        accepting.workers@.lanes > 0 ==> accepting.serves(Door::Http) && (accepting.serves(
            Door::Https,
        ) <==> accepting.tls),
{
}

/// Nothing that asked for TLS is served in the clear, and nothing else is asked to
/// shake hands. What is served is the connection that was admitted.
pub proof fn tls_is_never_served_in_the_clear(tls: bool, conn: ConnInfo)
    ensures
        admitted(tls, conn) is Serve <==> conn.scheme == Scheme::Http,
        admitted(tls, conn) is Handshake <==> conn.scheme == Scheme::Https && tls,
        admitted(tls, conn) is Close <==> conn.scheme == Scheme::Https && !tls,
        admitted(tls, conn) matches Act::Serve(served) ==> served == conn,
        admitted(tls, conn) matches Act::Handshake(served) ==> served == conn,
{
}

/// A header that names a client makes the connection that client's, and one that
/// names nobody leaves it the peer's. A lane that asks for no header goes straight
/// on, and one that asks for it waits as long as it was told. Only the first
/// complaint of a lane is loud.
pub proof fn a_header_decides_the_client(
    lane: Lane,
    conn: ConnInfo,
    client: SocketAddr,
    why: AcceptError,
)
    ensures
        after_header(lane, conn, Ok(Some(client))) == admitted(
            lane.tls,
            (ConnInfo { remote: client, scheme: conn.scheme }),
        ),
        after_header(lane, conn, Ok(None)) == admitted(lane.tls, conn),
        after_header(lane, conn, Err(why)) matches Act::Complain { loud, why: said } && said == why
            && (loud <==> !lane.warned),
        lane.proxy_protocol is None ==> begun(lane, conn) == admitted(lane.tls, conn),
        lane.proxy_protocol matches Some(span) ==> begun(lane, conn) == Act::ReadHeader(span),
{
    assert((ConnInfo { remote: conn.remote, scheme: conn.scheme }) == conn);
}

/// The lanes take their turns in order, and after the last comes the first.
pub proof fn the_next_lane_is_the_one_after(rota: Rota)
    requires
        rota.lanes > 0,
        rota.next < usize::MAX,
    ensures
        rota.advanced().lanes == rota.lanes,
        rota.advanced().turn() == if rota.turn() + 1 == rota.lanes {
            0
        } else {
            rota.turn() + 1
        },
        (Rota { next: 0, ..rota }).turn() == 0,
{
    let n = rota.lanes as int;
    let x = rota.next as int;
    vstd::arithmetic::div_mod::lemma_fundamental_div_mod(x, n);
    let t = x % n;
    vstd::arithmetic::div_mod::lemma_mod_bound(x, n);
    if t + 1 == n {
        assert(x + 1 == n * (x / n + 1)) by (nonlinear_arith)
            requires
                x == n * (x / n) + t,
                t + 1 == n,
        ;
        vstd::arithmetic::div_mod::lemma_fundamental_div_mod_converse(x + 1, n, x / n + 1, 0);
    } else {
        vstd::arithmetic::div_mod::lemma_fundamental_div_mod_converse(x + 1, n, x / n, t + 1);
    }
    vstd::arithmetic::div_mod::lemma_small_mod(0, rota.lanes);
}

/// A ceiling is never below what the HTTP/1 implementation accepts, and a
/// configured one that is not below it stands; there is always a lane.
pub proof fn a_configured_size_stands_where_it_can(configured: usize)
    ensures
        configured >= 8192 ==> buffer_ceiling(configured) == configured,
        configured < 8192 ==> buffer_ceiling(configured) == 8192,
        configured > 0 ==> at_least_one(configured) == configured,
        at_least_one(0) == 1,
{
}

/// The ports that are listened on when nothing else is asked for, and the field
/// that advertises HTTP/3.
pub proof fn the_default_ports()
    ensures
        DEFAULT_HTTP_PORT == 8080,
        DEFAULT_HTTPS_PORT == 8443,
        DEFAULT_ADMIN_PORT == 10254,
        DEFAULT_MAX_BUF_SIZE == 64 * 1024,
        ALT_SVC@ == "alt-svc"@,
{
}

/// As many lanes are started as were asked for, whatever the machine has, and one for
/// every core otherwise; there is always one.
pub proof fn lanes_are_as_asked_for(configured: usize, cores: usize, known: Option<usize>)
    ensures
        configured > 0 ==> lanes_for(Some(configured), known) == configured,
        cores > 0 ==> lanes_for(None, Some(cores)) == cores,
        lanes_for(Some(0), known) == 1,
        lanes_for(None, Some(0)) == 1,
        lanes_for(None, None) == 1,
{
}

/// A connection is handed over exactly when it came to a traffic listener that can be
/// served, as its peer's own and in its listener's scheme, and otherwise it is closed;
/// one for the admin listener is served on the spot. Shutdown always stops the loop,
/// and nothing else does.
pub proof fn a_connection_is_handed_over_as_it_came(
    accepting: Accepting,
    arrival: Arrival,
    r: Turn,
)
    requires
        accepting.answers(arrival, r),
    ensures
        r is Stop <==> arrival is Shutdown,
        r is Pause <==> arrival is Failed,
        r is Admin ==> arrival is Accepted && arrival->door == Door::Admin,
        r matches Turn::Hand { lane, guard: _, conn } ==> {
            &&& arrival is Accepted
            &&& conn.remote == arrival->remote
            &&& arrival->door == Door::Http || (arrival->door == Door::Https && accepting.tls)
            &&& conn.scheme == Scheme::Https <==> arrival->door == Door::Https
            &&& accepting.workers@.lanes > 0
        },
        r is Close ==> arrival is Accepted && (accepting.workers@.lanes == 0 || (arrival->door
            == Door::Https && !accepting.tls)),
{
}

/// What is advertised goes out over TLS alone, in one field, and leaves every other
/// field as it was; without a QUIC listener nothing is.
pub proof fn quic_is_advertised_over_tls_alone(
    lane: Lane,
    fields: Map<Seq<char>, Seq<Seq<u8>>>,
    name: Seq<char>,
)
    ensures
        lane.advertised(Scheme::Http, fields) == fields,
        lane.alt_svc is None ==> lane.advertised(Scheme::Https, fields) == fields,
        lane.alt_svc matches Some(value) ==> {
            let after = lane.advertised(Scheme::Https, fields);
            &&& after.contains_key("alt-svc"@)
            &&& after["alt-svc"@] == seq![header_map::value_bytes(value)]
            &&& name != "alt-svc"@ ==> (after.contains_key(name) <==> fields.contains_key(name))
            &&& name != "alt-svc"@ && fields.contains_key(name) ==> after[name] == fields[name]
        },
{
}

/// A shutdown went well only if everything drained: one lane that was late or left no
/// report, a late admin listener or a late QUIC listener is enough.
pub proof fn one_late_lane_is_enough(
    reports: Seq<Option<bool>>,
    i: int,
    admin: bool,
    quic: Option<bool>,
)
    ensures
        0 <= i < reports.len() && reports[i] != Some(true) ==> !went_well(reports, admin, quic),
        !went_well(reports, false, quic),
        !went_well(reports, admin, Some(false)),
        went_well(Seq::empty(), true, None),
        went_well(reports, admin, quic) ==> went_well(reports.push(Some(true)), admin, quic),
        went_well(reports, admin, None) == went_well(reports, admin, Some(true)),
{
    if went_well(reports, admin, quic) {
        let more = reports.push(Some(true));
        assert forall|k: int| 0 <= k < more.len() implies (#[trigger] more[k]) == Some(true) by {
            if k < reports.len() {
                assert(reports[k] == Some(true));
            }
        }
    }
}

/// Giving the handle up requests nothing.
pub proof fn a_dropped_handle_is_no_request(handles: bool)
    ensures
        waits(true, handles) == Wait::Over,
        waits(false, true) == Wait::Again,
        waits(false, false) == Wait::Forever,
{
}

/// A listener that is asked for by its port alone takes that port on every IPv4
/// address, shares it, and queues a thousand connections.
pub proof fn a_default_listener_takes_every_address(config: Option<ListenerConfig>, port: nat)
    requires
        listens_on(config, port),
    ensures
        config matches Some(listener) && {
            &&& listener.addr@.port == port
            &&& listener.addr@.ip == net::IpView::V4(seq![0u8, 0u8, 0u8, 0u8])
            &&& listener.addr@.scope_id == 0
            &&& listener.backlog == 1024
            &&& listener.reuse_port
            &&& listener.nodelay
        },
{
}

} // verus!
