//! The accept loop, the lanes and the drain.
use http::HeaderMap;
use ramjet_ingress::forward::{ConnInfo, Scheme};
use ramjet_ingress::metrics::Metrics;
use ramjet_ingress::net::SocketAddr;
use ramjet_ingress::proxy_protocol::AcceptError;
use ramjet_ingress::server::{
    accept_backoff, all_drained, complaint, drained, wait, worker_threads, Accepting, Act, Arrival,
    Door, GraceExpired, Lane, ProxyConfig, Turn, Wait, Workers, DEFAULT_MAX_BUF_SIZE,
    MIN_MAX_BUF_SIZE,
};
use ramjet_ingress::time::Duration;

fn peer() -> SocketAddr {
    SocketAddr::v4([192, 0, 2, 7], 40000)
}

fn conn(scheme: Scheme) -> ConnInfo {
    ConnInfo { remote: peer(), scheme }
}

#[test]
fn defaults_use_the_ingress_nginx_ports() {
    let config = ProxyConfig::default();
    assert_eq!(config.http.map(|l| l.addr.port), Some(8080));
    assert_eq!(config.https.map(|l| l.addr.port), Some(8443));
    assert_eq!(config.admin.map(|l| l.addr.port), Some(10254));
}

#[test]
fn the_buffer_ceiling_defaults_below_hypers_and_above_nginxs() {
    // hyper's own default is 408 KiB and nginx's effective limit is 32 KiB.
    // Sitting between them is the whole point: nothing nginx would serve is
    // refused, and the worst case a single connection can pin is bounded.
    assert_eq!(ProxyConfig::default().max_buf_size, DEFAULT_MAX_BUF_SIZE);
    assert!(DEFAULT_MAX_BUF_SIZE > 32 * 1024);
    assert!(DEFAULT_MAX_BUF_SIZE < 408 * 1024);
}

#[test]
fn a_ceiling_under_hypers_minimum_does_not_abort_the_process() {
    // The HTTP/1 implementation panics below `MIN_MAX_BUF_SIZE`, on a serving
    // thread, where nobody would see it.
    for asked in [0, MIN_MAX_BUF_SIZE - 1] {
        let config = ProxyConfig { max_buf_size: asked, ..ProxyConfig::default() };
        assert_eq!(config.buffer_ceiling(), MIN_MAX_BUF_SIZE);
        let mut builder = hyper::server::conn::http1::Builder::new();
        builder.max_buf_size(config.buffer_ceiling());
    }
    let config = ProxyConfig { max_buf_size: 70_000, ..ProxyConfig::default() };
    assert_eq!(config.buffer_ceiling(), 70_000);
}

#[test]
fn the_grace_period_fits_inside_the_kubernetes_default() {
    // A drain longer than `terminationGracePeriodSeconds` would be cut
    // short by SIGKILL, making the configured deadline a fiction.
    assert!(ProxyConfig::default().shutdown_grace <= Duration::from_secs(30));
}

#[test]
fn a_signal_resolves_recv() {
    // Already signalled before the first look: the current value counts, not
    // the next change.
    assert_eq!(wait(true, true), Wait::Over);
    assert_eq!(wait(true, false), Wait::Over);
}

#[test]
fn recv_waits_for_a_later_signal() {
    assert_eq!(wait(false, true), Wait::Again);
}

#[test]
fn never_does_not_fire_when_the_handle_is_dropped() {
    assert_eq!(wait(false, false), Wait::Forever, "a dropped handle must not mean shutdown");
}

#[test]
fn there_is_always_a_lane() {
    assert_eq!(worker_threads(Some(3), Some(8)), 3);
    assert_eq!(worker_threads(Some(0), Some(8)), 1);
    assert_eq!(worker_threads(None, Some(8)), 8);
    assert_eq!(worker_threads(None, None), 1);
}

#[test]
fn connections_go_round_the_lanes() {
    let mut workers = Workers::new(3);
    let lanes: Vec<Option<usize>> = (0..7).map(|_| workers.dispatch()).collect();
    let expected: Vec<Option<usize>> = [0, 1, 2, 0, 1, 2, 0].into_iter().map(Some).collect();
    assert_eq!(lanes, expected);
    assert_eq!(workers.quic_shard(), 3, "past the lanes' own shards");
    workers.close();
    assert_eq!(workers.dispatch(), None);
}

#[test]
fn only_traffic_is_counted() {
    let mut metrics = Metrics::new();
    let mut accepting = Accepting { workers: Workers::new(2), tls: true };
    let mut arrive = |arrival| accepting.on(arrival, &mut metrics);
    let first = arrive(Arrival::Accepted { door: Door::Http, remote: peer() });
    assert!(matches!(first, Turn::Hand { lane: 0, conn, .. } if conn.scheme == Scheme::Http));
    let second = arrive(Arrival::Accepted { door: Door::Https, remote: peer() });
    assert!(matches!(second, Turn::Hand { lane: 1, conn, .. } if conn.scheme == Scheme::Https));
    assert!(matches!(arrive(Arrival::Accepted { door: Door::Admin, remote: peer() }), Turn::Admin));
    assert!(matches!(arrive(Arrival::Failed), Turn::Pause(span) if span == accept_backoff()));
    assert!(matches!(arrive(Arrival::Shutdown), Turn::Stop));
    assert_eq!(metrics.active_connections(), 2);

    let mut plain = Accepting { workers: Workers::new(2), tls: false };
    let closed = plain.on(Arrival::Accepted { door: Door::Https, remote: peer() }, &mut metrics);
    assert!(matches!(closed, Turn::Close));
    assert_eq!(metrics.active_connections(), 2);
}

#[test]
fn a_proxy_header_comes_before_the_handshake() {
    let mut lane = Lane::new(Some(Duration::from_secs(5)), true, None);
    assert!(matches!(lane.begin(conn(Scheme::Https)), Act::ReadHeader(_)));
    let client = SocketAddr::v4([198, 51, 100, 4], 1234);
    let named = lane.header_read(conn(Scheme::Https), Ok(Some(client)));
    assert!(matches!(named, Act::Handshake(conn) if conn.remote == client));
    let nobody = lane.header_read(conn(Scheme::Http), Ok(None));
    assert!(matches!(nobody, Act::Serve(conn) if conn.remote == peer()));

    let plain = Lane::new(None, false, None);
    assert!(matches!(plain.begin(conn(Scheme::Http)), Act::Serve(_)));
    assert!(matches!(plain.begin(conn(Scheme::Https)), Act::Close));
}

#[test]
fn a_missing_header_is_loud_once() {
    let mut lane = Lane::new(Some(Duration::from_secs(5)), true, None);
    let mut refuse = || lane.header_read(conn(Scheme::Http), Err(AcceptError::Timeout));
    assert!(matches!(refuse(), Act::Complain { loud: true, why: AcceptError::Timeout }));
    assert!(matches!(refuse(), Act::Complain { loud: false, .. }));
    assert!(matches!(refuse(), Act::Complain { loud: false, .. }));
    assert!(complaint(true).contains("check that the load balancer"));
    assert!(complaint(true).starts_with(complaint(false)));
}

#[test]
fn handshakes_are_counted_either_way() {
    let mut metrics = Metrics::new();
    let lane = Lane::new(None, true, None);
    let served = lane.handshaken(conn(Scheme::Https), true, &mut metrics);
    assert!(matches!(served, Act::Serve(_)));
    let failed = lane.handshaken(conn(Scheme::Https), false, &mut metrics);
    assert!(matches!(failed, Act::Close));
    assert_eq!((metrics.tls_handshakes, metrics.tls_handshake_failures), (1, 1));
}

#[test]
fn quic_is_advertised_over_tls_alone() {
    let lane = Lane::new(None, true, Some(8443));
    let mut headers = HeaderMap::new();
    lane.advertise(Scheme::Http, &mut headers);
    assert!(headers.is_empty());
    lane.advertise(Scheme::Https, &mut headers);
    assert_eq!(
        headers.get("alt-svc").map(|v| v.as_bytes()),
        Some(&b"h3=\":8443\"; ma=86400"[..])
    );
    let mut headers = HeaderMap::new();
    Lane::new(None, true, None).advertise(Scheme::Https, &mut headers);
    assert!(headers.is_empty(), "what is not listening is not advertised");
}

#[test]
fn a_resolver_is_built_where_there_is_tls() {
    let config = ProxyConfig::default();
    let wanted = config.wanted();
    assert!(wanted.resolver && wanted.tls && !wanted.quic);
    let plain = ProxyConfig { https: None, ..config }.wanted();
    assert!(!plain.resolver && !plain.tls && !plain.quic);
    let quic = ProxyConfig { https: None, http3: Some(peer()), ..config }.wanted();
    assert!(quic.resolver && !quic.tls && quic.quic);
}

#[test]
fn a_drain_is_clean_only_when_all_of_it_was() {
    let clean = vec![Some(true), Some(true)];
    assert!(all_drained(&clean));
    assert!(all_drained(&Vec::new()));
    assert_eq!(drained(&clean, true, None), Ok(()));
    assert_eq!(drained(&clean, true, Some(true)), Ok(()));
    assert_eq!(drained(&clean, true, Some(false)), Err(GraceExpired));
    assert_eq!(drained(&clean, false, None), Err(GraceExpired));
    assert_eq!(drained(&vec![Some(true), Some(false)], true, None), Err(GraceExpired));
    assert_eq!(drained(&vec![None], true, None), Err(GraceExpired), "a lane that vanished");
    assert_eq!(
        GraceExpired.to_text(),
        "shutdown grace period expired with connections still open"
    );
}
