//! From the command line to the exit status.
use ramjet_ingress::args::{ArgError, Args, Argument, Engine, USAGE};
use ramjet_ingress::config::Summary;
use ramjet_ingress::daemon::{
    audit_entry, dev_banner, engine_config, file_https, finish, mode, proxy_config, select_engine,
    start, upstream_config, uring_banner, AuditEntry, Bound, Exit, Mode, Served, Start,
};
use ramjet_ingress::history::PinChange;
use ramjet_ingress::net::SocketAddr;
use ramjet_ingress::time::Duration;

fn parse(arguments: &[&str]) -> Result<Args, ArgError> {
    let arguments = arguments.iter().map(|a| Argument::Text((*a).to_owned())).collect();
    Args::parse(&arguments, &Vec::new())
}

fn args(arguments: &[&str]) -> Args {
    parse(arguments).expect("valid")
}

#[test]
fn a_command_line_is_answered_or_served() {
    assert!(matches!(start(parse(&["--help", "--version"])), Start::Usage));
    assert!(matches!(start(parse(&["-V"])), Start::Version));
    assert!(matches!(start(parse(&[])), Start::Serve(_)));
    assert!(matches!(
        start(parse(&["--nope"])),
        Start::Misused(line) if line == "ramjet-ingressd: unknown option `--nope` (try --help)"
    ));
    assert!(matches!(start(parse(&["stray"])), Start::Misused(_)));
    assert!(matches!(start(parse(&["--http"])), Start::Failed(ArgError::MissingValue(_))));
    assert!(USAGE.contains("--help"));
}

#[test]
fn uring_falls_back_to_hyper_when_the_reactor_will_not_start() {
    let why = Some("Operation not permitted (os error 1)");
    assert_eq!(select_engine(Engine::Uring, why), Ok(Engine::Hyper));
}

#[test]
fn uring_strict_refuses_to_start_instead() {
    let why = Some("Operation not permitted (os error 1)");
    let refusal = select_engine(Engine::UringStrict, why).expect_err("refused");
    assert!(
        refusal.contains("will not start on this host: Operation not permitted (os error 1). On"),
        "{refusal}"
    );
    assert!(refusal.contains("--engine uring"), "{refusal}");
}

#[test]
fn uring_serves_on_a_host_where_the_reactor_works() {
    assert_eq!(select_engine(Engine::Uring, None), Ok(Engine::Uring));
}

#[test]
fn uring_strict_serves_where_uring_would() {
    assert_eq!(select_engine(Engine::UringStrict, None), Ok(Engine::UringStrict));
}

#[test]
fn hyper_never_probes_the_reactor() {
    assert_eq!(select_engine(Engine::Hyper, Some("not asked")), Ok(Engine::Hyper));
    assert_eq!(select_engine(Engine::Hyper, None), Ok(Engine::Hyper));
}

#[test]
fn a_file_and_an_engine_select_the_mode() {
    let file = args(&["--static-routes", "routes.yaml"]);
    let cluster = args(&[]);
    assert_eq!(mode(&file, Engine::Hyper), Mode::Dev);
    assert_eq!(mode(&file, Engine::UringStrict), Mode::DevUring);
    assert_eq!(mode(&cluster, Engine::Hyper), Mode::Kubernetes);
    assert_eq!(mode(&cluster, Engine::Uring), Mode::KubernetesUring);
}

#[test]
fn a_file_without_certificates_opens_no_tls_listener_unasked() {
    let unasked = args(&[]);
    assert_eq!(file_https(&unasked, false), None);
    assert_eq!(file_https(&unasked, true), unasked.https);
    let asked = args(&["--https", "9443"]);
    assert_eq!(file_https(&asked, false), Some(SocketAddr::v4([0, 0, 0, 0], 9443)));
    assert_eq!(file_https(&args(&["--no-https"]), true), None);
}

#[test]
fn arguments_reach_the_configuration() {
    let given = args(&[
        "--http", "9000", "--connect-timeout", "2", "--response-timeout", "9",
        "--max-connect-attempts", "4", "--upstream-pool-idle", "64", "--worker-threads", "3",
        "--history-size", "7", "--mirror-max-body", "11", "--shutdown-grace", "12",
        "--proxy-protocol", "--http3",
    ]);
    let upstream = upstream_config(&given);
    assert_eq!(upstream.connect_timeout, Duration::from_secs(2));
    assert_eq!(upstream.response_timeout, Duration::from_secs(9));
    assert_eq!(upstream.max_connect_attempts, 4);
    assert_eq!(upstream.pool_max_idle_per_host, 64);
    assert_eq!(upstream.tcp_keepalive, Some(Duration::from_secs(60)));

    let config = proxy_config(&given, given.https);
    assert_eq!(config.http.map(|l| l.addr), Some(SocketAddr::v4([0, 0, 0, 0], 9000)));
    assert_eq!(config.http3, given.https);
    assert_eq!(config.proxy_protocol, Some(Duration::from_secs(5)));
    assert_eq!((config.worker_threads, config.history_size), (Some(3), 7));
    assert_eq!((config.mirror_max_body, config.shutdown_grace), (11, Duration::from_secs(12)));
    assert_eq!(proxy_config(&given, None).http3, None, "no TLS listener, no HTTP/3");
    assert_eq!(proxy_config(&args(&[]), given.https).proxy_protocol, None);
}

#[test]
fn the_reactor_needs_something_to_serve() {
    let nothing = args(&["--no-http", "--no-https", "--engine", "uring", "--static-routes", "r"]);
    let refusal = engine_config(&nothing, true).expect_err("nothing to serve");
    assert!(refusal.contains("--no-http and --no-https"), "{refusal}");

    let some = args(&["--engine", "uring", "--static-routes", "r", "--worker-threads", "2"]);
    let config = engine_config(&some, false).expect("a listener");
    assert_eq!((config.http, config.https, config.admin), (some.http, None, None));
    assert_eq!(config.workers, Some(2));
}

fn summary() -> Summary {
    Summary { backends: 2, endpoints: 3, routes: 4, certificates: 0, default_backend: true }
}

#[test]
fn the_banner_says_what_is_served_and_where() {
    let bound = Bound {
        http: Some(SocketAddr::v4([127, 0, 0, 1], 8080)),
        https: None,
        http3: None,
        admin: Some(SocketAddr::v4([127, 0, 0, 1], 10254)),
    };
    assert_eq!(
        dev_banner("1.2.3", "routes.yaml", &summary(), &bound),
        vec![
            "ramjet-ingressd 1.2.3 — 2 backend(s), 3 endpoint(s), 4 route(s), 0 certificate(s), \
             default backend set",
            "  config   routes.yaml",
            "  http     127.0.0.1:8080",
            "  https    disabled",
            "  http3    disabled",
            "  admin    127.0.0.1:10254",
            "  probes   http://127.0.0.1:10254/healthz  http://127.0.0.1:10254/readyz  \
             http://127.0.0.1:10254/metrics",
            "  admin    http://127.0.0.1:10254/admin/generations  \
             http://127.0.0.1:10254/admin/routes",
        ]
    );
}

#[test]
fn the_reactors_banner_ends_with_its_limits() {
    let bound = Bound {
        http: Some(SocketAddr::v4([127, 0, 0, 1], 8080)),
        https: None,
        http3: None,
        admin: None,
    };
    let limits = vec!["no HTTP/2".to_owned(), "no upgrades".to_owned()];
    let plain = Summary { default_backend: false, ..summary() };
    assert_eq!(
        uring_banner("1.2.3", "routes.yaml", &plain, &bound, 4, &limits),
        vec![
            "ramjet-ingressd 1.2.3 — engine uring, 2 backend(s), 3 endpoint(s), 4 route(s), \
             0 certificate(s)",
            "  config   routes.yaml",
            "  http     127.0.0.1:8080",
            "  https    disabled",
            "  admin    disabled",
            "  cores    4",
            "  no HTTP/2",
            "  no upgrades",
        ]
    );
}

#[test]
fn an_expired_grace_period_is_not_a_crash() {
    assert_eq!(finish::<()>(Served::Drained, false), Ok(Exit::Success));
    assert_eq!(finish(Served::Expired("late"), false), Ok(Exit::Success));
    assert_eq!(finish(Served::Failed("broken"), false), Err("broken"));
    assert_eq!(finish::<()>(Served::Drained, true), Ok(Exit::Failure));
    assert_eq!(finish(Served::Failed("broken"), true), Err("broken"));
}

#[test]
fn pins_reach_the_audit_trail() {
    assert_eq!(
        audit_entry(PinChange::Pinned { generation: 1, replaced: 2 }),
        AuditEntry::Pinned { generation: 1, replaced: 2 }
    );
    assert_eq!(
        audit_entry(PinChange::Resumed { generation: 3 }),
        AuditEntry::Resumed { generation: 3 }
    );
}
