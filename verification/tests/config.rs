//! The static-routes document.
use ramjet_ingress::certs::certified_key;
use ramjet_ingress::config::{
    build, load_certificate, paired, resolve, BackendSpec, CanarySpec, ConfigError, Document, EndpointSpec,
    PathTypeSpec, PolicySpec, RouteSpec, Step, Summary, TlsSpec,
};
use ramjet_ingress::net::SocketAddr;
use rcgen::generate_simple_self_signed;

fn backend(name: &str, endpoints: &[&str]) -> BackendSpec {
    BackendSpec {
        name: name.to_owned(),
        policy: PolicySpec::default(),
        endpoints: endpoints.iter().map(|a| EndpointSpec::Address((*a).to_owned())).collect(),
    }
}

fn route(host: Option<&str>, path: &str, backend: &str) -> RouteSpec {
    RouteSpec {
        host: host.map(str::to_owned),
        path: path.to_owned(),
        path_type: PathTypeSpec::default(),
        backend: backend.to_owned(),
        canary: None,
    }
}

fn tls(host: Option<&str>, cert: &str, key: &str) -> TlsSpec {
    TlsSpec { host: host.map(str::to_owned), cert: cert.to_owned(), key: key.to_owned() }
}

#[test]
fn a_minimal_document_builds() {
    let document = Document {
        backends: vec![backend("app", &["127.0.0.1:9001"])],
        routes: vec![route(Some("app.example.com"), "/", "app")],
        ..Document::default()
    };
    let plan = build(&document, ".");
    let summary = plan.outcome.expect("a valid document");
    assert_eq!(summary.backends, 1);
    assert_eq!(summary.endpoints, 1);
    assert_eq!(summary.routes, 1);
    assert_eq!(plan.steps.len(), 2);
    assert!(matches!(&plan.steps[0], Step::Backend { place: 0, endpoints }
        if endpoints[..] == [(SocketAddr::v4([127, 0, 0, 1], 9001), 1)]));
    assert!(matches!(plan.steps[1], Step::Route { place: 0 }));
}

#[test]
fn path_type_defaults_to_prefix_as_kubernetes_does() {
    assert_eq!(PathTypeSpec::default(), PathTypeSpec::Prefix);
    assert_eq!(PolicySpec::default(), PolicySpec::RoundRobin);
}

#[test]
fn endpoints_accept_both_the_short_and_the_weighted_form() {
    let document = Document {
        backends: vec![BackendSpec {
            name: "app".to_owned(),
            policy: PolicySpec::LeastConn,
            endpoints: vec![
                EndpointSpec::Address("127.0.0.1:9001".to_owned()),
                EndpointSpec::Weighted { address: "127.0.0.1:9002".to_owned(), weight: 3 },
            ],
        }],
        routes: vec![route(Some("app.example.com"), "/", "app")],
        ..Document::default()
    };
    let plan = build(&document, ".");
    assert_eq!(plan.outcome.expect("valid").endpoints, 2);
    match &plan.steps[0] {
        Step::Backend { place: 0, endpoints } => {
            assert_eq!(endpoints.len(), 2);
            assert_eq!(endpoints[0].1, 1, "the short form means weight 1");
            assert_eq!(endpoints[1].1, 3);
            assert_eq!(endpoints[1].0, SocketAddr::v4([127, 0, 0, 1], 9002));
        }
        other => panic!("{other:?}"),
    }
}

#[test]
fn a_default_backend_is_recorded() {
    let document = Document {
        default_backend: Some("fallback".to_owned()),
        backends: vec![
            backend("app", &["127.0.0.1:1"]),
            backend("fallback", &["127.0.0.1:2"]),
        ],
        routes: vec![route(Some("app.example.com"), "/", "app")],
        ..Document::default()
    };
    let plan = build(&document, ".");
    assert!(plan.outcome.expect("valid").default_backend);
    assert!(matches!(plan.steps.last(), Some(Step::DefaultBackend)));
}

#[test]
fn an_unparseable_endpoint_names_its_backend() {
    let document = Document {
        backends: vec![backend("ok", &["127.0.0.1:1"]), backend("app", &["not-an-address"])],
        routes: vec![route(Some("app.example.com"), "/", "app")],
        ..Document::default()
    };
    let plan = build(&document, ".");
    assert_eq!(plan.steps.len(), 1, "what comes before it is still built");
    let error = plan.outcome.expect_err("an invalid address");
    assert!(matches!(
        error,
        ConfigError::BadEndpoint { ref backend, .. } if backend == "app"
    ));
    assert_eq!(
        error.to_text(),
        "backend `app` has endpoint `not-an-address`, which is not an ip:port address"
    );
}

#[test]
fn relative_certificate_paths_resolve_against_the_config_directory() {
    assert_eq!(
        resolve("/etc/ramjet", "certs/tls.pem"),
        "/etc/ramjet/certs/tls.pem"
    );
    assert_eq!(resolve("/etc/ramjet", "/abs/tls.pem"), "/abs/tls.pem");
    assert_eq!(resolve("/etc/ramjet/", "tls.pem"), "/etc/ramjet/tls.pem");
    assert_eq!(resolve("", "tls.pem"), "tls.pem");
}

#[test]
fn a_missing_certificate_file_says_which_host_and_file() {
    let document = Document {
        tls: vec![tls(Some("app.example.com"), "nope.pem", "nope-key.pem")],
        ..Document::default()
    };
    let plan = build(&document, ".");
    let (host, cert, key) = match &plan.steps[0] {
        Step::Certificate { place: 0, id: 1, default: false, host, cert, key } => (host, cert, key),
        other => panic!("{other:?}"),
    };
    let missing = Err("No such file or directory (os error 2)".to_owned());
    let unread = Err("never read".to_owned());
    let error = load_certificate(host, &document.tls[0].cert, cert, key, missing, unread)
        .expect_err("a missing file");
    let message = error.to_text();
    assert!(message.contains("app.example.com"), "{message}");
    assert!(message.contains("nope.pem"), "{message}");
}

#[test]
fn an_empty_document_builds_an_empty_table() {
    // A cluster with no Ingresses is a normal state, not an error.
    let plan = build(&Document::default(), ".");
    assert_eq!(plan.outcome.expect("valid"), Summary::default());
    assert!(plan.steps.is_empty());
}

#[test]
fn certificates_are_numbered_from_one() {
    let document = Document {
        tls: vec![
            tls(Some("a.example.com"), "a.pem", "a.key"),
            tls(None, "/etc/default.pem", "default.key"),
            tls(Some("*"), "star.pem", "star.key"),
        ],
        ..Document::default()
    };
    let plan = build(&document, "/etc/ramjet");
    let read: Vec<(u64, bool, &str)> = plan
        .steps
        .iter()
        .map(|step| match step {
            Step::Certificate { id, default, cert, .. } => (*id, *default, cert.as_str()),
            other => panic!("{other:?}"),
        })
        .collect();
    assert_eq!(
        read,
        vec![
            (1, false, "/etc/ramjet/a.pem"),
            (2, true, "/etc/default.pem"),
            (3, true, "/etc/ramjet/star.pem"),
        ]
    );
}

#[test]
fn a_certificate_names_the_file_at_fault() {
    let issued = generate_simple_self_signed(["a.example.com".to_owned()]).expect("a certificate");
    let chain = issued.cert.pem().into_bytes();
    let key = issued.signing_key.serialize_pem().into_bytes();
    let load = |chain: &[u8], key: &[u8]| {
        load_certificate(
            "a.example.com",
            "a.pem",
            "/etc/a.pem",
            "/etc/a.key",
            Ok(chain.to_vec()),
            Ok(key.to_vec()),
        )
    };
    assert!(load(&chain, &key).is_ok());
    let said = |chain: &[u8], key: &[u8]| load(chain, key).expect_err("refused").to_text();
    assert_eq!(
        said(b"", &key),
        "cannot load certificate for `a.example.com` from /etc/a.pem: no CERTIFICATE block"
    );
    assert_eq!(
        said(&chain, b""),
        "cannot load certificate for `a.example.com` from /etc/a.key: no PRIVATE KEY block"
    );
    let other = generate_simple_self_signed(["a.example.com".to_owned()]).expect("a certificate");
    let wrong = other.signing_key.serialize_pem().into_bytes();
    assert!(
        said(&chain, &wrong).starts_with("cannot load certificate for `a.example.com` from a.pem: "),
        "{}",
        said(&chain, &wrong)
    );
    let mismatch = rustls::Error::InconsistentKeys(rustls::InconsistentKeys::KeyMismatch);
    assert!(said(&chain, &wrong).ends_with(&mismatch.to_string()), "{}", said(&chain, &wrong));
}

#[test]
fn the_other_errors_are_worded() {
    let read = ConfigError::Read { path: "r.yaml".to_owned(), source: "gone".to_owned() };
    assert_eq!(read.to_text(), "cannot read r.yaml: gone");
    let parse = ConfigError::Parse { path: "r.yaml".to_owned(), source: "line 3".to_owned() };
    assert_eq!(parse.to_text(), "cannot parse r.yaml: line 3");
    let table = ConfigError::Table("unknown backend `ghost`".to_owned());
    assert_eq!(table.to_text(), "invalid route table: unknown backend `ghost`");
}

#[test]
fn a_canary_travels_with_its_rule() {
    let mut rule = route(Some("app.example.com"), "/", "prod");
    rule.canary = Some(CanarySpec {
        backend: "next".to_owned(),
        weight: 20,
        weight_total: 0,
        header: Some("x-canary".to_owned()),
        header_value: Some("beta".to_owned()),
        header_pattern: None,
        cookie: None,
    });
    let document = Document { routes: vec![rule], ..Document::default() };
    let plan = build(&document, ".");
    assert!(matches!(plan.steps[0], Step::Route { place: 0 }));
    assert_eq!(document.routes[0].canary.as_ref().map(|c| c.weight), Some(20));
}

#[test]
fn a_refused_pair_blames_the_chain_as_it_was_written() {
    let refused = paired("a.example.com", "a.pem", Err("key mismatch".to_owned()));
    assert_eq!(
        refused.expect_err("refused").to_text(),
        "cannot load certificate for `a.example.com` from a.pem: key mismatch"
    );
    let issued = generate_simple_self_signed(["a.example.com".to_owned()]).expect("a certificate");
    let pair = certified_key(
        issued.cert.pem().as_bytes(),
        issued.signing_key.serialize_pem().as_bytes(),
    )
    .expect("a pair");
    let chain = pair.cert.clone();
    let passed = paired("a.example.com", "a.pem", Ok(pair)).expect("passed on");
    assert_eq!(passed.cert, chain);
}
