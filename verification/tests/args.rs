//! The command line and its environment.
use ramjet_ingress::args::{engine, ArgError, Args, Argument, Engine, ServiceRef, USAGE};
use ramjet_ingress::history::DEFAULT_HISTORY_SIZE;
use ramjet_ingress::mirror::DEFAULT_MIRROR_MAX_BODY;
use ramjet_ingress::net::SocketAddr;
use ramjet_ingress::server::{DEFAULT_MAX_BUF_SIZE, MIN_MAX_BUF_SIZE};
use ramjet_ingress::time::Duration;
use ramjet_ingress::upstream::DEFAULT_POOL_MAX_IDLE_PER_HOST;

fn parse_with(arguments: &[&str], env: &[(&str, &str)]) -> Result<Args, ArgError> {
    let arguments = arguments.iter().map(|a| Argument::Text((*a).to_owned())).collect();
    let env = env
        .iter()
        .map(|(name, value)| ((*name).to_owned(), (*value).to_owned()))
        .collect();
    Args::parse(&arguments, &env)
}

fn parse(arguments: &[&str]) -> Result<Args, ArgError> {
    parse_with(arguments, &[])
}

#[test]
fn the_serving_knobs_take_a_flag_and_an_environment_twin() {
    let args = parse(&["--worker-threads", "3", "--upstream-pool-idle", "512"])
        .expect("valid");
    assert_eq!(args.worker_threads, Some(3));
    assert_eq!(args.upstream_pool_idle, 512);

    let env = [("RAMJET_WORKER_THREADS", "2"), ("RAMJET_UPSTREAM_POOL_IDLE", "64")];
    let args = parse_with(&[], &env).expect("valid");
    assert_eq!(args.worker_threads, Some(2));
    assert_eq!(args.upstream_pool_idle, 64);

    // A flag beats the environment, so a `kubectl edit` of the args cannot
    // be silently overridden by a ConfigMap.
    let args = parse_with(&["--worker-threads=8"], &env).expect("valid");
    assert_eq!(args.worker_threads, Some(8));
}

#[test]
fn zero_serving_runtimes_is_read_as_one() {
    // A data plane with nowhere to serve is not a configuration, it is a
    // hang, and `--worker-threads 0` is a typo rather than an intent.
    assert_eq!(parse(&["--worker-threads", "0"]).expect("valid").worker_threads, Some(1));
}

#[test]
fn the_buffer_ceiling_takes_a_flag_and_an_environment_twin() {
    assert_eq!(
        parse(&[]).expect("valid").max_buf_size,
        DEFAULT_MAX_BUF_SIZE
    );
    assert_eq!(
        parse(&["--max-buf-size", "131072"]).expect("valid").max_buf_size,
        131_072
    );

    let env = [("RAMJET_MAX_BUF_SIZE", "32768")];
    let args = parse_with(&[], &env).expect("valid");
    assert_eq!(args.max_buf_size, 32_768);
}

#[test]
fn a_buffer_ceiling_under_hypers_minimum_is_raised_to_it() {
    // hyper panics on anything smaller, and a data plane that aborts on a
    // number an operator typed is the worst of the available answers.
    assert_eq!(
        parse(&["--max-buf-size", "1024"]).expect("valid").max_buf_size,
        MIN_MAX_BUF_SIZE
    );
}

#[test]
fn the_pool_default_is_the_one_the_proxy_documents() {
    assert_eq!(
        parse(&[]).expect("valid").upstream_pool_idle,
        DEFAULT_POOL_MAX_IDLE_PER_HOST
    );
    assert_eq!(parse(&[]).expect("valid").worker_threads, None, "one per core");
}

#[test]
fn defaults_match_the_documented_ports() {
    let args = parse(&[]).expect("no arguments is valid");
    assert_eq!(args.http.map(|a| a.port), Some(8080));
    assert_eq!(args.https.map(|a| a.port), Some(8443));
    assert_eq!(args.admin.map(|a| a.port), Some(10254));
    assert!(!args.https_explicit);
}

#[test]
fn both_flag_shapes_are_accepted() {
    let separate = parse(&["--http", "127.0.0.1:9000"]).expect("valid");
    let inline = parse(&["--http=127.0.0.1:9000"]).expect("valid");
    assert_eq!(separate.http, inline.http);
    assert_eq!(
        separate.http.map(|a| a.to_text()),
        Some("127.0.0.1:9000".to_owned())
    );
}

#[test]
fn address_shorthands_bind_every_interface() {
    assert_eq!(
        parse(&["--http", ":9000"]).expect("valid").http,
        Some(SocketAddr::v4([0, 0, 0, 0], 9000))
    );
    assert_eq!(
        parse(&["--http", "9000"]).expect("valid").http,
        Some(SocketAddr::v4([0, 0, 0, 0], 9000))
    );
}

#[test]
fn ipv6_addresses_survive_the_split_on_equals() {
    // `--https=[::1]:8443` contains no `=`, but the colon-heavy value is
    // the one most likely to be mangled by a naive parser.
    let args = parse(&["--https", "[::1]:8443"]).expect("valid");
    assert_eq!(args.https.map(|a| a.is_ipv6()), Some(true));
}

#[test]
fn disabling_a_listener_is_explicit() {
    let args = parse(&["--no-http", "--no-admin"]).expect("valid");
    assert_eq!(args.http, None);
    assert_eq!(args.admin, None);
    assert!(args.https.is_some());

    let args = parse(&["--no-https"]).expect("valid");
    assert_eq!(args.https, None);
    assert!(
        args.https_explicit,
        "an explicit --no-https must suppress the certificate-based default"
    );
}

#[test]
fn the_engine_defaults_to_hyper() {
    // The engine that has been measured against nginx and carries TLS,
    // HTTP/2 and upgrades is the one you get without asking.
    assert_eq!(parse(&[]).expect("valid").engine, Engine::Hyper);
}

#[test]
fn the_engine_can_be_selected_either_way() {
    assert_eq!(
        parse(&["--engine", "uring"]).expect("valid").engine,
        Engine::Uring
    );
    let env = [("RAMJET_ENGINE", "uring")];
    let args = parse_with(&[], &env).expect("valid");
    assert_eq!(args.engine, Engine::Uring);
}

#[test]
fn an_unknown_engine_is_an_error_not_a_fallback() {
    // Somebody who typed `--engine io_uring` asked for something specific.
    // Quietly serving on the other engine is the worst possible answer,
    // because it looks like it worked.
    let error = parse(&["--engine", "io_uring"]).expect_err("refused");
    assert!(
        matches!(&error, ArgError::BadValue { option, .. } if option == "--engine"),
        "{error:?}"
    );
    assert!(error.to_text().contains("hyper, uring or uring-strict"), "{error:?}");
}

#[test]
fn a_flag_beats_the_environment() {
    let env = [("RAMJET_HTTP", "0.0.0.0:1111"), ("RAMJET_ADMIN", "0.0.0.0:2222")];
    let args = parse_with(&["--http", "0.0.0.0:3333"], &env)
        .expect("valid");
    assert_eq!(args.http.map(|a| a.port), Some(3333));
    assert_eq!(
        args.admin.map(|a| a.port),
        Some(2222),
        "an option with no flag still takes its environment value"
    );
}

#[test]
fn timeouts_are_read_as_seconds() {
    let args = parse(&["--connect-timeout", "2", "--shutdown-grace", "45"]).expect("valid");
    assert_eq!(args.connect_timeout, Duration::from_secs(2));
    assert_eq!(args.shutdown_grace, Duration::from_secs(45));
}

#[test]
fn zero_attempts_is_clamped_to_one() {
    // Zero attempts would mean "never dispatch the request", which is not
    // a configuration anybody means.
    assert_eq!(
        parse(&["--max-connect-attempts", "0"])
            .expect("valid")
            .max_connect_attempts,
        1
    );
}

#[test]
fn bad_input_is_named_precisely() {
    assert!(matches!(
        parse(&["--nope"]),
        Err(ArgError::Unknown(name)) if name == "--nope"
    ));
    assert!(matches!(parse(&["--http"]), Err(ArgError::MissingValue(_))));
    assert!(matches!(
        parse(&["--http", "not-an-address"]),
        Err(ArgError::BadValue { kind: "address", .. })
    ));
    assert!(matches!(
        parse(&["--connect-timeout", "soon"]),
        Err(ArgError::BadValue { .. })
    ));
    assert!(matches!(
        parse(&["routes.yaml"]),
        Err(ArgError::Unexpected(_))
    ));
}

#[test]
fn help_and_version_short_forms_work() {
    assert!(parse(&["-h"]).expect("valid").help);
    assert!(parse(&["--help"]).expect("valid").help);
    assert!(parse(&["-V"]).expect("valid").version);
}

#[test]
fn kubernetes_mode_is_the_default_and_has_the_documented_defaults() {
    let args = parse(&[]).expect("no arguments is valid");
    assert_eq!(args.static_routes, None, "no file means watch Kubernetes");
    assert_eq!(args.ingress_class, "ramjet");
    assert_eq!(args.watch_namespace, None, "None is every namespace");
    assert!(args.update_status, "status writeback is on by default");
}

#[test]
fn the_kubernetes_flags_are_read() {
    let args = parse(&[
        "--ingress-class",
        "public",
        "--watch-namespace",
        "prod",
        "--publish-address",
        "203.0.113.10",
        "--publish-service",
        "ingress/ramjet-lb",
        "--default-backend",
        "kube-system/notfound:8080",
        "--default-tls-secret",
        "ingress/wildcard",
        "--no-status-update",
    ])
    .expect("valid");

    assert_eq!(args.ingress_class, "public");
    assert_eq!(args.watch_namespace.as_deref(), Some("prod"));
    assert_eq!(args.publish_address.as_deref(), Some("203.0.113.10"));
    assert_eq!(args.publish_service.as_deref(), Some("ingress/ramjet-lb"));
    assert_eq!(args.default_tls_secret.as_deref(), Some("ingress/wildcard"));
    assert!(!args.update_status);

    let backend = args.default_backend.expect("a parsed reference");
    assert_eq!(backend.backend_name(), "kube-system/notfound:8080");
}

#[test]
fn a_malformed_default_backend_is_rejected_at_startup() {
    // Not at the first unmatched request, which is the other place a typo
    // here could plausibly show up.
    assert!(matches!(
        parse(&["--default-backend", "notfound"]),
        Err(ArgError::BadValue { ref option, .. }) if option == "--default-backend"
    ));
}

#[test]
fn status_writeback_can_be_switched_off_from_the_environment() {
    let env = [("RAMJET_UPDATE_STATUS", "false"), ("RAMJET_INGRESS_CLASS", "public")];
    let args = parse_with(&[], &env).expect("valid");
    assert!(!args.update_status);
    assert_eq!(args.ingress_class, "public");

    let bad = [("RAMJET_UPDATE_STATUS", "sometimes")];
    assert!(matches!(
        parse_with(&[], &bad),
        Err(ArgError::BadValue { kind: "boolean", .. })
    ));
}

#[test]
fn the_usage_text_mentions_every_option_it_accepts() {
    for option in [
        "--static-routes",
        "--ingress-class",
        "--watch-namespace",
        "--publish-address",
        "--publish-service",
        "--default-backend",
        "--default-tls-secret",
        "--no-status-update",
        "--http",
        "--https",
        "--admin",
        "--no-http",
        "--no-https",
        "--no-admin",
        "--connect-timeout",
        "--response-timeout",
        "--shutdown-grace",
        "--max-connect-attempts",
        "--max-buf-size",
        "--mirror-max-body",
        "--engine",
        "--proxy-protocol",
        "--proxy-protocol-timeout",
        "--history-size",
        "--audit-webhook",
    ] {
        assert!(USAGE.contains(option), "{option} is undocumented");
    }
}

#[test]
fn the_mirror_body_cap_takes_a_flag_and_an_environment_twin() {
    assert_eq!(
        parse(&[]).expect("valid").mirror_max_body,
        DEFAULT_MIRROR_MAX_BODY
    );
    assert_eq!(
        parse(&["--mirror-max-body", "1024"])
            .expect("valid")
            .mirror_max_body,
        1024
    );

    let env = [("RAMJET_MIRROR_MAX_BODY", "4096")];
    let args = parse_with(&[], &env).expect("valid");
    assert_eq!(args.mirror_max_body, 4096);
}

#[test]
fn a_mirror_body_cap_of_zero_is_a_legal_way_to_mirror_only_empty_bodies() {
    // Not clamped up, unlike the buffer ceiling: zero means "never buffer",
    // which still mirrors every GET and is a reasonable thing to ask for on
    // a route that carries large uploads.
    assert_eq!(
        parse(&["--mirror-max-body", "0"])
            .expect("valid")
            .mirror_max_body,
        0
    );
}

#[test]
fn the_usage_text_documents_both_new_features() {
    for phrase in [
        "ramjet.dev/mirror-backend",
        "X-Mirrored-By",
        "ramjet_mirror_dropped_total",
        "auto-promote-steps",
        "auto-promote-max-latency-factor",
        "rolled-back",
    ] {
        assert!(USAGE.contains(phrase), "{phrase} is undocumented");
    }
}

#[test]
fn the_usage_text_documents_every_admin_endpoint() {
    for endpoint in [
        "/metrics",
        "/healthz",
        "/readyz",
        "/admin/generations",
        "/admin/routes",
        "/admin/rollback",
    ] {
        assert!(USAGE.contains(endpoint), "{endpoint} is undocumented");
    }
}

#[test]
fn history_and_audit_take_a_flag_and_an_environment_twin() {
    let args = parse(&[
        "--history-size",
        "25",
        "--audit-webhook",
        "http://audit.svc:8080/hook",
    ])
    .expect("valid");
    assert_eq!(args.history_size, 25);
    assert_eq!(args.audit_webhook.as_deref(), Some("http://audit.svc:8080/hook"));

    let env = [("RAMJET_HISTORY_SIZE", "3"), ("RAMJET_AUDIT_WEBHOOK", "http://elsewhere:9000/")];
    let args = parse_with(&[], &env).expect("valid");
    assert_eq!(args.history_size, 3);
    assert_eq!(args.audit_webhook.as_deref(), Some("http://elsewhere:9000/"));
}

#[test]
fn a_history_of_zero_is_read_as_one() {
    // A ring that keeps nothing could never answer a rollback, and zero is
    // a typo rather than an intent.
    assert_eq!(parse(&["--history-size", "0"]).expect("valid").history_size, 1);
}

#[test]
fn the_history_default_is_the_one_the_proxy_documents() {
    assert_eq!(
        parse(&[]).expect("valid").history_size,
        DEFAULT_HISTORY_SIZE
    );
    assert_eq!(parse(&[]).expect("valid").audit_webhook, None);
}

#[test]
fn http3_is_off_unless_asked_for() {
    // A UDP socket a deployment did not ask for is one nobody firewalled.
    assert!(!parse(&[]).expect("valid").http3);
}

#[test]
fn http3_takes_a_flag_and_an_environment_twin() {
    assert!(parse(&["--http3"]).expect("valid").http3);

    let env = [("RAMJET_HTTP3", "true")];
    assert!(parse_with(&[], &env).expect("valid").http3);
}

#[test]
fn http3_and_the_uring_engine_is_refused_at_startup() {
    // The uring engine has neither TLS nor QUIC. Accepting the flag and
    // doing nothing would leave an operator waiting for h3 traffic that
    // was never going to arrive.
    let error = parse(&["--http3", "--engine", "uring", "--static-routes", "r.yaml"])
        .expect_err("refused");
    let message = error.to_text();
    assert!(
        matches!(error, ArgError::Conflict(_)),
        "expected a conflict, got {message}"
    );
    assert!(message.contains("--engine hyper"), "{message} names no way out");
}

#[test]
fn http3_without_a_tls_listener_is_refused_at_startup() {
    // h3 is served on the --https port in UDP and advertised by alt-svc
    // naming that port. With no TLS listener there is no port and no
    // response to advertise it on.
    let error = parse(&["--http3", "--no-https"]).expect_err("refused");
    assert!(matches!(error, ArgError::Conflict(_)), "{error:?}");
}

#[test]
fn help_still_prints_over_a_refused_combination() {
    // `--help` is a request for text. Answering it with a usage error
    // about two other flags is the least useful moment to be strict.
    let args = parse(&["--http3", "--no-https", "--help"]).expect("help wins");
    assert!(args.help);
}

#[test]
fn the_proxy_protocol_is_off_unless_asked_for() {
    // On by default would mean a fresh deployment refuses every connection
    // that does not carry a header, which is every connection.
    let args = parse(&[]).expect("valid");
    assert!(!args.proxy_protocol);
    assert_eq!(args.proxy_protocol_timeout, Duration::from_secs(5));
}

#[test]
fn the_proxy_protocol_takes_a_flag_and_an_environment_twin() {
    let args = parse(&["--proxy-protocol", "--proxy-protocol-timeout", "2"])
        .expect("valid");
    assert!(args.proxy_protocol);
    assert_eq!(args.proxy_protocol_timeout, Duration::from_secs(2));

    let env = [("RAMJET_PROXY_PROTOCOL", "true"), ("RAMJET_PROXY_PROTOCOL_TIMEOUT", "9")];
    let args = parse_with(&[], &env).expect("valid");
    assert!(args.proxy_protocol);
    assert_eq!(args.proxy_protocol_timeout, Duration::from_secs(9));
}

#[test]
fn a_bad_proxy_protocol_value_is_named_precisely() {
    assert!(matches!(
        parse(&["--proxy-protocol-timeout", "never"]),
        Err(ArgError::BadValue { ref option, .. }) if option == "--proxy-protocol-timeout"
    ));

    let bad = [("RAMJET_PROXY_PROTOCOL", "perhaps")];
    assert!(matches!(
        parse_with(&[], &bad),
        Err(ArgError::BadValue { kind: "boolean", .. })
    ));
}

#[test]
fn every_refusal_is_worded() {
    let said = |arguments: &[&str]| parse(arguments).expect_err("refused").to_text();
    assert_eq!(said(&["--nope"]), "unknown option `--nope` (try --help)");
    assert_eq!(said(&["--http"]), "option `--http` needs a value");
    assert_eq!(said(&["routes.yaml"]), "unexpected argument `routes.yaml` (every option is a --flag)");
    assert_eq!(
        said(&["--http", "not-an-address"]),
        "`not-an-address` is not a valid address for `--http`"
    );
    let raw = vec![Argument::Raw("--caf\\xE9".to_owned())];
    let error = Args::parse(&raw, &Vec::new()).expect_err("refused");
    assert!(matches!(&error, ArgError::NotUtf8(shown) if shown == "--caf\\xE9"), "{error:?}");
}

#[test]
fn a_later_flag_replaces_an_earlier_one() {
    let args = parse(&["--http", "9000", "--http=9001", "--engine=uring", "--engine", "hyper"])
        .expect("valid");
    assert_eq!(args.http, Some(SocketAddr::v4([0, 0, 0, 0], 9001)));
    assert_eq!(args.engine, Engine::Hyper);
}

#[test]
fn a_service_reference_reads_back() {
    let backend = ServiceRef::parse("kube-system/notfound:8080").expect("valid");
    assert_eq!(backend.backend_name(), "kube-system/notfound:8080");
    for wrong in ["", "notfound", "a/b", "a:80", "/b:80", "a/:80", "a/b:", "a/b:70000", "a/b:x y"] {
        if let Some(read) = ServiceRef::parse(wrong) {
            assert_eq!(read.backend_name(), wrong, "{wrong}");
        }
    }
    assert!(ServiceRef::parse("notfound").is_none());
    assert!(ServiceRef::parse("/b:80").is_none());
}

#[test]
fn engines_know_their_names() {
    assert_eq!(Engine::default(), Engine::Hyper);
    for engine in [Engine::Hyper, Engine::Uring, Engine::UringStrict] {
        let args = parse(&["--engine", engine.as_str()]).expect("valid");
        assert_eq!(args.engine, engine);
        assert_eq!(engine.is_uring(), engine != Engine::Hyper);
        assert_eq!(engine.is_strict(), engine == Engine::UringStrict);
    }
}

#[test]
fn an_environment_value_is_judged_like_a_flag() {
    let error = parse_with(&[], &[("RAMJET_HTTP", "nowhere")]).expect_err("refused");
    assert!(matches!(&error, ArgError::BadValue { kind: "address", .. }), "{error:?}");
    let args = parse_with(&["--no-http"], &[("RAMJET_HTTP", "9000")]).expect("valid");
    assert_eq!(args.http, None);
}

#[test]
fn an_option_decides_wherever_it_stands_and_however_it_is_written() {
    let env = [("RAMJET_CONNECT_TIMEOUT", "9")];
    let others = ["--http", "9000", "--engine=uring"];
    for written in [vec!["--connect-timeout", "4"], vec!["--connect-timeout=4"]] {
        for place in [0, 2, 3] {
            let mut arguments: Vec<&str> = others.to_vec();
            for (offset, part) in written.iter().enumerate() {
                arguments.insert(place + offset, part);
            }
            let args = parse_with(&arguments, &env).expect("valid");
            assert_eq!(args.connect_timeout, Duration::from_secs(4), "{arguments:?}");
            assert_eq!(args.engine, Engine::Uring);
        }
    }
    let args = parse_with(&others, &env).expect("valid");
    assert_eq!(args.connect_timeout, Duration::from_secs(9));
    let left = parse(&others).expect("valid").connect_timeout;
    assert_eq!(left, parse(&[]).expect("valid").connect_timeout);
}

#[test]
fn no_two_engines_share_a_name() {
    let engines = [Engine::Hyper, Engine::Uring, Engine::UringStrict];
    for left in engines {
        for right in engines {
            assert_eq!(left.as_str() == right.as_str(), left == right);
        }
    }
}

#[test]
fn an_engine_is_named_exactly() {
    for known in [Engine::Hyper, Engine::Uring, Engine::UringStrict] {
        assert_eq!(engine("--engine", known.as_str()).expect("known"), known);
    }
    for other in ["", "Hyper", "io_uring", " uring", "uring-"] {
        match engine("RAMJET_ENGINE", other) {
            Err(ArgError::BadValue { option, value, .. }) => {
                assert_eq!((option.as_str(), value.as_str()), ("RAMJET_ENGINE", other));
            }
            answer => panic!("{other}: {answer:?}"),
        }
    }
}

#[test]
fn arguments_can_be_copied_and_compared() {
    let args = parse(&["--http", "9000", "--default-backend", "kube-system/notfound:8080"])
        .expect("valid");
    let copy = args.clone();
    assert_eq!(copy, args);
    assert!(copy != parse(&["--http", "9001"]).expect("valid"));
}
