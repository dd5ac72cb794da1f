//! Dialling endpoints.
use ramjet_ingress::net::SocketAddr;
use ramjet_ingress::text::to_chars;
use ramjet_ingress::net::parse_socket;
use ramjet_ingress::time::Duration;
use ramjet_ingress::upstream::{
    endpoint_target, endpoint_uri, outcome, Exchange, UpstreamConfig, UpstreamError,
    DEFAULT_POOL_MAX_IDLE_PER_HOST,
};

fn addr(text: &str) -> SocketAddr {
    parse_socket(&to_chars(text)).expect("addr")
}

#[test]
fn builds_an_absolute_uri_with_the_path_intact() {
    let uri = endpoint_uri(addr("10.0.0.5:8080"), Some("/api/v1/users?limit=10")).expect("a uri");
    assert_eq!(uri.to_string(), "http://10.0.0.5:8080/api/v1/users?limit=10");
    assert_eq!(uri.authority().map(|a| a.as_str()), Some("10.0.0.5:8080"));
}

#[test]
fn ipv6_endpoints_are_bracketed() {
    let uri = endpoint_uri(addr("[2001:db8::1]:8080"), Some("/")).expect("a uri");
    assert_eq!(uri.to_string(), "http://[2001:db8::1]:8080/");
}

#[test]
fn a_missing_path_becomes_root() {
    let uri = endpoint_uri(addr("10.0.0.5:80"), None).expect("a uri");
    assert_eq!(uri.path(), "/");
}

#[test]
fn defaults_bound_connect_tightly_and_responses_loosely() {
    // A pod that has not accepted in five seconds is not going to; a pod
    // that takes thirty seconds to answer is still working.
    let config = UpstreamConfig::default();
    assert_eq!(config.connect_timeout, Duration::from_secs(5));
    assert_eq!(config.response_timeout, Duration::from_secs(60));
    assert!(config.connect_timeout < config.response_timeout);
    assert_eq!(config.pool_idle_timeout, Duration::from_secs(90));
    assert_eq!(config.tcp_keepalive, Some(Duration::from_secs(60)));
    assert_eq!(config.attempts(), 3);
    assert_eq!(DEFAULT_POOL_MAX_IDLE_PER_HOST, 128);
}

#[test]
fn only_connect_failures_are_retryable() {
    assert!(!UpstreamError::Timeout.is_retryable());
    assert!(!UpstreamError::Transport("reset".to_owned()).is_retryable());
    assert!(UpstreamError::Connect("refused".to_owned()).is_retryable());
}

#[test]
fn no_configuration_means_no_dispatch() {
    let config = UpstreamConfig { max_connect_attempts: 0, ..UpstreamConfig::default() };
    assert_eq!(config.attempts(), 1);
}

#[test]
fn every_ending_has_its_error() {
    assert!(matches!(outcome(Exchange::Answered(7)), Ok(7)));
    let late = outcome::<()>(Exchange::Elapsed).expect_err("late");
    assert_eq!(late.to_text(), "upstream response timed out");
    let refused = outcome::<()>(Exchange::Failed { connecting: true, cause: "refused".to_owned() })
        .expect_err("refused");
    assert_eq!(refused.to_text(), "upstream connect failed: refused");
    let reset = outcome::<()>(Exchange::Failed { connecting: false, cause: "reset".to_owned() })
        .expect_err("reset");
    assert_eq!(reset.to_text(), "upstream exchange failed: reset");
}

#[test]
fn a_path_that_spells_no_uri_makes_none() {
    assert_eq!(endpoint_target(addr("10.0.0.5:80"), Some("/a b")), "http://10.0.0.5:80/a b");
    assert!(endpoint_uri(addr("10.0.0.5:80"), Some("/a b")).is_none());
}
