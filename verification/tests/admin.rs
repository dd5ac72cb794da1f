//! The admin endpoints.
use http::{HeaderMap, HeaderValue};
use ramjet_ingress::admin::{
    endpoint, generations, method, mutates, notice, pin, resume, rollback, routes, AdminAuth,
    CanaryEntry, Endpoint, Method, MirrorEntry, PinReply, ReadinessFlag, RouteFacts, TokenError,
    API_VERSION, UNGATED,
};
use ramjet_ingress::calendar::Moment;
use ramjet_ingress::history::{CertKeys, GenerationHistory, Snapshot};
use ramjet_ingress::tls::CertStore;
use ramjet_ingress::totals::RouteTotals;
use serde_json::Value;
use std::sync::Arc;

fn bearer(value: &str) -> HeaderMap {
    let mut headers = HeaderMap::new();
    headers.insert(
        "authorization",
        HeaderValue::from_str(value).expect("a header value"),
    );
    headers
}

#[test]
fn only_the_configured_token_authorizes() {
    let auth = AdminAuth::from_token("s3cret").expect("a token");
    assert!(auth.authorizes(&bearer("Bearer s3cret")));
    assert!(!auth.authorizes(&bearer("Bearer s3cre")), "a prefix is not the token");
    assert!(!auth.authorizes(&bearer("Bearer s3crett")));
    assert!(!auth.authorizes(&bearer("Bearer ")));
    assert!(!auth.authorizes(&HeaderMap::new()), "no header at all");
}

#[test]
fn the_scheme_is_case_insensitive_and_the_token_is_not() {
    // RFC 7235: the scheme name is case-insensitive, the credentials are
    // opaque. A client library that sends `bearer` is not wrong; one that
    // upper-cases the secret is.
    let auth = AdminAuth::from_token("Ab").expect("a token");
    assert!(auth.authorizes(&bearer("bearer Ab")));
    assert!(auth.authorizes(&bearer("BEARER Ab")));
    assert!(!auth.authorizes(&bearer("Bearer aB")));
}

#[test]
fn a_credential_that_is_not_a_bearer_is_refused() {
    let auth = AdminAuth::from_token("s3cret").expect("a token");
    assert!(!auth.authorizes(&bearer("s3cret")), "no scheme");
    assert!(!auth.authorizes(&bearer("Basic s3cret")));
    assert!(!auth.authorizes(&bearer("Bearers3cret")), "no separator");
}

#[test]
fn a_token_file_is_trimmed_but_not_otherwise_edited() {
    // What `kubectl create secret generic --from-literal` and every editor
    // produce: a trailing newline that is not part of the secret.
    let auth = AdminAuth::from_file(Ok(b"  a token with spaces\n".to_vec())).expect("a token");
    assert!(auth.authorizes(&bearer("Bearer a token with spaces")));
    assert!(
        !auth.authorizes(&bearer("Bearer  a token with spaces")),
        "the padding the file carried is not part of the token"
    );

    assert!(
        matches!(AdminAuth::from_file(Ok(b"\n\t \n".to_vec())), Err(TokenError::Empty)),
        "whitespace is not a token"
    );
}

#[test]
fn a_missing_token_file_is_named_rather_than_ignored() {
    let missing = std::io::Error::from(std::io::ErrorKind::NotFound);
    let error = match AdminAuth::from_file(Err(missing)) {
        Err(error) => error,
        Ok(_) => panic!("no such file"),
    };
    assert!(matches!(error, TokenError::Unreadable(_)), "{error:?}");
    assert!(error.to_text().contains("admin token file"), "{}", error.to_text());
}

#[test]
fn the_token_never_reaches_a_log_line() {
    let auth = AdminAuth::from_token("s3cret").expect("a token");
    let rendered = auth.to_text();
    assert!(!rendered.contains("s3cret"), "{rendered}");
}

#[test]
fn only_the_methods_that_can_change_something_are_gated() {
    assert!(!mutates(method("GET")), "a scrape must never need a token");
    assert!(!mutates(method("HEAD")));
    for name in ["POST", "DELETE", "PUT", "PATCH"] {
        assert!(mutates(method(name)), "{name}");
    }
}

#[test]
fn a_method_nobody_thought_about_is_treated_as_a_write() {
    // The safe methods are named rather than the unsafe ones, so an extension
    // method — or a lower-cased `post`, which is one — is not waved through.
    for name in ["PURGE", "post", "PROPFIND", "\u{1}"] {
        assert!(mutates(method(name)), "{name} must be treated as a write");
    }
}

#[test]
fn the_exemptions_are_the_three_callers_that_cannot_send_a_header() {
    // Prometheus and the kubelet, and nothing else. A path added to this
    // list is a path that can be reached without a token, so the list is
    // worth asserting on.
    assert_eq!(UNGATED, ["/metrics", "/healthz", "/readyz"]);
    for path in ["/admin/rollback", "/admin/generations", "/admin/routes", "/"] {
        assert!(
            !UNGATED.contains(&path),
            "{path} must not be exempt from the token"
        );
    }
}

#[test]
fn the_refusal_says_what_to_send() {
    let response = notice(Endpoint::Unauthorized, true).expect("a text");
    assert_eq!(response.status, 401);
    assert!(response.challenge, "a 401 with no challenge is not one a client can act on");
    assert_eq!(
        response.body,
        "unauthorized: this endpoint requires Authorization: Bearer <token>\n"
    );
}

#[test]
fn readiness_starts_false_and_is_shared_by_clones() {
    let flag = ReadinessFlag::new();
    assert!(!flag.is_ready(), "a fresh replica has no route table yet");

    let copy = flag.clone();
    flag.set_ready(true);
    assert!(copy.is_ready(), "clones must observe the same flag");

    copy.set_ready(false);
    assert!(!flag.is_ready());
}

fn snapshot(generation: u64) -> Arc<Snapshot<()>> {
    Arc::new(Snapshot {
        generation,
        route_count: 2,
        host_count: 1,
        wildcard_host_count: 1,
        table: (),
    })
}

fn summary(text: &str) -> Arc<Value> {
    let mut object = serde_json::Map::new();
    object.insert("summary".to_owned(), Value::from(text));
    Arc::new(Value::Object(object))
}

fn history() -> GenerationHistory<()> {
    let mut history = GenerationHistory::new(snapshot(0), CertStore::new(), 10);
    history.record(
        7,
        0xdead_beef,
        summary("2 routes added"),
        snapshot(7),
        Arc::new(CertKeys::new()),
        Moment::Since(1_000_000_000),
    );
    history
}

fn record(history: &mut GenerationHistory<()>, generation: u64, digest: u64) {
    history.record(
        generation,
        digest,
        summary("no change"),
        snapshot(generation),
        Arc::new(CertKeys::new()),
        Moment::Since(1_000_000_001),
    );
}

#[test]
fn generations_reports_the_ring_newest_first() {
    let mut history = history();
    record(&mut history, 8, 0x1234);

    let body = generations(&history);
    assert_eq!(body.version, API_VERSION);
    assert_eq!(body.pinned, None);
    assert_eq!(body.serving, 8);

    let listed = &body.generations;
    assert_eq!(listed.len(), 2);
    assert_eq!(listed[0].generation, 8, "newest first");
    assert_eq!(listed[1].generation, 7);
    assert_eq!(listed[1].digest, "00000000deadbeef");
    assert!(listed[1].published);
    assert_eq!(listed[1].routes, 2);
    assert_eq!(listed[1].hosts, 2);
    assert_eq!(listed[1].certs, 0);
    assert_eq!(listed[1].diff["summary"], "2 routes added");
    assert!(
        listed[0].applied_at.ends_with('Z'),
        "applied_at must be RFC 3339 UTC"
    );
    assert_eq!(listed[1].applied_at, "2001-09-09T01:46:40Z");
}

#[test]
fn a_pin_shows_up_in_the_listing() {
    let mut history = history();
    record(&mut history, 8, 0);
    history.pin(7).expect("pins");

    let body = generations(&history);
    assert_eq!(body.pinned, Some(7));
    assert_eq!(body.serving, 7, "serving is what is on the wire, not what was built");
}

fn totals(requests: u64, errors_5xx: u64, micros: u64, count: u64) -> RouteTotals {
    RouteTotals {
        requests,
        errors_5xx,
        upstream_latency_micros: micros,
        upstream_latency_count: count,
    }
}

fn route(host: &str, path: &str, path_type: &str) -> RouteFacts {
    RouteFacts {
        host: host.to_owned(),
        path: path.to_owned(),
        path_type: path_type.to_owned(),
        backend: "prod/api:80".to_owned(),
        endpoints: 2,
        protocol: "http".to_owned(),
        counters: Some((RouteTotals::default(), RouteTotals::default())),
        canary: None,
        mirror: None,
    }
}

fn with_canary(mut facts: RouteFacts) -> RouteFacts {
    facts.canary = Some(CanaryEntry {
        backend: "prod/api-canary:80".to_owned(),
        weight_percent: 25,
    });
    facts
}

/// One plain route, and one canary on a wildcard host.
fn table() -> Vec<RouteFacts> {
    vec![
        route("example.com", "/", "Prefix"),
        with_canary(route("*.example.com", "/v2", "Exact")),
    ]
}

#[test]
fn routes_reports_every_field_of_the_contract() {
    let body = routes(7, table());
    assert_eq!(body.version, API_VERSION);
    assert_eq!(body.generation, 7);

    let listed = &body.routes;
    assert_eq!(listed.len(), 2);

    // Sorted by host, so the wildcard's `*.example.com` sorts first.
    assert_eq!(listed[0].host, "*.example.com");
    assert_eq!(listed[0].path, "/v2");
    assert_eq!(listed[0].path_type, "Exact");
    assert_eq!(listed[0].backend, "prod/api:80");
    assert_eq!(listed[0].endpoints, 2);
    assert_eq!(
        listed[0].protocol, "http",
        "a backend nobody annotated reports the default rather than nothing"
    );
    let canary = listed[0].canary.as_ref().expect("a canary");
    assert_eq!(canary.backend, "prod/api-canary:80");
    assert_eq!(canary.weight_percent, 25);

    assert_eq!(listed[0].canary_stats.map(|stats| stats.requests), Some(0));

    assert_eq!(listed[1].host, "example.com");
    assert_eq!(listed[1].path_type, "Prefix");
    assert!(listed[1].canary.is_none());
    assert_eq!(listed[1].totals, RouteTotals::default());
    assert_eq!(
        listed[1].canary_stats,
        None,
        "a route with no canary has no split to report, and an object full \
         of zeroes could not be told apart from a canary nothing has reached"
    );
    assert!(listed[1].mirror.is_none());
}

#[test]
fn the_canary_split_is_a_subset_of_the_route_totals() {
    // The property the whole arrangement rests on: starting a canary must
    // not make an existing graph of a route's request rate step down.
    let mut facts = with_canary(route("*.example.com", "/v2", "Exact"));
    // Three stable requests, one of them a 5xx, and one canary request, also a
    // 5xx, recorded in both blocks.
    facts.counters = Some((totals(4, 2, 4000, 1), totals(1, 1, 4000, 1)));
    let body = routes(7, vec![route("example.com", "/", "Prefix"), facts]);
    let route = body.routes.iter().find(|route| route.path == "/v2").expect("listed");

    assert_eq!(route.totals.requests, 4, "the totals are still the totals");
    assert_eq!(route.totals.errors_5xx, 2);
    let canary = route.canary_stats.expect("a split");
    assert_eq!(canary.requests, 1);
    assert_eq!(canary.errors_5xx, 1);
    assert_eq!(canary.upstream_latency_micros, 4000);
    assert_eq!(canary.upstream_latency_count, 1);

    // Which is what makes the interesting number computable: three stable
    // requests, one of them failing, against one canary request that failed.
    let stable = route.totals.saturating_sub(&canary);
    assert_eq!((stable.requests, stable.errors_5xx), (3, 1));
}

#[test]
fn a_mirror_is_reported_with_its_target_and_sample() {
    let mut facts = route("example.com", "/", "Prefix");
    facts.mirror = Some(MirrorEntry {
        backend: "prod/shadow:80".to_owned(),
        percent: 25,
        host: Some("shadow.internal".to_owned()),
    });
    let body = routes(3, vec![facts]);
    let route = &body.routes[0];
    let mirror = route.mirror.as_ref().expect("a mirror");
    assert_eq!(mirror.backend, "prod/shadow:80");
    assert_eq!(mirror.percent, 25);
    assert_eq!(mirror.host.as_deref(), Some("shadow.internal"));
    assert_eq!(
        route.canary_stats,
        None,
        "a mirror is not a canary and reports no split"
    );
}

#[test]
fn route_counters_reach_the_listing() {
    let mut facts = route("example.com", "/", "Prefix");
    facts.counters = Some((totals(2, 1, 1500, 1), RouteTotals::default()));
    let body = routes(7, vec![with_canary(route("*.example.com", "/v2", "Exact")), facts]);
    let route = body.routes.iter().find(|route| route.path == "/").expect("listed");
    assert_eq!(route.totals.requests, 2);
    assert_eq!(route.totals.errors_5xx, 1);
    assert_eq!(route.totals.upstream_latency_micros, 1500);
    assert_eq!(route.totals.upstream_latency_count, 1);
}

#[test]
fn a_write_without_the_token_gets_nowhere() {
    let auth = Some(AdminAuth::from_token("s3cret").expect("a token"));
    let anonymous = HeaderMap::new();
    let good = bearer("Bearer s3cret");
    for name in ["POST", "DELETE", "PUT", "post"] {
        assert_eq!(
            endpoint(method(name), "/admin/rollback", &anonymous, &auth),
            Endpoint::Unauthorized,
            "{name}"
        );
    }
    assert_eq!(endpoint(Method::Post, "/admin/rollback", &good, &auth), Endpoint::Rollback);
    assert_eq!(endpoint(Method::Delete, "/admin/rollback", &good, &auth), Endpoint::Resume);
    // Reads never need one.
    for path in ["/admin/generations", "/admin/routes", "/metrics", "/healthz", "/readyz"] {
        assert_ne!(endpoint(Method::Get, path, &anonymous, &auth), Endpoint::Unauthorized, "{path}");
    }
    // Without a token configured nothing is refused.
    assert_eq!(endpoint(Method::Post, "/admin/rollback", &anonymous, &None), Endpoint::Rollback);
}

#[test]
fn a_rollback_names_a_generation() {
    let mut history = history();
    record(&mut history, 8, 0);
    let pinned = rollback(&mut history, Some(&b"{\"generation\": 7}"[..]));
    assert!(matches!(pinned, PinReply::Pinned(7)), "{pinned:?}");
    assert_eq!(pinned.status(), 200);
    assert_eq!(history.pinned(), Some(7));

    let again = rollback(&mut history, Some(&b"{\"generation\": 8}"[..]));
    assert_eq!(again.status(), 409, "{again:?}");

    let released = resume(&mut history);
    assert_eq!(released.status(), 200);
    assert_eq!((history.pinned(), history.serving()), (None, 8));

    let unknown = pin(&mut history, Some(99));
    assert_eq!(unknown.status(), 404, "{unknown:?}");
    for body in [&b"{}"[..], b"[]", b"{\"generation\": \"7\"}", b"{\"generation\": -1}", b"nonsense"] {
        assert_eq!(rollback(&mut history, Some(body)).status(), 400);
    }
    assert_eq!(rollback(&mut history, None).status(), 400);
    assert_eq!(history.pinned(), None);
}

#[test]
fn probes_answer_in_words() {
    let ready = endpoint(Method::Get, "/readyz", &HeaderMap::new(), &None);
    assert_eq!(notice(ready, false).map(|n| n.status), Some(503));
    assert_eq!(notice(ready, true).map(|n| n.status), Some(200));
    let alive = endpoint(Method::Get, "/healthz", &HeaderMap::new(), &None);
    assert_eq!(notice(alive, false).map(|n| n.status), Some(200));
    let nowhere = endpoint(Method::Get, "/nowhere", &HeaderMap::new(), &None);
    assert_eq!(notice(nowhere, true).map(|n| n.status), Some(404));
}

#[test]
fn the_listing_does_not_depend_on_the_tables_order() {
    let named = |list: &[(&str, &str)]| -> Vec<(String, String)> {
        let facts = list.iter().map(|(host, path)| route(host, path, "Prefix")).collect();
        routes(1, facts).routes.into_iter().map(|r| (r.host, r.path)).collect()
    };
    let one = named(&[("b", "/"), ("a", "/z"), ("a", "/"), ("é", "/"), ("a", "/zz")]);
    let two = named(&[("a", "/zz"), ("é", "/"), ("a", "/"), ("b", "/"), ("a", "/z")]);
    assert_eq!(one, two);
    let mut sorted = one.clone();
    sorted.sort();
    assert_eq!(one, sorted);
}
