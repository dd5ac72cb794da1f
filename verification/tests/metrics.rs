//! The counters and their exposition.
use ramjet_ingress::metrics::Metrics;
use ramjet_ingress::time::Duration;

#[test]
fn status_classes_land_in_the_right_bucket() {
    let mut m = Metrics::new();
    m.record_response(200);
    m.record_response(204);
    m.record_response(404);
    m.record_response(503);
    m.record_response(999);
    assert_eq!(m.responses("2xx"), 2);
    assert_eq!(m.responses("4xx"), 1);
    assert_eq!(m.responses("5xx"), 1);
    assert_eq!(m.responses("other"), 1);
    assert_eq!(m.responses("3xx"), 0);
}

#[test]
fn histogram_buckets_are_cumulative_in_the_output() {
    let mut m = Metrics::new();
    m.record_upstream_latency(Duration::from_micros(500)); // <= 0.001
    m.record_upstream_latency(Duration::from_millis(20)); // <= 0.025
    m.record_upstream_latency(Duration::from_secs(30)); // over the last bound

    let text = m.render_prometheus(0, false);
    assert!(text.contains("ramjet_upstream_latency_seconds_bucket{le=\"0.001\"} 1"));
    assert!(text.contains("ramjet_upstream_latency_seconds_bucket{le=\"0.025\"} 2"));
    assert!(text.contains("ramjet_upstream_latency_seconds_bucket{le=\"10\"} 2"));
    // The +Inf bucket is the total count, which is how an observation past
    // the last bound stays visible.
    assert!(text.contains("ramjet_upstream_latency_seconds_bucket{le=\"+Inf\"} 3"));
    assert!(text.contains("ramjet_upstream_latency_seconds_count 3"));
    assert!(text.contains("ramjet_upstream_latency_seconds_sum 30.0205"), "{text}");
    assert_eq!(m.upstream_observations(), 3);
}

#[test]
fn active_connections_returns_to_zero() {
    let mut m = Metrics::new();
    {
        let a = m.connection_opened();
        let b = m.connection_opened();
        assert_eq!(m.active_connections(), 2);
        m.connection_closed(a);
        m.connection_closed(b);
    }
    assert_eq!(m.active_connections(), 0);
}

#[test]
fn generation_is_reported_from_the_argument() {
    let m = Metrics::new();
    assert!(m
        .render_prometheus(42, false)
        .contains("ramjet_route_table_generation 42"));
}

#[test]
fn the_pin_gauge_says_whether_publication_is_held() {
    let m = Metrics::new();
    assert!(m.render_prometheus(42, false).contains("ramjet_pinned 0"));
    assert!(m.render_prometheus(42, true).contains("ramjet_pinned 1"));
}

#[test]
fn the_four_mirror_outcomes_are_told_apart() {
    // They have four different fixes — a slow shadow, a shallow queue, a
    // body cap set too low, and a backend that is simply down — so folding
    // them into one counter would make the metric unactionable.
    let mut m = Metrics::new();
    m.record_mirrored();
    m.record_mirror_dropped();
    m.record_mirror_dropped();
    m.record_mirror_skipped();
    m.record_mirror_failure();

    assert_eq!(
        (
            m.mirrored(),
            m.mirror_dropped(),
            m.mirror_skipped(),
            m.mirror_failures()
        ),
        (1, 2, 1, 1)
    );

    let text = m.render_prometheus(0, false);
    assert!(text.contains("ramjet_mirrored_total 1"));
    assert!(text.contains("ramjet_mirror_dropped_total 2"));
    assert!(text.contains("ramjet_mirror_skipped_total 1"));
    assert!(text.contains("ramjet_mirror_failures_total 1"));
}

#[test]
fn exposition_has_help_and_type_for_every_series() {
    let text = Metrics::new().render_prometheus(1, false);
    let series: Vec<&str> = text
        .lines()
        .filter(|l| l.starts_with("# TYPE "))
        .map(|l| l.trim_start_matches("# TYPE "))
        .collect();
    assert!(!series.is_empty());
    for line in &series {
        let name = line.split(' ').next().unwrap_or_default();
        assert!(
            text.contains(&format!("# HELP {name} ")),
            "{name} has a TYPE but no HELP"
        );
    }
}

#[test]
fn a_latency_at_a_bound_counts_for_it() {
    let mut m = Metrics::new();
    m.record_upstream_latency(Duration::from_millis(5));
    let text = m.render_prometheus(0, false);
    assert!(text.contains("ramjet_upstream_latency_seconds_bucket{le=\"0.0025\"} 0\n"), "{text}");
    assert!(text.contains("ramjet_upstream_latency_seconds_bucket{le=\"0.005\"} 1\n"), "{text}");
}

#[test]
fn sums_are_shown_as_a_double_would_show_them() {
    // The sum is kept in nanoseconds and shown in seconds.
    let mut counts: Vec<u64> = vec![0, 1, 499, 500, 501, 1_500, 2_500, 20_500, 999_999_500, u64::MAX];
    let mut state: u64 = 0x9E37_79B9_7F4A_7C15;
    for shift in 0..64 {
        state ^= state << 13;
        state ^= state >> 7;
        state ^= state << 17;
        counts.push(state >> shift);
        counts.push((state >> shift) / 1000 * 1000 + 500);
        counts.push((1u64 << shift) - 1);
    }
    for nanos in counts {
        let mut m = Metrics::new();
        m.record_upstream_latency(Duration::from_nanos(nanos));
        let expected = format!(
            "ramjet_upstream_latency_seconds_sum {:.6}\n",
            nanos as f64 / 1e9
        );
        let text = m.render_prometheus(0, false);
        let shown = text.lines().find(|l| l.contains("_seconds_sum")).unwrap_or_default();
        assert!(text.contains(&expected), "{nanos}: {expected} is shown as {shown}");
    }
}

#[test]
fn every_event_has_its_own_counter() {
    let mut m = Metrics::default();
    m.record_tls_handshake();
    m.record_tls_handshake_failure();
    m.record_connect_failure();
    m.record_retry();
    m.record_upstream_timeout();
    m.record_route_miss();
    m.record_h3_connection();
    m.record_h3_request();
    m.record_h3_handshake_failure();
    assert_eq!((m.tls_handshakes(), m.retries()), (1, 1));
    assert_eq!(
        (m.h3_connections(), m.h3_requests(), m.h3_handshake_failures()),
        (1, 1, 1)
    );
    let text = m.render_prometheus(0, false);
    let ones = text.lines().filter(|l| !l.starts_with('#') && l.ends_with(" 1")).count();
    assert_eq!(ones, 9, "{text}");
}

#[test]
fn the_largest_generation_is_shown_as_it_is() {
    let text = Metrics::new().render_prometheus(u64::MAX, false);
    assert!(text.contains("ramjet_route_table_generation 18446744073709551615\n"), "{text}");
}

#[test]
fn the_buckets_count_every_latency_whatever_happens_between() {
    let mut m = Metrics::new();
    let latencies: [u64; 6] = [700, 1_000, 4_000, 4_000, 60_000, 11_000_000];
    for micros in latencies {
        m.record_response(200);
        m.record_upstream_latency(Duration::from_micros(micros));
        m.record_retry();
    }
    assert_eq!(m.upstream_observations(), 6);
    let text = m.render_prometheus(0, false);
    for (bound, micros) in [
        ("0.001", 1_000),
        ("0.0025", 2_500),
        ("0.005", 5_000),
        ("0.01", 10_000),
        ("0.1", 100_000),
        ("10", 10_000_000),
    ] {
        let within = latencies.iter().filter(|l| **l <= micros).count();
        let line = format!("ramjet_upstream_latency_seconds_bucket{{le=\"{bound}\"}} {within}\n");
        assert!(text.contains(&line), "{line}{text}");
    }
    assert!(text.contains("ramjet_upstream_latency_seconds_bucket{le=\"+Inf\"} 6\n"), "{text}");
}

#[test]
fn every_response_counts_once_in_its_class() {
    let mut m = Metrics::new();
    let statuses: [u16; 8] = [101, 200, 299, 301, 404, 500, 599, 600];
    for status in statuses {
        m.record_response(status);
        m.record_route_miss();
    }
    let shown: Vec<u64> =
        ["1xx", "2xx", "3xx", "4xx", "5xx", "other"].iter().map(|c| m.responses(c)).collect();
    assert_eq!(shown, vec![1, 2, 1, 1, 2, 1]);
    assert_eq!(shown.iter().sum::<u64>(), 8);
    let text = m.render_prometheus(0, false);
    assert!(text.contains("ramjet_requests_total{code=\"2xx\"} 2\n"), "{text}");
}

#[test]
fn closing_a_connection_leaves_everything_else_alone() {
    let mut m = Metrics::new();
    m.record_response(503);
    let before = m.render_prometheus(3, false);
    let guard = m.connection_opened();
    assert_eq!(m.active_connections(), 1);
    m.connection_closed(guard);
    let after = m.render_prometheus(3, false);
    let differ = before.lines().zip(after.lines()).filter(|(b, a)| b != a).count();
    assert_eq!(m.active_connections(), 0);
    assert!(differ <= 1, "{before}{after}");
}

#[test]
fn every_series_is_declared_once_and_before_its_samples() {
    let text = Metrics::new().render_prometheus(1, true);
    let mut declared: Vec<&str> = Vec::new();
    for line in text.lines() {
        if let Some(rest) = line.strip_prefix("# HELP ") {
            let name = rest.split(' ').next().unwrap_or_default();
            assert!(!declared.contains(&name), "{name} is declared twice");
            declared.push(name);
        } else if let Some(rest) = line.strip_prefix("# TYPE ") {
            let name = rest.split(' ').next().unwrap_or_default();
            assert_eq!(declared.last(), Some(&name), "{name} has its TYPE elsewhere");
        } else {
            let name = line.split(['{', ' ']).next().unwrap_or_default();
            let family = declared.last().copied().unwrap_or_default();
            assert!(name.starts_with(family), "{line} stands under {family}");
        }
    }
    assert!(declared.contains(&"ramjet_upstream_latency_seconds"));
}
