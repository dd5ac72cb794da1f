//! Counters, gauges, and a fixed-bucket histogram, rendered as Prometheus text.
//!
//! An ingress data plane has a fixed, small set of series, so every series here
//! is a field and label cardinality is bounded by the types. Per-route and
//! per-backend series are deliberately absent: the numbers are served as JSON
//! to whoever asks, rather than as labelled series that every scrape pays for.
use vstd::prelude::*;
use crate::rounding;
use crate::rounding::push_seconds;
use crate::text;
use crate::text::{push_decimal, push_integer, push_text, same_text};
use crate::time::Duration;

verus! {

/// Anything that can render a `/metrics` body.
///
/// The admin listener serves whichever data plane is running and has no
/// business knowing which one that is.
pub trait Exposition {
    /// The Prometheus text exposition for the current counter values.
    fn render_prometheus(&self, generation: u64, pinned: bool) -> String;
}

/// Upper bounds of the upstream latency histogram, in nanoseconds. The
/// resolution lies between a millisecond and a tenth of a second, where a
/// healthy service lives.
pub const BUCKETS: [u128; 12] = [
    1_000_000,
    2_500_000,
    5_000_000,
    10_000_000,
    25_000_000,
    50_000_000,
    100_000_000,
    250_000_000,
    500_000_000,
    1_000_000_000,
    5_000_000_000,
    10_000_000_000,
];

/// The same bounds in seconds, as they are labelled.
pub const BOUNDS: [&'static str; 12] = [
    "0.001",
    "0.0025",
    "0.005",
    "0.01",
    "0.025",
    "0.05",
    "0.1",
    "0.25",
    "0.5",
    "1",
    "5",
    "10",
];

/// Status classes tracked by `ramjet_requests_total`.
pub const CLASSES: [&'static str; 6] = ["1xx", "2xx", "3xx", "4xx", "5xx", "other"];

/// A counter after one more event. A counter that is full starts again at zero.
pub open spec fn bumped(n: u64) -> u64 {
    if n == u64::MAX {
        0
    } else {
        (n + 1) as u64
    }
}

/// The sum of two counters, starting again at zero past the largest.
pub open spec fn wrapped_sum(a: u64, b: nat) -> u64 {
    ((a + b) % 0x1_0000_0000_0000_0000) as u64
}

fn bump(n: u64) -> (r: u64)
    ensures
        r == bumped(n),
{
    n.wrapping_add(1)
}

/// A fixed-bucket histogram of durations.
#[derive(Debug)]
pub struct Histogram {
    /// Observations by the first bound they do not exceed.
    pub buckets: [u64; 12],
    /// Total observed time in nanoseconds.
    pub sum_nanos: u64,
    /// Observations, also those past the last bound.
    pub count: u64,
}

/// The first bucket at or after `i` whose bound is no less than `nanos`, or 12.
pub open spec fn bucket_from(nanos: nat, i: nat) -> nat
    decreases 12 - i,
{
    if i >= 12 {
        12
    } else if nanos <= BUCKETS@[i as int] {
        i
    } else {
        bucket_from(nanos, i + 1)
    }
}

/// The bucket a duration falls into, or 12 when it is past the last bound.
pub open spec fn bucket_of(nanos: nat) -> nat {
    bucket_from(nanos, 0)
}

/// A duration clipped to what the sum can take.
pub open spec fn clipped(nanos: nat) -> nat {
    if nanos > u64::MAX {
        u64::MAX as nat
    } else {
        nanos
    }
}

/// The running total of the first `n` buckets.
pub open spec fn cumulative(buckets: Seq<u64>, n: nat) -> u64
    decreases n,
{
    if n == 0 {
        0
    } else {
        wrapped_sum(cumulative(buckets, (n - 1) as nat), buckets[n - 1] as nat)
    }
}

/// One labelled line of the histogram.
pub open spec fn bucket_line(name: Seq<char>, bound: Seq<char>, value: u64) -> Seq<char> {
    name + "_bucket{le=\""@ + bound + "\"} "@ + text::decimal(value as nat) + "\n"@
}

/// The lines of the first `n` buckets. Each carries the total up to its bound.
pub open spec fn bucket_lines(buckets: Seq<u64>, name: Seq<char>, n: nat) -> Seq<char>
    decreases n,
{
    if n == 0 {
        Seq::empty()
    } else {
        bucket_lines(buckets, name, (n - 1) as nat) + bucket_line(
            name,
            BOUNDS@[n - 1]@,
            cumulative(buckets, n),
        )
    }
}

/// The whole histogram.
pub open spec fn histogram_text(h: Histogram, name: Seq<char>) -> Seq<char> {
    bucket_lines(h.buckets@, name, 12) + bucket_line(name, "+Inf"@, h.count) + (name + "_sum "@
        + rounding::seconds(h.sum_nanos as nat) + "\n"@) + (name + "_count "@ + text::decimal(
        h.count as nat,
    ) + "\n"@)
}

fn push_bucket_line(out: &mut String, name: &str, bound: &str, value: u64)
    ensures
        final(out)@ == old(out)@ + bucket_line(name@, bound@, value),
{
    push_text(out, name);
    push_text(out, "_bucket{le=\"");
    push_text(out, bound);
    push_text(out, "\"} ");
    push_decimal(out, value);
    push_text(out, "\n");
    assert(out@ =~= old(out)@ + bucket_line(name@, bound@, value));
}

/// A histogram after one more observation.
pub open spec fn observed(before: Histogram, nanos: nat, after: Histogram) -> bool {
    &&& after.buckets@ == if bucket_of(nanos) < 12 {
        before.buckets@.update(
            bucket_of(nanos) as int,
            bumped(before.buckets@[bucket_of(nanos) as int]),
        )
    } else {
        before.buckets@
    }
    &&& after.sum_nanos == wrapped_sum(before.sum_nanos, clipped(nanos))
    &&& after.count == bumped(before.count)
}

/// The gauge after one more connection.
pub open spec fn next_connections(n: i64) -> i64 {
    if n == i64::MAX {
        i64::MIN
    } else {
        (n + 1) as i64
    }
}

/// The gauge after one connection fewer.
pub open spec fn fewer_connections(n: i64) -> i64 {
    if n == i64::MIN {
        i64::MAX
    } else {
        (n - 1) as i64
    }
}

impl Histogram {
    fn new() -> (r: Histogram)
        ensures
            r.buckets@ == Seq::new(12, |i: int| 0u64),
            r.sum_nanos == 0,
            r.count == 0,
    {
        let buckets: [u64; 12] = [0; 12];
        assert(buckets@ =~= Seq::new(12, |i: int| 0u64));
        Histogram { buckets, sum_nanos: 0, count: 0 }
    }

    fn observe(&mut self, elapsed: Duration)
        ensures
            observed(*old(self), elapsed@, *final(self)),
    {
        let nanos: u128 = elapsed.as_nanos();
        let mut i: usize = 0;
        while i < 12 && nanos > BUCKETS[i]
            invariant
                i <= 12,
                nanos == elapsed@,
                bucket_of(elapsed@) == bucket_from(elapsed@, i as nat),
            decreases 12 - i,
        {
            i = i + 1;
        }
        if i < 12 {
            self.buckets[i] = bump(self.buckets[i]);
        }
        let clip: u64 = if nanos > u64::MAX as u128 {
            u64::MAX
        } else {
            nanos as u64
        };
        self.sum_nanos = self.sum_nanos.wrapping_add(clip);
        self.count = bump(self.count);
    }

    fn render(&self, out: &mut String, name: &str)
        ensures
            final(out)@ == old(out)@ + histogram_text(*self, name@),
    {
        let mut total: u64 = 0;
        let mut i: usize = 0;
        assert(out@ =~= old(out)@ + bucket_lines(self.buckets@, name@, 0));
        while i < 12
            invariant
                i <= 12,
                total == cumulative(self.buckets@, i as nat),
                out@ == old(out)@ + bucket_lines(self.buckets@, name@, i as nat),
            decreases 12 - i,
        {
            total = total.wrapping_add(self.buckets[i]);
            push_bucket_line(out, name, BOUNDS[i], total);
            i = i + 1;
            assert(out@ =~= old(out)@ + bucket_lines(self.buckets@, name@, i as nat));
        }
        push_bucket_line(out, name, "+Inf", self.count);
        push_text(out, name);
        push_text(out, "_sum ");
        push_seconds(out, self.sum_nanos);
        push_text(out, "\n");
        push_text(out, name);
        push_text(out, "_count ");
        push_decimal(out, self.count);
        push_text(out, "\n");
        assert(out@ =~= old(out)@ + histogram_text(*self, name@));
    }
}

/// Every series the data plane exports.
#[derive(Debug)]
pub struct Metrics {
    /// Responses served, by status class.
    pub requests: [u64; 6],
    /// Time from dispatching upstream to receiving its headers.
    pub upstream_latency: Histogram,
    /// Connections currently being served.
    pub active_connections: i64,
    /// TLS handshakes completed.
    pub tls_handshakes: u64,
    /// TLS handshakes that failed.
    pub tls_handshake_failures: u64,
    /// Failures to connect to an upstream endpoint.
    pub upstream_connect_failures: u64,
    /// Requests re-dispatched to a different endpoint.
    pub upstream_retries: u64,
    /// Upstreams that did not send headers before the deadline.
    pub upstream_timeouts: u64,
    /// Requests that matched no route and no default backend.
    pub route_misses: u64,
    /// HTTP/3 connections established on the QUIC listener.
    pub h3_connections: u64,
    /// Requests that arrived over HTTP/3.
    pub h3_requests: u64,
    /// QUIC connections that never became usable HTTP/3 connections.
    pub h3_handshake_failures: u64,
    /// Requests copied to a mirror backend, which accepted the copy.
    pub mirrored: u64,
    /// Copies discarded because a serving runtime's mirror queue was full.
    pub mirror_dropped: u64,
    /// Copies not attempted because the request body exceeded --mirror-max-body.
    pub mirror_skipped: u64,
    /// Copies a mirror backend refused, failed, or did not answer in time.
    pub mirror_failures: u64,
}

/// The place of a status among the classes.
pub open spec fn class_of(status: u16) -> nat {
    match status / 100 {
        1 => 0,
        2 => 1,
        3 => 2,
        4 => 3,
        5 => 4,
        _ => 5,
    }
}

/// The first class from `i` on with a name, or 6.
pub open spec fn class_named(name: Seq<char>, i: nat) -> nat
    decreases 6 - i,
{
    if i >= 6 {
        6
    } else if CLASSES@[i as int]@ == name {
        i
    } else {
        class_named(name, i + 1)
    }
}

/// The lines of the first `n` status classes.
pub open spec fn class_lines(requests: Seq<u64>, n: nat) -> Seq<char>
    decreases n,
{
    if n == 0 {
        Seq::empty()
    } else {
        class_lines(requests, (n - 1) as nat) + ("ramjet_requests_total{code=\""@ + CLASSES@[n
            - 1]@ + "\"} "@ + text::decimal(requests[n - 1] as nat) + "\n"@)
    }
}

/// What introduces a series.
pub open spec fn series_head(name: Seq<char>, help: Seq<char>, kind: Seq<char>) -> Seq<char> {
    "# HELP "@ + name + " "@ + help + "\n# TYPE "@ + name + " "@ + kind + "\n"@
}

/// A series with one value.
pub open spec fn series(name: Seq<char>, help: Seq<char>, kind: Seq<char>, value: int) -> Seq<char> {
    series_head(name, help, kind) + (name + " "@ + text::integer(value) + "\n"@)
}

/// The counters after the gauges, in their order: name, explanation, value.
pub open spec fn counters(m: Metrics) -> Seq<(Seq<char>, Seq<char>, u64)> {
    seq![
        (
            "ramjet_tls_handshakes_total"@,
            "TLS handshakes completed."@,
            m.tls_handshakes,
        ),
        (
            "ramjet_tls_handshake_failures_total"@,
            "TLS handshakes that failed."@,
            m.tls_handshake_failures,
        ),
        (
            "ramjet_upstream_connect_failures_total"@,
            "Failures to connect to an upstream endpoint."@,
            m.upstream_connect_failures,
        ),
        (
            "ramjet_upstream_retries_total"@,
            "Requests re-dispatched to a different endpoint."@,
            m.upstream_retries,
        ),
        (
            "ramjet_upstream_timeouts_total"@,
            "Upstreams that did not send headers before the deadline."@,
            m.upstream_timeouts,
        ),
        (
            "ramjet_route_misses_total"@,
            "Requests that matched no route and no default backend."@,
            m.route_misses,
        ),
        (
            "ramjet_h3_connections_total"@,
            "HTTP/3 connections established on the QUIC listener."@,
            m.h3_connections,
        ),
        (
            "ramjet_h3_requests_total"@,
            "Requests that arrived over HTTP/3."@,
            m.h3_requests,
        ),
        (
            "ramjet_h3_handshake_failures_total"@,
            "QUIC connections that never became usable HTTP/3 connections."@,
            m.h3_handshake_failures,
        ),
        (
            "ramjet_mirrored_total"@,
            "Requests copied to a mirror backend, which accepted the copy."@,
            m.mirrored,
        ),
        (
            "ramjet_mirror_dropped_total"@,
            "Copies discarded because a serving runtime's mirror queue was full."@,
            m.mirror_dropped,
        ),
        (
            "ramjet_mirror_skipped_total"@,
            "Copies not attempted because the request body exceeded --mirror-max-body."@,
            m.mirror_skipped,
        ),
        (
            "ramjet_mirror_failures_total"@,
            "Copies a mirror backend refused, failed, or did not answer in time."@,
            m.mirror_failures,
        ),
    ]
}

/// The text of the first `n` counters.
pub open spec fn counters_text(list: Seq<(Seq<char>, Seq<char>, u64)>, n: nat) -> Seq<char>
    decreases n,
{
    if n == 0 {
        Seq::empty()
    } else {
        counters_text(list, (n - 1) as nat) + series(
            list[n - 1].0,
            list[n - 1].1,
            "counter"@,
            list[n - 1].2 as int,
        )
    }
}

/// The responses by class, and the latency histogram.
pub open spec fn labelled_text(m: Metrics) -> Seq<char> {
    series_head("ramjet_requests_total"@, "Responses served, by status class."@, "counter"@)
        + class_lines(m.requests@, 6) + series_head(
        "ramjet_upstream_latency_seconds"@,
        "Time from upstream dispatch to response headers."@,
        "histogram"@,
    ) + histogram_text(m.upstream_latency, "ramjet_upstream_latency_seconds"@)
}

/// The gauges.
pub open spec fn gauges_text(m: Metrics, generation: u64, pinned: bool) -> Seq<char> {
    series(
        "ramjet_active_connections"@,
        "Downstream connections currently being served."@,
        "gauge"@,
        m.active_connections as int,
    ) + series(
        "ramjet_route_table_generation"@,
        "Generation of the currently published route table."@,
        "gauge"@,
        generation as int,
    ) + series(
        "ramjet_pinned"@,
        "1 when a rollback is holding publication at a chosen generation."@,
        "gauge"@,
        if pinned {
            1
        } else {
            0
        },
    )
}

/// The whole exposition.
pub open spec fn exposition(m: Metrics, generation: u64, pinned: bool) -> Seq<char> {
    labelled_text(m) + gauges_text(m, generation, pinned) + counters_text(counters(m), 13)
}

fn push_head(out: &mut String, name: &str, help: &str, kind: &str)
    ensures
        final(out)@ == old(out)@ + series_head(name@, help@, kind@),
{
    push_text(out, "# HELP ");
    push_text(out, name);
    push_text(out, " ");
    push_text(out, help);
    push_text(out, "\n# TYPE ");
    push_text(out, name);
    push_text(out, " ");
    push_text(out, kind);
    push_text(out, "\n");
    assert(out@ =~= old(out)@ + series_head(name@, help@, kind@));
}

fn gauge(out: &mut String, name: &str, help: &str, value: i64)
    ensures
        final(out)@ == old(out)@ + series(name@, help@, "gauge"@, value as int),
{
    push_head(out, name, help, "gauge");
    push_text(out, name);
    push_text(out, " ");
    push_integer(out, value);
    push_text(out, "\n");
    assert(out@ =~= old(out)@ + series(name@, help@, "gauge"@, value as int));
}

fn counter(out: &mut String, name: &str, help: &str, value: u64)
    ensures
        final(out)@ == old(out)@ + series(name@, help@, "counter"@, value as int),
{
    push_head(out, name, help, "counter");
    push_text(out, name);
    push_text(out, " ");
    push_decimal(out, value);
    push_text(out, "\n");
    assert(out@ =~= old(out)@ + series(name@, help@, "counter"@, value as int));
}

/// What may happen to the series, as far as responses and latencies go.
pub enum Event {
    /// A response with a status was served.
    Response(u16),
    /// An upstream took so many nanoseconds to send its headers.
    Latency(nat),
    /// Something else was counted.
    Elsewhere,
}

/// Are these the series before and after an event?
pub open spec fn happens(before: Metrics, event: Event, after: Metrics) -> bool {
    match event {
        Event::Response(status) => {
            &&& after.requests@ == before.requests@.update(
                class_of(status) as int,
                bumped(before.requests@[class_of(status) as int]),
            )
            &&& after == (Metrics { requests: after.requests, ..before })
        },
        Event::Latency(nanos) => {
            &&& observed(before.upstream_latency, nanos, after.upstream_latency)
            &&& after == (Metrics { upstream_latency: after.upstream_latency, ..before })
        },
        Event::Elsewhere => {
            &&& after.requests == before.requests
            &&& after.upstream_latency == before.upstream_latency
        },
    }
}

/// Did the counter with a name, and nothing else, go up by one?
pub open spec fn counts_one(before: Metrics, name: Seq<char>, after: Metrics) -> bool {
    &&& after.requests == before.requests
    &&& after.upstream_latency == before.upstream_latency
    &&& after.active_connections == before.active_connections
    &&& exists|i: int| 0 <= i < 13 && (#[trigger] counters(before)[i]).0 == name
    &&& forall|i: int|
        0 <= i < 13 ==> (#[trigger] counters(after)[i]).2 == if counters(before)[i].0 == name {
            bumped(counters(before)[i].2)
        } else {
            counters(before)[i].2
        }
}

/// A connection that was opened and not closed yet.
///
/// Held by the connection task and given back when it ends, however it ends.
#[derive(Debug)]
pub struct ConnectionGuard {
    counted: (),
}

impl Default for Metrics {
    fn default() -> (r: Metrics)
        ensures
            r.is_zero(),
    {
        Metrics::new()
    }
}

impl Metrics {
    /// Has nothing been counted?
    pub open spec fn is_zero(&self) -> bool {
        &&& self.requests@ == Seq::new(6, |i: int| 0u64)
        &&& self.upstream_latency.buckets@ == Seq::new(12, |i: int| 0u64)
        &&& self.upstream_latency.sum_nanos == 0
        &&& self.upstream_latency.count == 0
        &&& self.active_connections == 0
        &&& self.tls_handshakes == 0
        &&& self.tls_handshake_failures == 0
        &&& self.upstream_connect_failures == 0
        &&& self.upstream_retries == 0
        &&& self.upstream_timeouts == 0
        &&& self.route_misses == 0
        &&& self.h3_connections == 0
        &&& self.h3_requests == 0
        &&& self.h3_handshake_failures == 0
        &&& self.mirrored == 0
        &&& self.mirror_dropped == 0
        &&& self.mirror_skipped == 0
        &&& self.mirror_failures == 0
    }

    /// A fresh, zeroed set of series.
    pub fn new() -> (r: Metrics)
        ensures
            r.is_zero(),
    {
        let requests: [u64; 6] = [0; 6];
        assert(requests@ =~= Seq::new(6, |i: int| 0u64));
        Metrics {
            requests,
            upstream_latency: Histogram::new(),
            active_connections: 0,
            tls_handshakes: 0,
            tls_handshake_failures: 0,
            upstream_connect_failures: 0,
            upstream_retries: 0,
            upstream_timeouts: 0,
            route_misses: 0,
            h3_connections: 0,
            h3_requests: 0,
            h3_handshake_failures: 0,
            mirrored: 0,
            mirror_dropped: 0,
            mirror_skipped: 0,
            mirror_failures: 0,
        }
    }

    /// Records a response by status class.
    pub fn record_response(&mut self, status: u16)
        ensures
            final(self).requests@ == old(self).requests@.update(
                class_of(status) as int,
                bumped(old(self).requests@[class_of(status) as int]),
            ),
            *final(self) == (Metrics { requests: final(self).requests, ..*old(self) }),
            happens(*old(self), Event::Response(status), *final(self)),
    {
        let index: usize = match status / 100 {
            1 => 0,
            2 => 1,
            3 => 2,
            4 => 3,
            5 => 4,
            _ => 5,
        };
        self.requests[index] = bump(self.requests[index]);
    }

    /// Records the time from dispatching upstream to receiving its headers.
    ///
    /// Headers, not the last body byte: a long download is not a slow upstream.
    pub fn record_upstream_latency(&mut self, elapsed: Duration)
        ensures
            observed(old(self).upstream_latency, elapsed@, final(self).upstream_latency),
            *final(self) == (Metrics {
                upstream_latency: final(self).upstream_latency,
                ..*old(self)
            }),
            happens(*old(self), Event::Latency(elapsed@), *final(self)),
    {
        self.upstream_latency.observe(elapsed);
    }

    /// Registers an accepted connection. What it returns is to be given back
    /// when the connection ends.
    pub fn connection_opened(&mut self) -> (r: ConnectionGuard)
        ensures
            *final(self) == (Metrics {
                active_connections: next_connections(old(self).active_connections),
                ..*old(self)
            }),
            happens(*old(self), Event::Elsewhere, *final(self)),
    {
        self.active_connections = self.active_connections.wrapping_add(1);
        ConnectionGuard { counted: () }
    }

    /// Deregisters a connection.
    pub fn connection_closed(&mut self, guard: ConnectionGuard)
        ensures
            *final(self) == (Metrics {
                active_connections: fewer_connections(old(self).active_connections),
                ..*old(self)
            }),
            happens(*old(self), Event::Elsewhere, *final(self)),
    {
        self.active_connections = self.active_connections.wrapping_sub(1);
    }

    /// Records a completed TLS handshake.
    pub fn record_tls_handshake(&mut self)
        ensures
            *final(self) == (Metrics { tls_handshakes: bumped(old(self).tls_handshakes), ..*old(self) }),
            happens(*old(self), Event::Elsewhere, *final(self)),
            counts_one(*old(self), "ramjet_tls_handshakes_total"@, *final(self)),
    {
        self.tls_handshakes = bump(self.tls_handshakes);
        proof {
            lemma_counts_one(*old(self), 0, *self);
        }
    }

    /// Records a TLS handshake that failed before producing a connection.
    pub fn record_tls_handshake_failure(&mut self)
        ensures
            *final(self) == (Metrics { tls_handshake_failures: bumped(old(self).tls_handshake_failures), ..*old(self) }),
            happens(*old(self), Event::Elsewhere, *final(self)),
            counts_one(*old(self), "ramjet_tls_handshake_failures_total"@, *final(self)),
    {
        self.tls_handshake_failures = bump(self.tls_handshake_failures);
        proof {
            lemma_counts_one(*old(self), 1, *self);
        }
    }

    /// Records a failure to establish a connection to an upstream endpoint.
    pub fn record_connect_failure(&mut self)
        ensures
            *final(self) == (Metrics { upstream_connect_failures: bumped(old(self).upstream_connect_failures), ..*old(self) }),
            happens(*old(self), Event::Elsewhere, *final(self)),
            counts_one(*old(self), "ramjet_upstream_connect_failures_total"@, *final(self)),
    {
        self.upstream_connect_failures = bump(self.upstream_connect_failures);
        proof {
            lemma_counts_one(*old(self), 2, *self);
        }
    }

    /// Records a request re-dispatched to a different endpoint.
    pub fn record_retry(&mut self)
        ensures
            *final(self) == (Metrics { upstream_retries: bumped(old(self).upstream_retries), ..*old(self) }),
            happens(*old(self), Event::Elsewhere, *final(self)),
            counts_one(*old(self), "ramjet_upstream_retries_total"@, *final(self)),
    {
        self.upstream_retries = bump(self.upstream_retries);
        proof {
            lemma_counts_one(*old(self), 3, *self);
        }
    }

    /// Records an upstream that did not send headers within the deadline.
    pub fn record_upstream_timeout(&mut self)
        ensures
            *final(self) == (Metrics { upstream_timeouts: bumped(old(self).upstream_timeouts), ..*old(self) }),
            happens(*old(self), Event::Elsewhere, *final(self)),
            counts_one(*old(self), "ramjet_upstream_timeouts_total"@, *final(self)),
    {
        self.upstream_timeouts = bump(self.upstream_timeouts);
        proof {
            lemma_counts_one(*old(self), 4, *self);
        }
    }

    /// Records a request that matched no route and no default backend.
    pub fn record_route_miss(&mut self)
        ensures
            *final(self) == (Metrics { route_misses: bumped(old(self).route_misses), ..*old(self) }),
            happens(*old(self), Event::Elsewhere, *final(self)),
            counts_one(*old(self), "ramjet_route_misses_total"@, *final(self)),
    {
        self.route_misses = bump(self.route_misses);
        proof {
            lemma_counts_one(*old(self), 5, *self);
        }
    }

    /// Records a QUIC connection that became a usable HTTP/3 connection.
    pub fn record_h3_connection(&mut self)
        ensures
            *final(self) == (Metrics { h3_connections: bumped(old(self).h3_connections), ..*old(self) }),
            happens(*old(self), Event::Elsewhere, *final(self)),
            counts_one(*old(self), "ramjet_h3_connections_total"@, *final(self)),
    {
        self.h3_connections = bump(self.h3_connections);
        proof {
            lemma_counts_one(*old(self), 6, *self);
        }
    }

    /// Records a request that arrived over HTTP/3, in addition to its class among
    /// the responses.
    pub fn record_h3_request(&mut self)
        ensures
            *final(self) == (Metrics { h3_requests: bumped(old(self).h3_requests), ..*old(self) }),
            happens(*old(self), Event::Elsewhere, *final(self)),
            counts_one(*old(self), "ramjet_h3_requests_total"@, *final(self)),
    {
        self.h3_requests = bump(self.h3_requests);
        proof {
            lemma_counts_one(*old(self), 7, *self);
        }
    }

    /// Records a QUIC connection that never became a usable HTTP/3 one.
    pub fn record_h3_handshake_failure(&mut self)
        ensures
            *final(self) == (Metrics { h3_handshake_failures: bumped(old(self).h3_handshake_failures), ..*old(self) }),
            happens(*old(self), Event::Elsewhere, *final(self)),
            counts_one(*old(self), "ramjet_h3_handshake_failures_total"@, *final(self)),
    {
        self.h3_handshake_failures = bump(self.h3_handshake_failures);
        proof {
            lemma_counts_one(*old(self), 8, *self);
        }
    }

    /// Records a mirrored copy the mirror backend accepted.
    pub fn record_mirrored(&mut self)
        ensures
            *final(self) == (Metrics { mirrored: bumped(old(self).mirrored), ..*old(self) }),
            happens(*old(self), Event::Elsewhere, *final(self)),
            counts_one(*old(self), "ramjet_mirrored_total"@, *final(self)),
    {
        self.mirrored = bump(self.mirrored);
        proof {
            lemma_counts_one(*old(self), 9, *self);
        }
    }

    /// Records a copy discarded because the mirror queue was full.
    pub fn record_mirror_dropped(&mut self)
        ensures
            *final(self) == (Metrics { mirror_dropped: bumped(old(self).mirror_dropped), ..*old(self) }),
            happens(*old(self), Event::Elsewhere, *final(self)),
            counts_one(*old(self), "ramjet_mirror_dropped_total"@, *final(self)),
    {
        self.mirror_dropped = bump(self.mirror_dropped);
        proof {
            lemma_counts_one(*old(self), 10, *self);
        }
    }

    /// Records a copy not attempted because the request body was over the cap.
    pub fn record_mirror_skipped(&mut self)
        ensures
            *final(self) == (Metrics { mirror_skipped: bumped(old(self).mirror_skipped), ..*old(self) }),
            happens(*old(self), Event::Elsewhere, *final(self)),
            counts_one(*old(self), "ramjet_mirror_skipped_total"@, *final(self)),
    {
        self.mirror_skipped = bump(self.mirror_skipped);
        proof {
            lemma_counts_one(*old(self), 11, *self);
        }
    }

    /// Records a copy the mirror backend refused, failed, or did not answer.
    pub fn record_mirror_failure(&mut self)
        ensures
            *final(self) == (Metrics { mirror_failures: bumped(old(self).mirror_failures), ..*old(self) }),
            happens(*old(self), Event::Elsewhere, *final(self)),
            counts_one(*old(self), "ramjet_mirror_failures_total"@, *final(self)),
    {
        self.mirror_failures = bump(self.mirror_failures);
        proof {
            lemma_counts_one(*old(self), 12, *self);
        }
    }

    /// Copies the mirror backend accepted.
    pub fn mirrored(&self) -> (r: u64)
        ensures
            r == self.mirrored,
    {
        self.mirrored
    }

    /// Copies discarded because a mirror queue was full.
    pub fn mirror_dropped(&self) -> (r: u64)
        ensures
            r == self.mirror_dropped,
    {
        self.mirror_dropped
    }

    /// Copies not attempted because the request body was over the cap.
    pub fn mirror_skipped(&self) -> (r: u64)
        ensures
            r == self.mirror_skipped,
    {
        self.mirror_skipped
    }

    /// Copies the mirror backend refused, failed, or did not answer.
    pub fn mirror_failures(&self) -> (r: u64)
        ensures
            r == self.mirror_failures,
    {
        self.mirror_failures
    }

    /// Completed TLS handshakes.
    pub fn tls_handshakes(&self) -> (r: u64)
        ensures
            r == self.tls_handshakes,
    {
        self.tls_handshakes
    }

    /// Requests re-dispatched to a different endpoint.
    pub fn retries(&self) -> (r: u64)
        ensures
            r == self.upstream_retries,
    {
        self.upstream_retries
    }

    /// HTTP/3 connections established.
    pub fn h3_connections(&self) -> (r: u64)
        ensures
            r == self.h3_connections,
    {
        self.h3_connections
    }

    /// Requests that arrived over HTTP/3.
    pub fn h3_requests(&self) -> (r: u64)
        ensures
            r == self.h3_requests,
    {
        self.h3_requests
    }

    /// QUIC connections that never became usable HTTP/3 ones.
    pub fn h3_handshake_failures(&self) -> (r: u64)
        ensures
            r == self.h3_handshake_failures,
    {
        self.h3_handshake_failures
    }

    /// Connections currently being served.
    pub fn active_connections(&self) -> (r: i64)
        ensures
            r == self.active_connections,
    {
        self.active_connections
    }

    /// Number of upstream latency observations.
    pub fn upstream_observations(&self) -> (r: u64)
        ensures
            r == self.upstream_latency.count,
    {
        self.upstream_latency.count
    }

    /// Responses served in the given status class, such as `2xx`. None have been
    /// served in a class that is not tracked.
    pub fn responses(&self, class: &str) -> (r: u64)
        ensures
            r == if class_named(class@, 0) < 6 {
                self.requests@[class_named(class@, 0) as int]
            } else {
                0
            },
    {
        let mut i: usize = 0;
        while i < 6
            invariant
                i <= 6,
                class_named(class@, 0) == class_named(class@, i as nat),
            decreases 6 - i,
        {
            if same_text(CLASSES[i], class) {
                return self.requests[i];
            }
            i = i + 1;
        }
        0
    }

    /// Renders the Prometheus text exposition format.
    ///
    /// `generation` says what is serving and `pinned` whether that is because
    /// somebody pulled the brake: without the second, a replica frozen on an old
    /// generation looks like one whose control plane has stopped.
    pub fn render_prometheus(&self, generation: u64, pinned: bool) -> (r: String)
        ensures
            r@ == exposition(*self, generation, pinned),
    {
        let mut out = String::new();
        self.render_labelled(&mut out);
        self.render_gauges(&mut out, generation, pinned);
        self.render_counters(&mut out);
        assert(out@ =~= exposition(*self, generation, pinned));
        out
    }

    fn render_labelled(&self, out: &mut String)
        ensures
            final(out)@ == old(out)@ + labelled_text(*self),
    {
        push_head(out, "ramjet_requests_total", "Responses served, by status class.", "counter");
        let ghost start = out@;
        let mut i: usize = 0;
        assert(out@ =~= start + class_lines(self.requests@, 0));
        while i < 6
            invariant
                i <= 6,
                out@ == start + class_lines(self.requests@, i as nat),
            decreases 6 - i,
        {
            push_text(out, "ramjet_requests_total{code=\"");
            push_text(out, CLASSES[i]);
            push_text(out, "\"} ");
            push_decimal(out, self.requests[i]);
            push_text(out, "\n");
            i = i + 1;
            assert(out@ =~= start + class_lines(self.requests@, i as nat));
        }
        push_head(
            out,
            "ramjet_upstream_latency_seconds",
            "Time from upstream dispatch to response headers.",
            "histogram",
        );
        self.upstream_latency.render(out, "ramjet_upstream_latency_seconds");
        assert(out@ =~= old(out)@ + labelled_text(*self));
    }

    fn render_gauges(&self, out: &mut String, generation: u64, pinned: bool)
        ensures
            final(out)@ == old(out)@ + gauges_text(*self, generation, pinned),
    {
        gauge(
            out,
            "ramjet_active_connections",
            "Downstream connections currently being served.",
            self.active_connections,
        );
        push_head(
            out,
            "ramjet_route_table_generation",
            "Generation of the currently published route table.",
            "gauge",
        );
        push_text(out, "ramjet_route_table_generation");
        push_text(out, " ");
        push_decimal(out, generation);
        push_text(out, "\n");
        gauge(
            out,
            "ramjet_pinned",
            "1 when a rollback is holding publication at a chosen generation.",
            if pinned {
                1
            } else {
                0
            },
        );
        assert(out@ =~= old(out)@ + gauges_text(*self, generation, pinned));
    }

    fn render_counters(&self, out: &mut String)
        ensures
            final(out)@ == old(out)@ + counters_text(counters(*self), 13),
    {
        let list: [(&'static str, &'static str, u64); 13] = [
            (
                "ramjet_tls_handshakes_total",
                "TLS handshakes completed.",
                self.tls_handshakes,
            ),
            (
                "ramjet_tls_handshake_failures_total",
                "TLS handshakes that failed.",
                self.tls_handshake_failures,
            ),
            (
                "ramjet_upstream_connect_failures_total",
                "Failures to connect to an upstream endpoint.",
                self.upstream_connect_failures,
            ),
            (
                "ramjet_upstream_retries_total",
                "Requests re-dispatched to a different endpoint.",
                self.upstream_retries,
            ),
            (
                "ramjet_upstream_timeouts_total",
                "Upstreams that did not send headers before the deadline.",
                self.upstream_timeouts,
            ),
            (
                "ramjet_route_misses_total",
                "Requests that matched no route and no default backend.",
                self.route_misses,
            ),
            (
                "ramjet_h3_connections_total",
                "HTTP/3 connections established on the QUIC listener.",
                self.h3_connections,
            ),
            (
                "ramjet_h3_requests_total",
                "Requests that arrived over HTTP/3.",
                self.h3_requests,
            ),
            (
                "ramjet_h3_handshake_failures_total",
                "QUIC connections that never became usable HTTP/3 connections.",
                self.h3_handshake_failures,
            ),
            (
                "ramjet_mirrored_total",
                "Requests copied to a mirror backend, which accepted the copy.",
                self.mirrored,
            ),
            (
                "ramjet_mirror_dropped_total",
                "Copies discarded because a serving runtime's mirror queue was full.",
                self.mirror_dropped,
            ),
            (
                "ramjet_mirror_skipped_total",
                "Copies not attempted because the request body exceeded --mirror-max-body.",
                self.mirror_skipped,
            ),
            (
                "ramjet_mirror_failures_total",
                "Copies a mirror backend refused, failed, or did not answer in time.",
                self.mirror_failures,
            ),
        ];
        let ghost all = counters(*self);
        let mut i: usize = 0;
        assert(out@ =~= old(out)@ + counters_text(all, 0));
        while i < 13
            invariant
                i <= 13,
                all.len() == 13,
                forall|j: int|
                    #![trigger list@[j]]
                    0 <= j < 13 ==> list@[j].0@ == all[j].0 && list@[j].1@ == all[j].1 && list@[j].2
                        == all[j].2,
                out@ == old(out)@ + counters_text(all, i as nat),
            decreases 13 - i,
        {
            let (name, help, value) = list[i];
            counter(out, name, help, value);
            i = i + 1;
            assert(out@ =~= old(out)@ + counters_text(all, i as nat));
        }
    }
}

impl Exposition for Metrics {
    fn render_prometheus(&self, generation: u64, pinned: bool) -> (r: String)
        ensures
            r@ == exposition(*self, generation, pinned),
    {
        Metrics::render_prometheus(self, generation, pinned)
    }
}

/// The bounds rise.
proof fn lemma_bounds_rise(i: int, j: int)
    requires
        0 <= i < j < 12,
    ensures
        BUCKETS@[i] < BUCKETS@[j],
{
    assert(BUCKETS@ =~= seq![
        1_000_000,
        2_500_000,
        5_000_000,
        10_000_000,
        25_000_000,
        50_000_000,
        100_000_000,
        250_000_000,
        500_000_000,
        1_000_000_000,
        5_000_000_000,
        10_000_000_000,
    ]);
}

/// A duration falls before the `n`th bound exactly when it does not exceed the
/// bound before that.
proof fn lemma_bucket_from(nanos: nat, i: nat, n: nat)
    requires
        i < n <= 12,
    ensures
        bucket_from(nanos, i) < n <==> nanos <= BUCKETS@[n - 1],
        i <= bucket_from(nanos, i) <= 12,
    decreases n - i,
{
    if i < n - 1 {
        lemma_bounds_rise(i as int, n - 1);
        lemma_bucket_from(nanos, i + 1, n);
    } else {
        lemma_bucket_range(nanos, i);
    }
}

proof fn lemma_bucket_range(nanos: nat, i: nat)
    requires
        i <= 12,
    ensures
        i <= bucket_from(nanos, i) <= 12,
        bucket_from(nanos, i) == i <==> i == 12 || nanos <= BUCKETS@[i as int],
    decreases 12 - i,
{
    if i < 12 {
        lemma_bucket_range(nanos, i + 1);
    }
}

/// The line of every bound counts the observations that do not exceed it: one
/// more observation adds one to each such line and leaves the others alone.
pub proof fn a_bound_counts_what_does_not_exceed_it(
    before: Histogram,
    nanos: nat,
    after: Histogram,
    n: nat,
)
    requires
        observed(before, nanos, after),
        1 <= n <= 12,
    ensures
        cumulative(after.buckets@, n) == if nanos <= BUCKETS@[n - 1] {
            bumped(cumulative(before.buckets@, n))
        } else {
            cumulative(before.buckets@, n)
        },
{
    lemma_bucket_from(nanos, 0, n);
    lemma_cumulative(before.buckets@, after.buckets@, bucket_of(nanos), n);
}

proof fn lemma_cumulative(before: Seq<u64>, after: Seq<u64>, bucket: nat, n: nat)
    requires
        before.len() == 12,
        n <= 12,
        after == if bucket < 12 {
            before.update(bucket as int, bumped(before[bucket as int]))
        } else {
            before
        },
    ensures
        cumulative(after, n) == if bucket < n {
            bumped(cumulative(before, n))
        } else {
            cumulative(before, n)
        },
    decreases n,
{
    if n > 0 {
        lemma_cumulative(before, after, bucket, (n - 1) as nat);
    }
}

/// While a connection is open it is counted, and closing it undoes opening it: the
/// series are then what they were, every one of them.
pub proof fn closing_undoes_opening(before: Metrics, opened: Metrics, closed: Metrics)
    requires
        opened == (Metrics {
            active_connections: next_connections(before.active_connections),
            ..before
        }),
        closed == (Metrics {
            active_connections: fewer_connections(opened.active_connections),
            ..opened
        }),
    ensures
        before.active_connections < i64::MAX ==> opened.active_connections
            == before.active_connections + 1,
        closed == before,
{
}

/// Every status is counted in the class its first digit names, and one that
/// names none is counted as other.
pub proof fn a_status_has_one_class(status: u16)
    ensures
        class_of(status) < 6,
        class_of(status) < 5 <==> 100 <= status < 600,
        100 <= status < 600 ==> class_of(status) + 1 == status / 100,
{
}

// ---------------------------------------------------------------------------
// Over any sequence of calls
// ---------------------------------------------------------------------------

/// Are these the series from a fresh set on, after each of some events?
pub open spec fn runs(states: Seq<Metrics>, events: Seq<Event>) -> bool {
    &&& states.len() == events.len() + 1
    &&& states[0].is_zero()
    &&& forall|i: int|
        0 <= i < events.len() ==> happens(states[i], #[trigger] events[i], states[i + 1])
}

/// How many responses of a class there were.
pub open spec fn responses_in(events: Seq<Event>, class: nat) -> nat
    decreases events.len(),
{
    if events.len() == 0 {
        0
    } else {
        responses_in(events.drop_last(), class) + match events.last() {
            Event::Response(status) => if class_of(status) == class {
                1nat
            } else {
                0
            },
            _ => 0,
        }
    }
}

/// How many responses there were.
pub open spec fn responses_of(events: Seq<Event>) -> nat
    decreases events.len(),
{
    if events.len() == 0 {
        0
    } else {
        responses_of(events.drop_last()) + if events.last() is Response {
            1nat
        } else {
            0
        }
    }
}

/// How many latencies were recorded.
pub open spec fn latencies(events: Seq<Event>) -> nat
    decreases events.len(),
{
    if events.len() == 0 {
        0
    } else {
        latencies(events.drop_last()) + if events.last() is Latency {
            1nat
        } else {
            0
        }
    }
}

/// How many of the recorded latencies do not exceed a bound.
pub open spec fn within(events: Seq<Event>, bound: nat) -> nat
    decreases events.len(),
{
    if events.len() == 0 {
        0
    } else {
        within(events.drop_last(), bound) + match events.last() {
            Event::Latency(nanos) => if nanos <= bound {
                1nat
            } else {
                0
            },
            _ => 0,
        }
    }
}

proof fn lemma_counts_are_bounded(events: Seq<Event>, low: nat, high: nat)
    requires
        low <= high,
    ensures
        within(events, low) <= within(events, high) <= latencies(events) <= events.len(),
        responses_of(events) <= events.len(),
        responses_of(events) == responses_in(events, 0) + responses_in(events, 1) + responses_in(
            events,
            2,
        ) + responses_in(events, 3) + responses_in(events, 4) + responses_in(events, 5),
    decreases events.len(),
{
    if events.len() > 0 {
        lemma_counts_are_bounded(events.drop_last(), low, high);
    }
}

proof fn lemma_class_is_bounded(events: Seq<Event>, class: nat)
    ensures
        responses_in(events, class) <= events.len(),
    decreases events.len(),
{
    if events.len() > 0 {
        lemma_class_is_bounded(events.drop_last(), class);
    }
}

/// The number of observations is the number of latencies recorded, whatever they
/// were and whatever else was counted in between.
pub proof fn every_latency_is_observed(states: Seq<Metrics>, events: Seq<Event>)
    requires
        runs(states, events),
        events.len() <= u64::MAX,
    ensures
        states.last().upstream_latency.count == latencies(events),
    decreases events.len(),
{
    if events.len() > 0 {
        let k = events.len() - 1;
        assert forall|i: int| 0 <= i < events.drop_last().len() implies happens(
            states.drop_last()[i],
            #[trigger] events.drop_last()[i],
            states.drop_last()[i + 1],
        ) by {
            assert(happens(states[i], events[i], states[i + 1]));
        }
        every_latency_is_observed(states.drop_last(), events.drop_last());
        lemma_counts_are_bounded(events.drop_last(), 0, 0);
        assert(happens(states[k], events[k], states[k + 1]));
    }
}

proof fn lemma_a_bucket_counts(states: Seq<Metrics>, events: Seq<Event>, n: nat)
    requires
        runs(states, events),
        events.len() <= u64::MAX,
        1 <= n <= 12,
    ensures
        cumulative(states.last().upstream_latency.buckets@, n) == within(
            events,
            BUCKETS@[n - 1] as nat,
        ),
    decreases events.len(),
{
    let bound = BUCKETS@[n - 1] as nat;
    if events.len() == 0 {
        lemma_empty_buckets(states[0].upstream_latency.buckets@, n);
    } else {
        let k = events.len() - 1;
        assert forall|i: int| 0 <= i < events.drop_last().len() implies happens(
            states.drop_last()[i],
            #[trigger] events.drop_last()[i],
            states.drop_last()[i + 1],
        ) by {
            assert(happens(states[i], events[i], states[i + 1]));
        }
        lemma_a_bucket_counts(states.drop_last(), events.drop_last(), n);
        lemma_counts_are_bounded(events.drop_last(), bound, bound);
        assert(happens(states[k], events[k], states[k + 1]));
        if let Event::Latency(nanos) = events[k] {
            a_bound_counts_what_does_not_exceed_it(
                states[k].upstream_latency,
                nanos,
                states[k + 1].upstream_latency,
                n,
            );
        }
    }
}

proof fn lemma_empty_buckets(buckets: Seq<u64>, n: nat)
    requires
        buckets == Seq::new(12, |i: int| 0u64),
        n <= 12,
    ensures
        cumulative(buckets, n) == 0,
    decreases n,
{
    if n > 0 {
        lemma_empty_buckets(buckets, (n - 1) as nat);
    }
}

/// The lines of the first `n` bounds, each with the number of recorded latencies
/// that do not exceed it.
pub open spec fn counted_lines(events: Seq<Event>, name: Seq<char>, n: nat) -> Seq<char>
    decreases n,
{
    if n == 0 {
        Seq::empty()
    } else {
        counted_lines(events, name, (n - 1) as nat) + bucket_line(
            name,
            BOUNDS@[n - 1]@,
            within(events, BUCKETS@[n - 1] as nat) as u64,
        )
    }
}

proof fn lemma_counted_lines(states: Seq<Metrics>, events: Seq<Event>, name: Seq<char>, n: nat)
    requires
        runs(states, events),
        events.len() <= u64::MAX,
        n <= 12,
    ensures
        bucket_lines(states.last().upstream_latency.buckets@, name, n) == counted_lines(
            events,
            name,
            n,
        ),
    decreases n,
{
    if n > 0 {
        lemma_counted_lines(states, events, name, (n - 1) as nat);
        lemma_a_bucket_counts(states, events, n);
    }
}

/// The histogram after any sequence of calls: the line of every bound has the
/// number of recorded latencies that do not exceed it, these rise with the bound,
/// and the last line and the count have the number of all of them.
pub proof fn the_buckets_count_every_call(
    states: Seq<Metrics>,
    events: Seq<Event>,
    name: Seq<char>,
    n: nat,
    m: nat,
)
    requires
        runs(states, events),
        events.len() <= u64::MAX,
        1 <= n <= m <= 12,
    ensures
        ({
            let h = states.last().upstream_latency;
            &&& cumulative(h.buckets@, n) == within(events, BUCKETS@[n - 1] as nat)
            &&& cumulative(h.buckets@, n) <= cumulative(h.buckets@, m) <= h.count
            &&& h.count == latencies(events)
            &&& histogram_text(h, name) == counted_lines(events, name, 12) + bucket_line(
                name,
                "+Inf"@,
                latencies(events) as u64,
            ) + (name + "_sum "@ + rounding::seconds(h.sum_nanos as nat) + "\n"@) + (name
                + "_count "@ + text::decimal(latencies(events)) + "\n"@)
        }),
{
    every_latency_is_observed(states, events);
    lemma_a_bucket_counts(states, events, n);
    lemma_a_bucket_counts(states, events, m);
    if n < m {
        lemma_bounds_rise(n - 1, m - 1);
    }
    lemma_counts_are_bounded(events, BUCKETS@[n - 1] as nat, BUCKETS@[m - 1] as nat);
    lemma_counted_lines(states, events, name, 12);
}

/// The responses of a class after any sequence of calls are those served with a
/// status of that class, and the six classes together are all that were served.
pub proof fn every_response_is_counted(states: Seq<Metrics>, events: Seq<Event>, class: nat)
    requires
        runs(states, events),
        events.len() <= u64::MAX,
        class < 6,
    ensures
        states.last().requests@[class as int] == responses_in(events, class),
        responses_of(events) == responses_in(events, 0) + responses_in(events, 1) + responses_in(
            events,
            2,
        ) + responses_in(events, 3) + responses_in(events, 4) + responses_in(events, 5),
    decreases events.len(),
{
    lemma_counts_are_bounded(events, 0, 0);
    if events.len() > 0 {
        let k = events.len() - 1;
        assert forall|i: int| 0 <= i < events.drop_last().len() implies happens(
            states.drop_last()[i],
            #[trigger] events.drop_last()[i],
            states.drop_last()[i + 1],
        ) by {
            assert(happens(states[i], events[i], states[i + 1]));
        }
        every_response_is_counted(states.drop_last(), events.drop_last(), class);
        lemma_class_is_bounded(events.drop_last(), class);
        assert(happens(states[k], events[k], states[k + 1]));
    }
}

/// A class is asked for under its own name, and no other text is one.
pub proof fn a_class_has_one_name(name: Seq<char>, class: nat)
    requires
        class < 6,
    ensures
        class_named(CLASSES@[class as int]@, 0) == class,
        class_named(name, 0) == class <==> name == CLASSES@[class as int]@,
        class_named(name, 0) == 6 <==> forall|i: int| 0 <= i < 6 ==> name != #[trigger] CLASSES@[i]@,
{
    reveal_strlit("1xx");
    reveal_strlit("2xx");
    reveal_strlit("3xx");
    reveal_strlit("4xx");
    reveal_strlit("5xx");
    reveal_strlit("other");
    assert(CLASSES@ =~= seq!["1xx", "2xx", "3xx", "4xx", "5xx", "other"]);
    assert("1xx"@[0] == '1' && "2xx"@[0] == '2' && "3xx"@[0] == '3' && "4xx"@[0] == '4'
        && "5xx"@[0] == '5' && "other"@[0] == 'o');
    reveal_with_fuel(class_named, 7);
}

// ---------------------------------------------------------------------------
// The exposition as series
// ---------------------------------------------------------------------------

/// One sample of a series: what follows the name, labels included, and the value.
pub struct Sample {
    pub suffix: Seq<char>,
    pub value: Seq<char>,
}

/// A series with its samples.
pub struct Family {
    pub name: Seq<char>,
    pub help: Seq<char>,
    pub kind: Seq<char>,
    pub samples: Seq<Sample>,
}

/// The lines of some samples.
pub open spec fn samples_text(name: Seq<char>, samples: Seq<Sample>) -> Seq<char>
    decreases samples.len(),
{
    if samples.len() == 0 {
        Seq::empty()
    } else {
        samples_text(name, samples.drop_last()) + (name + samples.last().suffix + " "@
            + samples.last().value + "\n"@)
    }
}

/// A series as text: its HELP line, its TYPE line, and its samples.
pub open spec fn family_text(family: Family) -> Seq<char> {
    series_head(family.name, family.help, family.kind) + samples_text(family.name, family.samples)
}

/// Some series as text, in order.
pub open spec fn document(families: Seq<Family>) -> Seq<char>
    decreases families.len(),
{
    if families.len() == 0 {
        Seq::empty()
    } else {
        document(families.drop_last()) + family_text(families.last())
    }
}

/// Is there no line ending in some text?
pub open spec fn one_line(s: Seq<char>) -> bool {
    forall|i: int| 0 <= i < s.len() ==> #[trigger] s[i] != '\n'
}

/// Is some text a series name: a letter, and letters, digits and underscores?
pub open spec fn is_identifier(s: Seq<char>) -> bool {
    &&& s.len() > 0
    &&& 'a' <= s[0] <= 'z'
    &&& forall|i: int|
        0 <= i < s.len() ==> ('a' <= #[trigger] s[i] <= 'z' || '0' <= s[i] <= '9' || s[i] == '_')
}

/// May a sample of a kind follow the name in this way? Only a histogram adds to the
/// name itself.
pub open spec fn suffix_fits(kind: Seq<char>, suffix: Seq<char>) -> bool {
    ||| suffix.len() == 0
    ||| suffix[0] == '{'
    ||| kind == "histogram"@ && (suffix == "_sum"@ || suffix == "_count"@ || text::starts_with(
        suffix,
        "_bucket{"@,
    ))
}

/// Is a series one that a scrape can read: every part of it on one line, and every
/// sample under its own name?
pub open spec fn is_proper(family: Family) -> bool {
    &&& is_identifier(family.name)
    &&& one_line(family.help)
    &&& one_line(family.kind)
    &&& family.samples.len() > 0
    &&& forall|i: int|
        0 <= i < family.samples.len() ==> {
            let sample = #[trigger] family.samples[i];
            &&& one_line(sample.suffix)
            &&& one_line(sample.value)
            &&& sample.value.len() > 0
            &&& suffix_fits(family.kind, sample.suffix)
        }
}

/// A sample with a label.
pub open spec fn labelled(open: Seq<char>, label: Seq<char>, value: nat) -> Sample {
    Sample { suffix: open + label + "\"}"@, value: text::decimal(value) }
}

/// The series of the responses.
pub open spec fn response_family(m: Metrics) -> Family {
    Family {
        name: "ramjet_requests_total"@,
        help: "Responses served, by status class."@,
        kind: "counter"@,
        samples: Seq::new(
            6,
            |i: int| labelled("{code=\""@, CLASSES@[i]@, m.requests@[i] as nat),
        ),
    }
}

/// The series of the latencies.
pub open spec fn latency_family(m: Metrics) -> Family {
    let h = m.upstream_latency;
    Family {
        name: "ramjet_upstream_latency_seconds"@,
        help: "Time from upstream dispatch to response headers."@,
        kind: "histogram"@,
        samples: Seq::new(
            12,
            |i: int|
                labelled("_bucket{le=\""@, BOUNDS@[i]@, cumulative(h.buckets@, (i + 1) as nat) as nat),
        ).push(labelled("_bucket{le=\""@, "+Inf"@, h.count as nat)).push(
            Sample { suffix: "_sum"@, value: rounding::seconds(h.sum_nanos as nat) },
        ).push(Sample { suffix: "_count"@, value: text::decimal(h.count as nat) }),
    }
}

/// A series with one value.
pub open spec fn plain_family(name: Seq<char>, help: Seq<char>, kind: Seq<char>, value: int) -> Family {
    Family {
        name,
        help,
        kind,
        samples: seq![Sample { suffix: Seq::empty(), value: text::integer(value) }],
    }
}

/// The series in front of the counters.
pub open spec fn front_families(m: Metrics, generation: u64, pinned: bool) -> Seq<Family> {
    seq![
        response_family(m),
        latency_family(m),
        plain_family(
            "ramjet_active_connections"@,
            "Downstream connections currently being served."@,
            "gauge"@,
            m.active_connections as int,
        ),
        plain_family(
            "ramjet_route_table_generation"@,
            "Generation of the currently published route table."@,
            "gauge"@,
            generation as int,
        ),
        plain_family(
            "ramjet_pinned"@,
            "1 when a rollback is holding publication at a chosen generation."@,
            "gauge"@,
            if pinned {
                1
            } else {
                0
            },
        ),
    ]
}

/// The series of a counter.
pub open spec fn counter_family(counter: (Seq<char>, Seq<char>, u64)) -> Family {
    plain_family(counter.0, counter.1, "counter"@, counter.2 as int)
}

/// Every series, in the order of the exposition.
pub open spec fn families(m: Metrics, generation: u64, pinned: bool) -> Seq<Family> {
    front_families(m, generation, pinned) + counters(m).map_values(
        |counter: (Seq<char>, Seq<char>, u64)| counter_family(counter),
    )
}

proof fn lemma_document_grows(families: Seq<Family>, family: Family)
    ensures
        document(families.push(family)) == document(families) + family_text(family),
{
    assert(families.push(family).drop_last() =~= families);
}

proof fn lemma_samples_grow(name: Seq<char>, samples: Seq<Sample>, sample: Sample)
    ensures
        samples_text(name, samples.push(sample)) == samples_text(name, samples) + (name
            + sample.suffix + " "@ + sample.value + "\n"@),
{
    assert(samples.push(sample).drop_last() =~= samples);
}

proof fn lemma_one_sample(name: Seq<char>, help: Seq<char>, kind: Seq<char>, value: int)
    ensures
        family_text(plain_family(name, help, kind, value)) == series(name, help, kind, value),
{
    let sample = Sample { suffix: Seq::empty(), value: text::integer(value) };
    lemma_samples_grow(name, Seq::empty(), sample);
    assert(seq![sample] =~= Seq::<Sample>::empty().push(sample));
    assert(samples_text(name, Seq::empty()) + (name + sample.suffix + " "@ + sample.value + "\n"@)
        =~= name + " "@ + text::integer(value) + "\n"@);
}

proof fn lemma_class_samples(m: Metrics, n: nat)
    requires
        n <= 6,
    ensures
        samples_text("ramjet_requests_total"@, response_family(m).samples.take(n as int))
            == class_lines(m.requests@, n),
    decreases n,
{
    let all = response_family(m).samples;
    if n > 0 {
        lemma_class_samples(m, (n - 1) as nat);
        let front = all.take(n - 1);
        let sample = labelled("{code=\""@, CLASSES@[n - 1]@, m.requests@[n - 1] as nat);
        assert(all.take(n as int) =~= front.push(sample));
        lemma_samples_grow("ramjet_requests_total"@, front, sample);
        reveal_strlit("ramjet_requests_total{code=\"");
        reveal_strlit("ramjet_requests_total");
        reveal_strlit("{code=\"");
        reveal_strlit("\"} ");
        reveal_strlit("\"}");
        reveal_strlit(" ");
        assert("ramjet_requests_total{code=\""@ =~= "ramjet_requests_total"@ + "{code=\""@);
        assert("\"} "@ =~= "\"}"@ + " "@);
        assert("ramjet_requests_total"@ + sample.suffix + " "@ + sample.value + "\n"@
            =~= "ramjet_requests_total{code=\""@ + CLASSES@[n - 1]@ + "\"} "@ + sample.value + "\n"@);
    }
}

proof fn lemma_bucket_sample(name: Seq<char>, bound: Seq<char>, value: u64)
    ensures
        name + labelled("_bucket{le=\""@, bound, value as nat).suffix + " "@ + labelled(
            "_bucket{le=\""@,
            bound,
            value as nat,
        ).value + "\n"@ == bucket_line(name, bound, value),
{
    reveal_strlit("\"} ");
    reveal_strlit("\"}");
    reveal_strlit(" ");
    assert("\"} "@ =~= "\"}"@ + " "@);
    let sample = labelled("_bucket{le=\""@, bound, value as nat);
    assert(name + sample.suffix + " "@ + sample.value + "\n"@ =~= bucket_line(name, bound, value));
}

proof fn lemma_latency_samples(m: Metrics, n: nat)
    requires
        n <= 12,
    ensures
        samples_text("ramjet_upstream_latency_seconds"@, latency_family(m).samples.take(n as int))
            == bucket_lines(m.upstream_latency.buckets@, "ramjet_upstream_latency_seconds"@, n),
    decreases n,
{
    let name = "ramjet_upstream_latency_seconds"@;
    let all = latency_family(m).samples;
    if n > 0 {
        lemma_latency_samples(m, (n - 1) as nat);
        let front = all.take(n - 1);
        let total = cumulative(m.upstream_latency.buckets@, n);
        let sample = labelled("_bucket{le=\""@, BOUNDS@[n - 1]@, total as nat);
        assert(all.take(n as int) =~= front.push(sample));
        lemma_samples_grow(name, front, sample);
        lemma_bucket_sample(name, BOUNDS@[n - 1]@, total);
    }
}

proof fn lemma_histogram(m: Metrics)
    ensures
        samples_text("ramjet_upstream_latency_seconds"@, latency_family(m).samples)
            == histogram_text(m.upstream_latency, "ramjet_upstream_latency_seconds"@),
{
    let name = "ramjet_upstream_latency_seconds"@;
    let h = m.upstream_latency;
    let all = latency_family(m).samples;
    lemma_latency_samples(m, 12);
    let whole = labelled("_bucket{le=\""@, "+Inf"@, h.count as nat);
    let sum = Sample { suffix: "_sum"@, value: rounding::seconds(h.sum_nanos as nat) };
    let count = Sample { suffix: "_count"@, value: text::decimal(h.count as nat) };
    assert(all.take(13) =~= all.take(12).push(whole));
    assert(all.take(14) =~= all.take(13).push(sum));
    assert(all =~= all.take(14).push(count));
    lemma_samples_grow(name, all.take(12), whole);
    lemma_samples_grow(name, all.take(13), sum);
    lemma_samples_grow(name, all.take(14), count);
    lemma_bucket_sample(name, "+Inf"@, h.count);
    reveal_strlit("_sum ");
    reveal_strlit("_sum");
    reveal_strlit("_count ");
    reveal_strlit("_count");
    reveal_strlit(" ");
    assert("_sum "@ =~= "_sum"@ + " "@);
    assert("_count "@ =~= "_count"@ + " "@);
    assert(name + sum.suffix + " "@ + sum.value + "\n"@ =~= name + "_sum "@ + sum.value + "\n"@);
    assert(name + count.suffix + " "@ + count.value + "\n"@ =~= name + "_count "@ + count.value
        + "\n"@);
}

proof fn lemma_counter_families(front: Seq<Family>, list: Seq<(Seq<char>, Seq<char>, u64)>, n: nat)
    requires
        n <= list.len(),
    ensures
        document(
            front + list.map_values(
                |counter: (Seq<char>, Seq<char>, u64)| counter_family(counter),
            ).take(n as int),
        ) == document(front) + counters_text(list, n),
    decreases n,
{
    let all = list.map_values(|counter: (Seq<char>, Seq<char>, u64)| counter_family(counter));
    if n == 0 {
        assert(front + all.take(0) =~= front);
        assert(document(front) + counters_text(list, 0) =~= document(front));
    } else {
        lemma_counter_families(front, list, (n - 1) as nat);
        let one = list[n - 1];
        assert(front + all.take(n as int) =~= (front + all.take(n - 1)).push(counter_family(one)));
        lemma_document_grows(front + all.take(n - 1), counter_family(one));
        lemma_one_sample(one.0, one.1, "counter"@, one.2 as int);
        assert(document(front) + counters_text(list, n) =~= document(front) + counters_text(
            list,
            (n - 1) as nat,
        ) + series(one.0, one.1, "counter"@, one.2 as int));
    }
}

proof fn lemma_front(m: Metrics, generation: u64, pinned: bool)
    ensures
        document(front_families(m, generation, pinned)) == labelled_text(m) + gauges_text(
            m,
            generation,
            pinned,
        ),
{
    let all = front_families(m, generation, pinned);
    let none = Seq::<Family>::empty();
    assert(all.take(1) =~= none.push(all[0]));
    assert(all.take(2) =~= all.take(1).push(all[1]));
    assert(all.take(3) =~= all.take(2).push(all[2]));
    assert(all.take(4) =~= all.take(3).push(all[3]));
    assert(all =~= all.take(4).push(all[4]));
    lemma_document_grows(none, all[0]);
    lemma_document_grows(all.take(1), all[1]);
    lemma_document_grows(all.take(2), all[2]);
    lemma_document_grows(all.take(3), all[3]);
    lemma_document_grows(all.take(4), all[4]);
    lemma_class_samples(m, 6);
    assert(all[0].samples.take(6) =~= all[0].samples);
    lemma_histogram(m);
    lemma_one_sample(all[2].name, all[2].help, "gauge"@, m.active_connections as int);
    lemma_one_sample(all[3].name, all[3].help, "gauge"@, generation as int);
    lemma_one_sample(
        all[4].name,
        all[4].help,
        "gauge"@,
        if pinned {
            1
        } else {
            0
        },
    );
    assert(document(none) + family_text(all[0]) =~= family_text(all[0]));
    assert(family_text(all[0]) + family_text(all[1]) =~= labelled_text(m));
    assert(labelled_text(m) + family_text(all[2]) + family_text(all[3]) + family_text(all[4])
        =~= labelled_text(m) + gauges_text(m, generation, pinned));
}

proof fn lemma_numerals_are_one_line(n: nat)
    ensures
        one_line(text::decimal(n)),
        text::decimal(n).len() > 0,
    decreases n,
{
    if n >= 10 {
        lemma_numerals_are_one_line(n / 10);
    }
}

proof fn lemma_seconds_are_one_line(nanos: nat)
    ensures
        one_line(rounding::seconds(nanos)),
        rounding::seconds(nanos).len() > 0,
{
    let n = rounding::shown_micros(nanos);
    lemma_numerals_are_one_line(n / rounding::ten_to(6));
    lemma_numerals_are_one_line(n % rounding::ten_to(6));
    reveal_strlit(".");
}

/// Where a series stands, told from its name.
spec fn place(name: Seq<char>) -> int {
    if name.len() == 13 {
        4int
    } else if name.len() == 21 {
        if name[7] == 'm' {
            14int
        } else {
            0int
        }
    } else if name.len() == 24 {
        12int
    } else if name.len() == 25 {
        if name[7] == 'a' {
            2int
        } else {
            10int
        }
    } else if name.len() == 27 {
        if name[15] == 'c' {
            11int
        } else if name[15] == 'k' {
            16int
        } else if name[15] == 'r' {
            15int
        } else {
            5int
        }
    } else if name.len() == 28 {
        17int
    } else if name.len() == 29 {
        if name[7] == 'r' {
            3int
        } else {
            8int
        }
    } else if name.len() == 30 {
        9int
    } else if name.len() == 31 {
        1int
    } else if name.len() == 34 {
        13int
    } else if name.len() == 35 {
        6int
    } else if name.len() == 38 {
        7int
    } else {
        -1
    }
}

proof fn lemma_series_0()
    ensures
        is_identifier("ramjet_requests_total"@),
        place("ramjet_requests_total"@) == 0,
        one_line("Responses served, by status class."@),
{
    reveal_strlit("ramjet_requests_total");
    reveal_strlit("Responses served, by status class.");
}

proof fn lemma_series_1()
    ensures
        is_identifier("ramjet_upstream_latency_seconds"@),
        place("ramjet_upstream_latency_seconds"@) == 1,
        one_line("Time from upstream dispatch to response headers."@),
{
    reveal_strlit("ramjet_upstream_latency_seconds");
    reveal_strlit("Time from upstream dispatch to response headers.");
}

proof fn lemma_series_2()
    ensures
        is_identifier("ramjet_active_connections"@),
        place("ramjet_active_connections"@) == 2,
        one_line("Downstream connections currently being served."@),
{
    reveal_strlit("ramjet_active_connections");
    reveal_strlit("Downstream connections currently being served.");
}

proof fn lemma_series_3()
    ensures
        is_identifier("ramjet_route_table_generation"@),
        place("ramjet_route_table_generation"@) == 3,
        one_line("Generation of the currently published route table."@),
{
    reveal_strlit("ramjet_route_table_generation");
    reveal_strlit("Generation of the currently published route table.");
}

proof fn lemma_series_4()
    ensures
        is_identifier("ramjet_pinned"@),
        place("ramjet_pinned"@) == 4,
        one_line("1 when a rollback is holding publication at a chosen generation."@),
{
    reveal_strlit("ramjet_pinned");
    reveal_strlit("1 when a rollback is holding publication at a chosen generation.");
}

proof fn lemma_series_5()
    ensures
        is_identifier("ramjet_tls_handshakes_total"@),
        place("ramjet_tls_handshakes_total"@) == 5,
        one_line("TLS handshakes completed."@),
{
    reveal_strlit("ramjet_tls_handshakes_total");
    reveal_strlit("TLS handshakes completed.");
}

proof fn lemma_series_6()
    ensures
        is_identifier("ramjet_tls_handshake_failures_total"@),
        place("ramjet_tls_handshake_failures_total"@) == 6,
        one_line("TLS handshakes that failed."@),
{
    reveal_strlit("ramjet_tls_handshake_failures_total");
    reveal_strlit("TLS handshakes that failed.");
}

proof fn lemma_series_7()
    ensures
        is_identifier("ramjet_upstream_connect_failures_total"@),
        place("ramjet_upstream_connect_failures_total"@) == 7,
        one_line("Failures to connect to an upstream endpoint."@),
{
    reveal_strlit("ramjet_upstream_connect_failures_total");
    reveal_strlit("Failures to connect to an upstream endpoint.");
}

proof fn lemma_series_8()
    ensures
        is_identifier("ramjet_upstream_retries_total"@),
        place("ramjet_upstream_retries_total"@) == 8,
        one_line("Requests re-dispatched to a different endpoint."@),
{
    reveal_strlit("ramjet_upstream_retries_total");
    reveal_strlit("Requests re-dispatched to a different endpoint.");
}

proof fn lemma_series_9()
    ensures
        is_identifier("ramjet_upstream_timeouts_total"@),
        place("ramjet_upstream_timeouts_total"@) == 9,
        one_line("Upstreams that did not send headers before the deadline."@),
{
    reveal_strlit("ramjet_upstream_timeouts_total");
    reveal_strlit("Upstreams that did not send headers before the deadline.");
}

proof fn lemma_series_10()
    ensures
        is_identifier("ramjet_route_misses_total"@),
        place("ramjet_route_misses_total"@) == 10,
        one_line("Requests that matched no route and no default backend."@),
{
    reveal_strlit("ramjet_route_misses_total");
    reveal_strlit("Requests that matched no route and no default backend.");
}

proof fn lemma_series_11()
    ensures
        is_identifier("ramjet_h3_connections_total"@),
        place("ramjet_h3_connections_total"@) == 11,
        one_line("HTTP/3 connections established on the QUIC listener."@),
{
    reveal_strlit("ramjet_h3_connections_total");
    reveal_strlit("HTTP/3 connections established on the QUIC listener.");
}

proof fn lemma_series_12()
    ensures
        is_identifier("ramjet_h3_requests_total"@),
        place("ramjet_h3_requests_total"@) == 12,
        one_line("Requests that arrived over HTTP/3."@),
{
    reveal_strlit("ramjet_h3_requests_total");
    reveal_strlit("Requests that arrived over HTTP/3.");
}

proof fn lemma_series_13()
    ensures
        is_identifier("ramjet_h3_handshake_failures_total"@),
        place("ramjet_h3_handshake_failures_total"@) == 13,
        one_line("QUIC connections that never became usable HTTP/3 connections."@),
{
    reveal_strlit("ramjet_h3_handshake_failures_total");
    reveal_strlit("QUIC connections that never became usable HTTP/3 connections.");
}

proof fn lemma_series_14()
    ensures
        is_identifier("ramjet_mirrored_total"@),
        place("ramjet_mirrored_total"@) == 14,
        one_line("Requests copied to a mirror backend, which accepted the copy."@),
{
    reveal_strlit("ramjet_mirrored_total");
    reveal_strlit("Requests copied to a mirror backend, which accepted the copy.");
}

proof fn lemma_series_15()
    ensures
        is_identifier("ramjet_mirror_dropped_total"@),
        place("ramjet_mirror_dropped_total"@) == 15,
        one_line("Copies discarded because a serving runtime's mirror queue was full."@),
{
    reveal_strlit("ramjet_mirror_dropped_total");
    reveal_strlit("Copies discarded because a serving runtime's mirror queue was full.");
}

proof fn lemma_series_16()
    ensures
        is_identifier("ramjet_mirror_skipped_total"@),
        place("ramjet_mirror_skipped_total"@) == 16,
        one_line("Copies not attempted because the request body exceeded --mirror-max-body."@),
{
    reveal_strlit("ramjet_mirror_skipped_total");
    reveal_strlit("Copies not attempted because the request body exceeded --mirror-max-body.");
}

proof fn lemma_series_17()
    ensures
        is_identifier("ramjet_mirror_failures_total"@),
        place("ramjet_mirror_failures_total"@) == 17,
        one_line("Copies a mirror backend refused, failed, or did not answer in time."@),
{
    reveal_strlit("ramjet_mirror_failures_total");
    reveal_strlit("Copies a mirror backend refused, failed, or did not answer in time.");
}

proof fn lemma_plain_is_proper(name: Seq<char>, help: Seq<char>, kind: Seq<char>, value: int)
    requires
        is_identifier(name),
        one_line(help),
        one_line(kind),
    ensures
        is_proper(plain_family(name, help, kind, value)),
{
    if value < 0 {
        lemma_numerals_are_one_line((-value) as nat);
    } else {
        lemma_numerals_are_one_line(value as nat);
    }
}

proof fn lemma_labels_are_one_line()
    ensures
        forall|i: int| 0 <= i < 6 ==> one_line(#[trigger] CLASSES@[i]@),
        forall|i: int| 0 <= i < 12 ==> one_line(#[trigger] BOUNDS@[i]@),
{
    reveal_strlit("1xx");
    reveal_strlit("2xx");
    reveal_strlit("3xx");
    reveal_strlit("4xx");
    reveal_strlit("5xx");
    reveal_strlit("other");
    reveal_strlit("0.001");
    reveal_strlit("0.0025");
    reveal_strlit("0.005");
    reveal_strlit("0.01");
    reveal_strlit("0.025");
    reveal_strlit("0.05");
    reveal_strlit("0.1");
    reveal_strlit("0.25");
    reveal_strlit("0.5");
    reveal_strlit("1");
    reveal_strlit("5");
    reveal_strlit("10");
    assert(CLASSES@ =~= seq!["1xx", "2xx", "3xx", "4xx", "5xx", "other"]);
    assert(BOUNDS@ =~= seq![
        "0.001",
        "0.0025",
        "0.005",
        "0.01",
        "0.025",
        "0.05",
        "0.1",
        "0.25",
        "0.5",
        "1",
        "5",
        "10",
    ]);
}

proof fn lemma_responses_are_proper(m: Metrics)
    ensures
        is_proper(response_family(m)),
{
    let family = response_family(m);
    lemma_series_0();
    lemma_labels_are_one_line();
    reveal_strlit("counter");
    reveal_strlit("{code=\"");
    reveal_strlit("\"}");
    assert forall|i: int| 0 <= i < 6 implies {
        let sample = #[trigger] family.samples[i];
        &&& one_line(sample.suffix)
        &&& one_line(sample.value)
        &&& sample.value.len() > 0
        &&& suffix_fits(family.kind, sample.suffix)
    } by {
        assert(one_line(CLASSES@[i]@));
        lemma_numerals_are_one_line(m.requests@[i] as nat);
        let suffix = "{code=\""@ + CLASSES@[i]@ + "\"}"@;
        assert(suffix[0] == '{');
    }
}

proof fn lemma_bucket_is_proper(bound: Seq<char>, value: u64)
    requires
        one_line(bound),
    ensures
        ({
            let sample = labelled("_bucket{le=\""@, bound, value as nat);
            &&& one_line(sample.suffix)
            &&& one_line(sample.value)
            &&& sample.value.len() > 0
            &&& suffix_fits("histogram"@, sample.suffix)
        }),
{
    let sample = labelled("_bucket{le=\""@, bound, value as nat);
    lemma_numerals_are_one_line(value as nat);
    reveal_strlit("_bucket{le=\"");
    reveal_strlit("_bucket{");
    reveal_strlit("\"}");
    assert(sample.suffix.take(8) =~= "_bucket{"@);
}

proof fn lemma_latencies_are_proper(m: Metrics)
    ensures
        is_proper(latency_family(m)),
{
    let family = latency_family(m);
    let h = m.upstream_latency;
    lemma_series_1();
    lemma_labels_are_one_line();
    lemma_seconds_are_one_line(h.sum_nanos as nat);
    lemma_numerals_are_one_line(h.count as nat);
    reveal_strlit("histogram");
    reveal_strlit("+Inf");
    reveal_strlit("_sum");
    reveal_strlit("_count");
    lemma_bucket_is_proper("+Inf"@, h.count);
    assert forall|i: int| 0 <= i < 15 implies {
        let sample = #[trigger] family.samples[i];
        &&& one_line(sample.suffix)
        &&& one_line(sample.value)
        &&& sample.value.len() > 0
        &&& suffix_fits(family.kind, sample.suffix)
    } by {
        if i < 12 {
            assert(one_line(BOUNDS@[i]@));
            lemma_bucket_is_proper(BOUNDS@[i]@, cumulative(h.buckets@, (i + 1) as nat));
        }
    }
}

proof fn lemma_series(m: Metrics, generation: u64, pinned: bool, i: int)
    requires
        0 <= i < 18,
    ensures
        is_proper(families(m, generation, pinned)[i]),
        place(families(m, generation, pinned)[i].name) == i,
{
    let all = families(m, generation, pinned);
    reveal_strlit("gauge");
    reveal_strlit("counter");
    if i == 0 {
        lemma_series_0();
        lemma_responses_are_proper(m);
    } else if i == 1 {
        lemma_series_1();
        lemma_latencies_are_proper(m);
    } else if i == 2 {
        lemma_series_2();
    } else if i == 3 {
        lemma_series_3();
    } else if i == 4 {
        lemma_series_4();
    } else if i == 5 {
        lemma_series_5();
    } else if i == 6 {
        lemma_series_6();
    } else if i == 7 {
        lemma_series_7();
    } else if i == 8 {
        lemma_series_8();
    } else if i == 9 {
        lemma_series_9();
    } else if i == 10 {
        lemma_series_10();
    } else if i == 11 {
        lemma_series_11();
    } else if i == 12 {
        lemma_series_12();
    } else if i == 13 {
        lemma_series_13();
    } else if i == 14 {
        lemma_series_14();
    } else if i == 15 {
        lemma_series_15();
    } else if i == 16 {
        lemma_series_16();
    } else if i == 17 {
        lemma_series_17();
    }
    if 2 <= i < 5 {
        let value = if i == 2 {
            m.active_connections as int
        } else if i == 3 {
            generation as int
        } else if pinned {
            1
        } else {
            0
        };
        lemma_plain_is_proper(all[i].name, all[i].help, "gauge"@, value);
    } else if i >= 5 {
        let one = counters(m)[i - 5];
        assert(all[i] == counter_family(one));
        lemma_plain_is_proper(one.0, one.1, "counter"@, one.2 as int);
    }
}

proof fn lemma_exposition(m: Metrics, generation: u64, pinned: bool)
    ensures
        exposition(m, generation, pinned) == document(families(m, generation, pinned)),
{
    let list = counters(m);
    let front = front_families(m, generation, pinned);
    lemma_front(m, generation, pinned);
    lemma_counter_families(front, list, 13);
    let mapped = list.map_values(|counter: (Seq<char>, Seq<char>, u64)| counter_family(counter));
    assert(mapped.take(13) =~= mapped);
}

proof fn lemma_text_ends(m: Metrics, generation: u64, pinned: bool)
    ensures
        exposition(m, generation, pinned).last() == '\n',
{
    let list = counters(m);
    let one = list[12];
    let front = labelled_text(m) + gauges_text(m, generation, pinned);
    let tail = series(one.0, one.1, "counter"@, one.2 as int);
    reveal_strlit("\n");
    assert(tail.last() == '\n');
    assert(counters_text(list, 13) == counters_text(list, 12) + tail);
    lemma_last(counters_text(list, 12), tail);
    lemma_last(front, counters_text(list, 13));
}

proof fn lemma_last(front: Seq<char>, tail: Seq<char>)
    requires
        tail.len() > 0,
    ensures
        (front + tail).last() == tail.last(),
        (front + tail).len() > 0,
{
}

/// The exposition is a list of series, each declared once: its HELP line, directly
/// followed by its TYPE line, and then its samples, every one of them on a line of
/// its own under that name. Only the histogram's samples add to the name. The text
/// ends with a line ending.
pub proof fn every_series_is_declared_once(
    m: Metrics,
    generation: u64,
    pinned: bool,
    i: int,
    j: int,
)
    requires
        0 <= i < j < families(m, generation, pinned).len(),
    ensures
        exposition(m, generation, pinned) == document(families(m, generation, pinned)),
        is_proper(families(m, generation, pinned)[i]),
        is_proper(families(m, generation, pinned)[j]),
        families(m, generation, pinned)[i].name != families(m, generation, pinned)[j].name,
        exposition(m, generation, pinned).last() == '\n',
{
    lemma_exposition(m, generation, pinned);
    lemma_text_ends(m, generation, pinned);
    assert(families(m, generation, pinned).len() == 18);
    lemma_series(m, generation, pinned, i);
    lemma_series(m, generation, pinned, j);
}

/// The gauge of the generation shows the generation that is serving, and the gauge
/// of the pin whether one is held, whatever was counted.
pub proof fn the_gauges_show_what_serves(m: Metrics, generation: u64, pinned: bool)
    ensures
        families(m, generation, pinned)[3] == plain_family(
            "ramjet_route_table_generation"@,
            "Generation of the currently published route table."@,
            "gauge"@,
            generation as int,
        ),
        families(m, generation, pinned)[3].samples == seq![
            Sample { suffix: Seq::empty(), value: text::decimal(generation as nat) },
        ],
        families(m, generation, pinned)[4].name == "ramjet_pinned"@,
        families(m, generation, pinned)[4].samples == seq![
            Sample {
                suffix: Seq::empty(),
                value: text::decimal(
                    if pinned {
                        1
                    } else {
                        0
                    },
                ),
            },
        ],
{
}

// ---------------------------------------------------------------------------
// What a scrape reads of each series
// ---------------------------------------------------------------------------

/// Does some text hold another, anywhere?
pub open spec fn holds(text: Seq<char>, part: Seq<char>) -> bool {
    exists|front: Seq<char>, back: Seq<char>| text == #[trigger] (front + part + back)
}

/// Is a sample on a line of its own: what names it, a blank, and its value?
pub open spec fn reads(text: Seq<char>, sample: Seq<char>, value: Seq<char>) -> bool {
    holds(text, "\n"@ + sample + " "@ + value + "\n"@)
}

proof fn lemma_held_within(text: Seq<char>, whole: Seq<char>, part: Seq<char>)
    requires
        holds(text, whole),
        holds(whole, part),
    ensures
        holds(text, part),
{
    let (a, d) = choose|a: Seq<char>, d: Seq<char>| text == #[trigger] (a + whole + d);
    let (b, c) = choose|b: Seq<char>, c: Seq<char>| whole == #[trigger] (b + part + c);
    assert(text =~= (a + b) + part + (c + d));
}

/// A series with one value reads as that value.
proof fn lemma_a_series_reads(name: Seq<char>, help: Seq<char>, kind: Seq<char>, value: int)
    ensures
        reads(series(name, help, kind, value), name, text::integer(value)),
{
    let line = "\n"@ + name + " "@ + text::integer(value) + "\n"@;
    let front = "# HELP "@ + name + " "@ + help + "\n# TYPE "@ + name + " "@ + kind;
    assert(series(name, help, kind, value) =~= front + line + Seq::<char>::empty());
}

proof fn lemma_a_counter_is_held(list: Seq<(Seq<char>, Seq<char>, u64)>, n: nat, k: int)
    requires
        0 <= k < n <= list.len(),
    ensures
        holds(
            counters_text(list, n),
            series(list[k].0, list[k].1, "counter"@, list[k].2 as int),
        ),
    decreases n,
{
    let part = series(list[k].0, list[k].1, "counter"@, list[k].2 as int);
    let before = counters_text(list, (n - 1) as nat);
    let last = series(list[n - 1].0, list[n - 1].1, "counter"@, list[n - 1].2 as int);
    if k == n - 1 {
        assert(counters_text(list, n) =~= before + part + Seq::<char>::empty());
    } else {
        lemma_a_counter_is_held(list, (n - 1) as nat, k);
        assert(counters_text(list, n) =~= Seq::<char>::empty() + before + last);
        lemma_held_within(counters_text(list, n), before, part);
    }
}

proof fn lemma_a_counter_reads(m: Metrics, generation: u64, pinned: bool, k: int)
    requires
        0 <= k < 13,
    ensures
        reads(
            exposition(m, generation, pinned),
            counters(m)[k].0,
            text::decimal(counters(m)[k].2 as nat),
        ),
{
    let list = counters(m);
    let (name, help, value) = list[k];
    let front = labelled_text(m) + gauges_text(m, generation, pinned);
    let all = exposition(m, generation, pinned);
    assert(all =~= front + counters_text(list, 13) + Seq::<char>::empty());
    lemma_a_counter_is_held(list, 13, k);
    lemma_held_within(all, counters_text(list, 13), series(name, help, "counter"@, value as int));
    lemma_a_series_reads(name, help, "counter"@, value as int);
    lemma_held_within(
        all,
        series(name, help, "counter"@, value as int),
        "\n"@ + name + " "@ + text::integer(value as int) + "\n"@,
    );
}

/// Every counter is exported under its own name, with its own count.
pub proof fn a_counter_reads_as_its_count(m: Metrics, generation: u64, pinned: bool)
    ensures
        reads(
            exposition(m, generation, pinned),
            "ramjet_tls_handshakes_total"@,
            text::decimal(m.tls_handshakes as nat),
        ),
        reads(
            exposition(m, generation, pinned),
            "ramjet_tls_handshake_failures_total"@,
            text::decimal(m.tls_handshake_failures as nat),
        ),
        reads(
            exposition(m, generation, pinned),
            "ramjet_upstream_connect_failures_total"@,
            text::decimal(m.upstream_connect_failures as nat),
        ),
        reads(
            exposition(m, generation, pinned),
            "ramjet_upstream_retries_total"@,
            text::decimal(m.upstream_retries as nat),
        ),
        reads(
            exposition(m, generation, pinned),
            "ramjet_upstream_timeouts_total"@,
            text::decimal(m.upstream_timeouts as nat),
        ),
        reads(
            exposition(m, generation, pinned),
            "ramjet_route_misses_total"@,
            text::decimal(m.route_misses as nat),
        ),
        reads(
            exposition(m, generation, pinned),
            "ramjet_h3_connections_total"@,
            text::decimal(m.h3_connections as nat),
        ),
        reads(
            exposition(m, generation, pinned),
            "ramjet_h3_requests_total"@,
            text::decimal(m.h3_requests as nat),
        ),
        reads(
            exposition(m, generation, pinned),
            "ramjet_h3_handshake_failures_total"@,
            text::decimal(m.h3_handshake_failures as nat),
        ),
        reads(
            exposition(m, generation, pinned),
            "ramjet_mirrored_total"@,
            text::decimal(m.mirrored as nat),
        ),
        reads(
            exposition(m, generation, pinned),
            "ramjet_mirror_dropped_total"@,
            text::decimal(m.mirror_dropped as nat),
        ),
        reads(
            exposition(m, generation, pinned),
            "ramjet_mirror_skipped_total"@,
            text::decimal(m.mirror_skipped as nat),
        ),
        reads(
            exposition(m, generation, pinned),
            "ramjet_mirror_failures_total"@,
            text::decimal(m.mirror_failures as nat),
        ),
{
    lemma_a_counter_reads(m, generation, pinned, 0);
    lemma_a_counter_reads(m, generation, pinned, 1);
    lemma_a_counter_reads(m, generation, pinned, 2);
    lemma_a_counter_reads(m, generation, pinned, 3);
    lemma_a_counter_reads(m, generation, pinned, 4);
    lemma_a_counter_reads(m, generation, pinned, 5);
    lemma_a_counter_reads(m, generation, pinned, 6);
    lemma_a_counter_reads(m, generation, pinned, 7);
    lemma_a_counter_reads(m, generation, pinned, 8);
    lemma_a_counter_reads(m, generation, pinned, 9);
    lemma_a_counter_reads(m, generation, pinned, 10);
    lemma_a_counter_reads(m, generation, pinned, 11);
    lemma_a_counter_reads(m, generation, pinned, 12);
}

proof fn lemma_gauges_are_held(m: Metrics, generation: u64, pinned: bool)
    ensures
        holds(exposition(m, generation, pinned), gauges_text(m, generation, pinned)),
        holds(exposition(m, generation, pinned), labelled_text(m)),
{
    let all = exposition(m, generation, pinned);
    let gauges = gauges_text(m, generation, pinned);
    let counted = counters_text(counters(m), 13);
    assert(all =~= labelled_text(m) + gauges + counted);
    assert(all =~= Seq::<char>::empty() + labelled_text(m) + (gauges + counted));
}

/// Every gauge is exported under its own name, with its own value.
pub proof fn a_gauge_reads_as_its_value(m: Metrics, generation: u64, pinned: bool)
    ensures
        reads(
            exposition(m, generation, pinned),
            "ramjet_active_connections"@,
            text::integer(m.active_connections as int),
        ),
        reads(
            exposition(m, generation, pinned),
            "ramjet_route_table_generation"@,
            text::decimal(generation as nat),
        ),
        reads(
            exposition(m, generation, pinned),
            "ramjet_pinned"@,
            text::decimal(
                if pinned {
                    1
                } else {
                    0
                },
            ),
        ),
{
    let all = exposition(m, generation, pinned);
    let gauges = gauges_text(m, generation, pinned);
    lemma_gauges_are_held(m, generation, pinned);
    let first = series(
        "ramjet_active_connections"@,
        "Downstream connections currently being served."@,
        "gauge"@,
        m.active_connections as int,
    );
    let second = series(
        "ramjet_route_table_generation"@,
        "Generation of the currently published route table."@,
        "gauge"@,
        generation as int,
    );
    let held: int = if pinned {
        1
    } else {
        0
    };
    let third = series(
        "ramjet_pinned"@,
        "1 when a rollback is holding publication at a chosen generation."@,
        "gauge"@,
        held,
    );
    assert(gauges =~= Seq::<char>::empty() + first + (second + third));
    assert(gauges =~= first + second + third);
    assert(gauges =~= (first + second) + third + Seq::<char>::empty());
    lemma_a_series_reads(
        "ramjet_active_connections"@,
        "Downstream connections currently being served."@,
        "gauge"@,
        m.active_connections as int,
    );
    lemma_a_series_reads(
        "ramjet_route_table_generation"@,
        "Generation of the currently published route table."@,
        "gauge"@,
        generation as int,
    );
    lemma_a_series_reads(
        "ramjet_pinned"@,
        "1 when a rollback is holding publication at a chosen generation."@,
        "gauge"@,
        held,
    );
    lemma_held_within(all, gauges, first);
    lemma_held_within(all, gauges, second);
    lemma_held_within(all, gauges, third);
    lemma_held_within(
        all,
        first,
        "\n"@ + "ramjet_active_connections"@ + " "@ + text::integer(m.active_connections as int)
            + "\n"@,
    );
    lemma_held_within(
        all,
        second,
        "\n"@ + "ramjet_route_table_generation"@ + " "@ + text::integer(generation as int)
            + "\n"@,
    );
    lemma_held_within(all, third, "\n"@ + "ramjet_pinned"@ + " "@ + text::integer(held) + "\n"@);
}

/// A line that follows another line reads on a line of its own.
proof fn lemma_a_line_reads(
    text: Seq<char>,
    front: Seq<char>,
    sample: Seq<char>,
    value: Seq<char>,
    back: Seq<char>,
)
    requires
        text == front + (sample + " "@ + value + "\n"@) + back,
        front.len() > 0,
        front.last() == '\n',
    ensures
        reads(text, sample, value),
{
    reveal_strlit("\n");
    let line = "\n"@ + sample + " "@ + value + "\n"@;
    assert(text =~= front.drop_last() + line + back);
}

proof fn lemma_a_family_is_held(list: Seq<Family>, k: int)
    requires
        0 <= k < list.len(),
    ensures
        holds(document(list), family_text(list[k])),
    decreases list.len(),
{
    let rest = list.drop_last();
    let last = family_text(list.last());
    if k == list.len() - 1 {
        assert(document(list) =~= document(rest) + last + Seq::<char>::empty());
    } else {
        lemma_a_family_is_held(rest, k);
        assert(rest[k] == list[k]);
        assert(document(list) =~= Seq::<char>::empty() + document(rest) + last);
        lemma_held_within(document(list), document(rest), family_text(list[k]));
    }
}

proof fn lemma_a_sample_is_read(
    head: Seq<char>,
    name: Seq<char>,
    samples: Seq<Sample>,
    k: int,
)
    requires
        head.len() > 0,
        head.last() == '\n',
        0 <= k < samples.len(),
    ensures
        reads(head + samples_text(name, samples), name + samples[k].suffix, samples[k].value),
        (head + samples_text(name, samples)).last() == '\n',
    decreases samples.len(),
{
    reveal_strlit("\n");
    let rest = samples.drop_last();
    let last = samples.last();
    let whole = head + samples_text(name, samples);
    let front = head + samples_text(name, rest);
    if rest.len() > 0 {
        lemma_a_sample_is_read(head, name, rest, 0);
    } else {
        assert(front =~= head);
    }
    let line = name + last.suffix + " "@ + last.value + "\n"@;
    assert(whole =~= front + line + Seq::<char>::empty());
    lemma_a_line_reads(whole, front, name + last.suffix, last.value, Seq::empty());
    if k < rest.len() {
        lemma_a_sample_is_read(head, name, rest, k);
        assert(rest[k] == samples[k]);
        assert(whole =~= Seq::<char>::empty() + front + line);
        lemma_held_within(
            whole,
            front,
            "\n"@ + (name + samples[k].suffix) + " "@ + samples[k].value + "\n"@,
        );
    }
}

proof fn lemma_a_family_reads(m: Metrics, generation: u64, pinned: bool, i: int, k: int)
    requires
        0 <= i < 2,
        0 <= k < families(m, generation, pinned)[i].samples.len(),
    ensures
        ({
            let family = families(m, generation, pinned)[i];
            reads(
                exposition(m, generation, pinned),
                family.name + family.samples[k].suffix,
                family.samples[k].value,
            )
        }),
{
    let all = families(m, generation, pinned);
    let family = all[i];
    reveal_strlit("\n");
    lemma_exposition(m, generation, pinned);
    lemma_a_family_is_held(all, i);
    let head = series_head(family.name, family.help, family.kind);
    lemma_a_sample_is_read(head, family.name, family.samples, k);
    lemma_held_within(
        document(all),
        family_text(family),
        "\n"@ + (family.name + family.samples[k].suffix) + " "@ + family.samples[k].value + "\n"@,
    );
}

proof fn lemma_joined_in_front(a: Seq<char>, b: Seq<char>, c: Seq<char>, d: Seq<char>, ab: Seq<char>)
    requires
        ab == a + b,
    ensures
        a + (b + c + d) == ab + c + d,
{
    assert(a + (b + c + d) =~= ab + c + d);
}

/// A class of responses is exported under its own label, with its own count.
pub proof fn a_class_reads_as_its_count(m: Metrics, generation: u64, pinned: bool)
    ensures
        reads(
            exposition(m, generation, pinned),
            "ramjet_requests_total{code=\""@ + "1xx"@ + "\"}"@,
            text::decimal(m.requests@[0] as nat),
        ),
        reads(
            exposition(m, generation, pinned),
            "ramjet_requests_total{code=\""@ + "2xx"@ + "\"}"@,
            text::decimal(m.requests@[1] as nat),
        ),
        reads(
            exposition(m, generation, pinned),
            "ramjet_requests_total{code=\""@ + "3xx"@ + "\"}"@,
            text::decimal(m.requests@[2] as nat),
        ),
        reads(
            exposition(m, generation, pinned),
            "ramjet_requests_total{code=\""@ + "4xx"@ + "\"}"@,
            text::decimal(m.requests@[3] as nat),
        ),
        reads(
            exposition(m, generation, pinned),
            "ramjet_requests_total{code=\""@ + "5xx"@ + "\"}"@,
            text::decimal(m.requests@[4] as nat),
        ),
        reads(
            exposition(m, generation, pinned),
            "ramjet_requests_total{code=\""@ + "other"@ + "\"}"@,
            text::decimal(m.requests@[5] as nat),
        ),
{
    reveal_strlit("ramjet_requests_total{code=\"");
    reveal_strlit("ramjet_requests_total");
    reveal_strlit("{code=\"");
    assert("ramjet_requests_total{code=\""@ =~= "ramjet_requests_total"@ + "{code=\""@);
    assert forall|k: int| 0 <= k < 6 implies reads(
        exposition(m, generation, pinned),
        "ramjet_requests_total{code=\""@ + #[trigger] CLASSES@[k]@ + "\"}"@,
        text::decimal(m.requests@[k] as nat),
    ) by {
        lemma_a_family_reads(m, generation, pinned, 0, k);
        lemma_joined_in_front(
            "ramjet_requests_total"@,
            "{code=\""@,
            CLASSES@[k]@,
            "\"}"@,
            "ramjet_requests_total{code=\""@,
        );
    }
    assert(CLASSES@[0]@ == "1xx"@);
    assert(CLASSES@[1]@ == "2xx"@);
    assert(CLASSES@[2]@ == "3xx"@);
    assert(CLASSES@[3]@ == "4xx"@);
    assert(CLASSES@[4]@ == "5xx"@);
    assert(CLASSES@[5]@ == "other"@);
}

/// A class is looked up by its label: the first digit of its statuses and two
/// letters, or the word for the rest.
pub proof fn a_class_is_looked_up_by_its_label()
    ensures
        class_named("1xx"@, 0) == 0,
        class_named("2xx"@, 0) == 1,
        class_named("3xx"@, 0) == 2,
        class_named("4xx"@, 0) == 3,
        class_named("5xx"@, 0) == 4,
        class_named("other"@, 0) == 5,
{
    reveal_strlit("1xx");
    reveal_strlit("2xx");
    reveal_strlit("3xx");
    reveal_strlit("4xx");
    reveal_strlit("5xx");
    reveal_strlit("other");
    reveal_with_fuel(class_named, 7);
    assert("1xx"@[0] == '1' && "2xx"@[0] == '2' && "3xx"@[0] == '3' && "4xx"@[0] == '4'
        && "5xx"@[0] == '5' && "other"@[0] == 'o');
}

/// The histogram is exported in seconds: a line for every bound, one for every
/// observation, the sum, and the count.
pub proof fn a_bound_reads_as_its_total(m: Metrics, generation: u64, pinned: bool)
    ensures
        reads(
            exposition(m, generation, pinned),
            "ramjet_upstream_latency_seconds_bucket{le=\""@ + "0.001"@ + "\"}"@,
            text::decimal(cumulative(m.upstream_latency.buckets@, 1) as nat),
        ),
        reads(
            exposition(m, generation, pinned),
            "ramjet_upstream_latency_seconds_bucket{le=\""@ + "0.0025"@ + "\"}"@,
            text::decimal(cumulative(m.upstream_latency.buckets@, 2) as nat),
        ),
        reads(
            exposition(m, generation, pinned),
            "ramjet_upstream_latency_seconds_bucket{le=\""@ + "0.005"@ + "\"}"@,
            text::decimal(cumulative(m.upstream_latency.buckets@, 3) as nat),
        ),
        reads(
            exposition(m, generation, pinned),
            "ramjet_upstream_latency_seconds_bucket{le=\""@ + "0.01"@ + "\"}"@,
            text::decimal(cumulative(m.upstream_latency.buckets@, 4) as nat),
        ),
        reads(
            exposition(m, generation, pinned),
            "ramjet_upstream_latency_seconds_bucket{le=\""@ + "0.025"@ + "\"}"@,
            text::decimal(cumulative(m.upstream_latency.buckets@, 5) as nat),
        ),
        reads(
            exposition(m, generation, pinned),
            "ramjet_upstream_latency_seconds_bucket{le=\""@ + "0.05"@ + "\"}"@,
            text::decimal(cumulative(m.upstream_latency.buckets@, 6) as nat),
        ),
        reads(
            exposition(m, generation, pinned),
            "ramjet_upstream_latency_seconds_bucket{le=\""@ + "0.1"@ + "\"}"@,
            text::decimal(cumulative(m.upstream_latency.buckets@, 7) as nat),
        ),
        reads(
            exposition(m, generation, pinned),
            "ramjet_upstream_latency_seconds_bucket{le=\""@ + "0.25"@ + "\"}"@,
            text::decimal(cumulative(m.upstream_latency.buckets@, 8) as nat),
        ),
        reads(
            exposition(m, generation, pinned),
            "ramjet_upstream_latency_seconds_bucket{le=\""@ + "0.5"@ + "\"}"@,
            text::decimal(cumulative(m.upstream_latency.buckets@, 9) as nat),
        ),
        reads(
            exposition(m, generation, pinned),
            "ramjet_upstream_latency_seconds_bucket{le=\""@ + "1"@ + "\"}"@,
            text::decimal(cumulative(m.upstream_latency.buckets@, 10) as nat),
        ),
        reads(
            exposition(m, generation, pinned),
            "ramjet_upstream_latency_seconds_bucket{le=\""@ + "5"@ + "\"}"@,
            text::decimal(cumulative(m.upstream_latency.buckets@, 11) as nat),
        ),
        reads(
            exposition(m, generation, pinned),
            "ramjet_upstream_latency_seconds_bucket{le=\""@ + "10"@ + "\"}"@,
            text::decimal(cumulative(m.upstream_latency.buckets@, 12) as nat),
        ),
        reads(
            exposition(m, generation, pinned),
            "ramjet_upstream_latency_seconds_bucket{le=\""@ + "+Inf"@ + "\"}"@,
            text::decimal(m.upstream_latency.count as nat),
        ),
        reads(
            exposition(m, generation, pinned),
            "ramjet_upstream_latency_seconds_sum"@,
            rounding::seconds(m.upstream_latency.sum_nanos as nat),
        ),
        reads(
            exposition(m, generation, pinned),
            "ramjet_upstream_latency_seconds_count"@,
            text::decimal(m.upstream_latency.count as nat),
        ),
{
    reveal_strlit("ramjet_upstream_latency_seconds_bucket{le=\"");
    reveal_strlit("ramjet_upstream_latency_seconds_sum");
    reveal_strlit("ramjet_upstream_latency_seconds_count");
    reveal_strlit("ramjet_upstream_latency_seconds");
    reveal_strlit("_bucket{le=\"");
    reveal_strlit("_sum");
    reveal_strlit("_count");
    let name = "ramjet_upstream_latency_seconds"@;
    let bucket = "ramjet_upstream_latency_seconds_bucket{le=\""@;
    assert(bucket =~= name + "_bucket{le=\""@);
    assert("ramjet_upstream_latency_seconds_sum"@ =~= name + "_sum"@);
    assert("ramjet_upstream_latency_seconds_count"@ =~= name + "_count"@);
    let buckets = m.upstream_latency.buckets@;
    assert forall|k: int| 0 <= k < 12 implies reads(
        exposition(m, generation, pinned),
        bucket + #[trigger] BOUNDS@[k]@ + "\"}"@,
        text::decimal(cumulative(buckets, (k + 1) as nat) as nat),
    ) by {
        lemma_a_family_reads(m, generation, pinned, 1, k);
        lemma_joined_in_front(name, "_bucket{le=\""@, BOUNDS@[k]@, "\"}"@, bucket);
    }
    assert(BOUNDS@[0]@ == "0.001"@);
    assert(BOUNDS@[1]@ == "0.0025"@);
    assert(BOUNDS@[2]@ == "0.005"@);
    assert(BOUNDS@[3]@ == "0.01"@);
    assert(BOUNDS@[4]@ == "0.025"@);
    assert(BOUNDS@[5]@ == "0.05"@);
    assert(BOUNDS@[6]@ == "0.1"@);
    assert(BOUNDS@[7]@ == "0.25"@);
    assert(BOUNDS@[8]@ == "0.5"@);
    assert(BOUNDS@[9]@ == "1"@);
    assert(BOUNDS@[10]@ == "5"@);
    assert(BOUNDS@[11]@ == "10"@);
    lemma_a_family_reads(m, generation, pinned, 1, 12);
    lemma_joined_in_front(name, "_bucket{le=\""@, "+Inf"@, "\"}"@, bucket);
    lemma_a_family_reads(m, generation, pinned, 1, 13);
    lemma_a_family_reads(m, generation, pinned, 1, 14);
}

/// The bound of a line is the number of seconds on its label: one more observation
/// raises the line of every bound that it does not exceed, and no other.
pub proof fn an_observation_raises_the_lines_from_its_bound_on(
    before: Histogram,
    nanos: nat,
    after: Histogram,
)
    requires
        observed(before, nanos, after),
    ensures
        cumulative(after.buckets@, 1) == if nanos <= 1_000_000 {
            bumped(cumulative(before.buckets@, 1))
        } else {
            cumulative(before.buckets@, 1)
        },
        cumulative(after.buckets@, 2) == if nanos <= 2_500_000 {
            bumped(cumulative(before.buckets@, 2))
        } else {
            cumulative(before.buckets@, 2)
        },
        cumulative(after.buckets@, 3) == if nanos <= 5_000_000 {
            bumped(cumulative(before.buckets@, 3))
        } else {
            cumulative(before.buckets@, 3)
        },
        cumulative(after.buckets@, 4) == if nanos <= 10_000_000 {
            bumped(cumulative(before.buckets@, 4))
        } else {
            cumulative(before.buckets@, 4)
        },
        cumulative(after.buckets@, 5) == if nanos <= 25_000_000 {
            bumped(cumulative(before.buckets@, 5))
        } else {
            cumulative(before.buckets@, 5)
        },
        cumulative(after.buckets@, 6) == if nanos <= 50_000_000 {
            bumped(cumulative(before.buckets@, 6))
        } else {
            cumulative(before.buckets@, 6)
        },
        cumulative(after.buckets@, 7) == if nanos <= 100_000_000 {
            bumped(cumulative(before.buckets@, 7))
        } else {
            cumulative(before.buckets@, 7)
        },
        cumulative(after.buckets@, 8) == if nanos <= 250_000_000 {
            bumped(cumulative(before.buckets@, 8))
        } else {
            cumulative(before.buckets@, 8)
        },
        cumulative(after.buckets@, 9) == if nanos <= 500_000_000 {
            bumped(cumulative(before.buckets@, 9))
        } else {
            cumulative(before.buckets@, 9)
        },
        cumulative(after.buckets@, 10) == if nanos <= 1_000_000_000 {
            bumped(cumulative(before.buckets@, 10))
        } else {
            cumulative(before.buckets@, 10)
        },
        cumulative(after.buckets@, 11) == if nanos <= 5_000_000_000 {
            bumped(cumulative(before.buckets@, 11))
        } else {
            cumulative(before.buckets@, 11)
        },
        cumulative(after.buckets@, 12) == if nanos <= 10_000_000_000 {
            bumped(cumulative(before.buckets@, 12))
        } else {
            cumulative(before.buckets@, 12)
        },
{
    a_bound_counts_what_does_not_exceed_it(before, nanos, after, 1);
    a_bound_counts_what_does_not_exceed_it(before, nanos, after, 2);
    a_bound_counts_what_does_not_exceed_it(before, nanos, after, 3);
    a_bound_counts_what_does_not_exceed_it(before, nanos, after, 4);
    a_bound_counts_what_does_not_exceed_it(before, nanos, after, 5);
    a_bound_counts_what_does_not_exceed_it(before, nanos, after, 6);
    a_bound_counts_what_does_not_exceed_it(before, nanos, after, 7);
    a_bound_counts_what_does_not_exceed_it(before, nanos, after, 8);
    a_bound_counts_what_does_not_exceed_it(before, nanos, after, 9);
    a_bound_counts_what_does_not_exceed_it(before, nanos, after, 10);
    a_bound_counts_what_does_not_exceed_it(before, nanos, after, 11);
    a_bound_counts_what_does_not_exceed_it(before, nanos, after, 12);
}

/// A counter goes up by one for an event, and the sum of the latencies by the time
/// that was observed, until they are full.
pub proof fn an_event_adds_one(n: u64, before: Histogram, nanos: nat, after: Histogram)
    requires
        observed(before, nanos, after),
    ensures
        n < u64::MAX ==> bumped(n) == n + 1,
        bumped(u64::MAX) == 0,
        before.count < u64::MAX ==> after.count == before.count + 1,
        before.sum_nanos + nanos <= u64::MAX ==> after.sum_nanos == before.sum_nanos + nanos,
{
}

/// One counter after another: which of them a name stands for.
proof fn lemma_counts_one(before: Metrics, k: int, after: Metrics)
    requires
        0 <= k < 13,
        after.requests == before.requests,
        after.upstream_latency == before.upstream_latency,
        after.active_connections == before.active_connections,
        forall|i: int|
            0 <= i < 13 ==> (#[trigger] counters(after)[i]).2 == if i == k {
                bumped(counters(before)[i].2)
            } else {
                counters(before)[i].2
            },
    ensures
        counts_one(before, counters(before)[k].0, after),
{
    let name = counters(before)[k].0;
    assert(counters(before)[k].0 == name);
    let all = families(before, 0, false);
    assert forall|i: int| 0 <= i < 13 && i != k implies (#[trigger] counters(before)[i]).0 != name by {
        assert(all[i + 5].name == counters(before)[i].0);
        assert(all[k + 5].name == name);
        if i < k {
            every_series_is_declared_once(before, 0, false, i + 5, k + 5);
        } else {
            every_series_is_declared_once(before, 0, false, k + 5, i + 5);
        }
    }
}

} // verus!
