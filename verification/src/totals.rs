//! The counters of a route.
use vstd::prelude::*;

verus! {

/// What a route, or its canary, has served.
#[derive(Debug, Clone, Copy, PartialEq, Eq, Structural)]
pub struct RouteTotals {
    /// Responses served.
    pub requests: u64,
    /// Those of them with a status of 500 or above.
    pub errors_5xx: u64,
    /// Time spent waiting for upstream headers.
    pub upstream_latency_micros: u64,
    /// Exchanges that time was spent on.
    pub upstream_latency_count: u64,
}

/// Nothing served.
pub open spec fn nothing() -> RouteTotals {
    RouteTotals {
        requests: 0,
        errors_5xx: 0,
        upstream_latency_micros: 0,
        upstream_latency_count: 0,
    }
}

/// What is left of a counter, and nothing rather than less than nothing.
pub open spec fn rest(a: u64, b: u64) -> u64 {
    if a >= b {
        (a - b) as u64
    } else {
        0
    }
}

/// What is left of some totals when others are taken out.
pub open spec fn difference(a: RouteTotals, b: RouteTotals) -> RouteTotals {
    RouteTotals {
        requests: rest(a.requests, b.requests),
        errors_5xx: rest(a.errors_5xx, b.errors_5xx),
        upstream_latency_micros: rest(a.upstream_latency_micros, b.upstream_latency_micros),
        upstream_latency_count: rest(a.upstream_latency_count, b.upstream_latency_count),
    }
}

/// Do two totals add up within their counters?
pub open spec fn fit(a: RouteTotals, b: RouteTotals) -> bool {
    &&& a.requests + b.requests <= u64::MAX
    &&& a.errors_5xx + b.errors_5xx <= u64::MAX
    &&& a.upstream_latency_micros + b.upstream_latency_micros <= u64::MAX
    &&& a.upstream_latency_count + b.upstream_latency_count <= u64::MAX
}

/// Two totals together.
pub open spec fn sum(a: RouteTotals, b: RouteTotals) -> RouteTotals {
    RouteTotals {
        requests: (a.requests + b.requests) as u64,
        errors_5xx: (a.errors_5xx + b.errors_5xx) as u64,
        upstream_latency_micros: (a.upstream_latency_micros + b.upstream_latency_micros) as u64,
        upstream_latency_count: (a.upstream_latency_count + b.upstream_latency_count) as u64,
    }
}

impl Default for RouteTotals {
    fn default() -> (r: RouteTotals)
        ensures
            r == nothing(),
    {
        RouteTotals {
            requests: 0,
            errors_5xx: 0,
            upstream_latency_micros: 0,
            upstream_latency_count: 0,
        }
    }
}

impl RouteTotals {
    /// What is left when `other` is taken out.
    pub fn saturating_sub(&self, other: &RouteTotals) -> (r: RouteTotals)
        ensures
            r == difference(*self, *other),
    {
        RouteTotals {
            requests: self.requests.saturating_sub(other.requests),
            errors_5xx: self.errors_5xx.saturating_sub(other.errors_5xx),
            upstream_latency_micros: self.upstream_latency_micros.saturating_sub(
                other.upstream_latency_micros,
            ),
            upstream_latency_count: self.upstream_latency_count.saturating_sub(
                other.upstream_latency_count,
            ),
        }
    }

    /// Both together.
    pub fn plus(&self, other: &RouteTotals) -> (r: RouteTotals)
        requires
            fit(*self, *other),
        ensures
            r == sum(*self, *other),
    {
        RouteTotals {
            requests: self.requests + other.requests,
            errors_5xx: self.errors_5xx + other.errors_5xx,
            upstream_latency_micros: self.upstream_latency_micros + other.upstream_latency_micros,
            upstream_latency_count: self.upstream_latency_count + other.upstream_latency_count,
        }
    }
}

/// Taking out undoes putting together, counter by counter, and nothing is ever less than
/// nothing.
pub proof fn taking_out_undoes_putting_together(a: RouteTotals, b: RouteTotals)
    requires
        fit(a, b),
    ensures
        difference(sum(a, b), b) == a,
        difference(sum(a, b), a) == b,
        difference(a, sum(a, b)) == nothing(),
        sum(a, b).requests == a.requests + b.requests,
        sum(a, b).errors_5xx == a.errors_5xx + b.errors_5xx,
        sum(a, b).upstream_latency_micros == a.upstream_latency_micros + b.upstream_latency_micros,
        sum(a, b).upstream_latency_count == a.upstream_latency_count + b.upstream_latency_count,
{
}

} // verus!
