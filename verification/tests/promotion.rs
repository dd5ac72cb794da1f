//! The promotion loop: what a window of traffic decides, and what is remembered
//! between passes.
use ramjet_ingress::config::PathTypeSpec;
use ramjet_ingress::promotion::{
    decide, host_matches, idle_poll, is_finished, patch_for, read, sleep_after, AuditReason, Hold,
    ObjectKey, Promoter, PromotionAnnotations, PromotionRoute, PromotionTarget, RouteHost,
    RuleCounters, Start, Verdict, Window, ANNOTATION_AUTO_PROMOTE, ANNOTATION_AUTO_PROMOTE_STATUS,
    ANNOTATION_CANARY_WEIGHT, STATUS_PROMOTED, STATUS_ROLLED_BACK,
};
use ramjet_ingress::time::Duration;
use ramjet_ingress::totals::RouteTotals;

fn policy() -> PromotionAnnotations {
    PromotionAnnotations {
        enabled: true,
        ..PromotionAnnotations::default()
    }
}

/// A side of the window: `requests` served, `errors` of them 5xx, each
/// taking `latency_ms` upstream.
fn side(requests: u64, errors: u64, latency_ms: u64) -> RouteTotals {
    RouteTotals {
        requests,
        errors_5xx: errors,
        upstream_latency_micros: latency_ms * 1000 * requests,
        upstream_latency_count: requests,
    }
}

/// A window where both sides are healthy and identical.
fn healthy() -> Window {
    Window {
        canary: side(100, 0, 10),
        stable: side(100, 0, 10),
    }
}

#[test]
fn a_healthy_window_advances_one_step() {
    assert_eq!(
        decide(&policy(), 0, &healthy()),
        Verdict::Step { to: 5 },
        "the first pass goes to the first configured step"
    );
    assert_eq!(decide(&policy(), 5, &healthy()), Verdict::Step { to: 10 });
    assert_eq!(decide(&policy(), 25, &healthy()), Verdict::Step { to: 50 });
}

#[test]
fn a_weight_between_steps_takes_the_next_one_up() {
    // Somebody set `canary-weight: 30` by hand and then armed the loop.
    // Rounding down would be a demotion nobody asked for.
    assert_eq!(decide(&policy(), 30, &healthy()), Verdict::Step { to: 50 });
}

#[test]
fn the_last_step_promotes_rather_than_stepping() {
    assert_eq!(decide(&policy(), 100, &healthy()), Verdict::Promote);
}

/// The last step is validated before it is declared done: reaching 100%
/// and immediately calling it promoted would mean full traffic never got a
/// single window of scrutiny.
#[test]
fn the_final_weight_is_judged_before_it_is_accepted() {
    let breached = Window {
        canary: side(100, 50, 10),
        stable: side(100, 0, 10),
    };
    assert!(matches!(
        decide(&policy(), 100, &breached),
        Verdict::RollBack { .. }
    ));
}

#[test]
fn too_little_traffic_holds_rather_than_advancing_or_rolling_back() {
    // The distinction most likely to be got wrong. A canary receiving
    // nothing at 03:00 is a quiet service, not a broken one.
    let quiet = Window {
        canary: side(3, 0, 10),
        stable: side(4000, 0, 10),
    };
    assert_eq!(
        decide(&policy(), 5, &quiet),
        Verdict::Hold(Hold::LowTraffic {
            canary: 3,
            stable: 4000
        })
    );
}

#[test]
fn a_quiet_production_side_holds_too() {
    // Both sides gate, because a latency comparison against four stable
    // requests is not a comparison.
    let window = Window {
        canary: side(4000, 0, 10),
        stable: side(2, 0, 10),
    };
    assert!(matches!(
        decide(&policy(), 5, &window),
        Verdict::Hold(Hold::LowTraffic { .. })
    ));
}

#[test]
fn an_empty_window_holds_and_never_divides_by_zero() {
    assert!(matches!(
        decide(&policy(), 5, &Window::default()),
        Verdict::Hold(Hold::LowTraffic {
            canary: 0,
            stable: 0
        })
    ));
}

#[test]
fn a_window_exactly_at_the_minimum_is_evidence() {
    let at_minimum = Window {
        canary: side(50, 0, 10),
        stable: side(50, 0, 10),
    };
    assert_eq!(at_minimum.canary.requests, DEFAULT_MIN);
    assert_eq!(decide(&policy(), 5, &at_minimum), Verdict::Step { to: 10 });
}

/// `min_requests` as the annotation defaults it, spelled out so the test
/// above is checking the boundary rather than restating a literal.
const DEFAULT_MIN: u64 = 50;

#[test]
fn a_five_xx_rate_over_the_budget_rolls_back() {
    // Two of a hundred is 2%, against a default budget of 1%.
    let window = Window {
        canary: side(100, 2, 10),
        stable: side(100, 0, 10),
    };
    match decide(&policy(), 25, &window) {
        Verdict::RollBack { reason } => {
            assert!(reason.contains("5xx"), "{reason}");
            assert!(reason.contains("2.00%"), "{reason}");
            assert!(reason.contains("1.00%"), "{reason}");
        }
        other => panic!("expected a rollback, got {other:?}"),
    }
}

#[test]
fn a_five_xx_rate_exactly_at_the_budget_is_allowed() {
    // The threshold is a budget, and spending all of it is not overspending.
    let window = Window {
        canary: side(100, 1, 10),
        stable: side(100, 0, 10),
    };
    assert_eq!(decide(&policy(), 25, &window), Verdict::Step { to: 50 });
}

#[test]
fn errors_are_judged_absolutely_and_not_against_stable() {
    // Production being on fire is not a licence to promote a canary that
    // is also on fire. An error budget is an absolute number.
    let window = Window {
        canary: side(100, 5, 10),
        stable: side(100, 40, 10),
    };
    assert!(matches!(
        decide(&policy(), 25, &window),
        Verdict::RollBack { .. }
    ));
}

#[test]
fn latency_over_the_factor_rolls_back() {
    // 20ms against 10ms stable is 2.0x, over the 1.5x default.
    let window = Window {
        canary: side(100, 0, 20),
        stable: side(100, 0, 10),
    };
    match decide(&policy(), 10, &window) {
        Verdict::RollBack { reason } => {
            assert!(reason.contains("latency"), "{reason}");
            assert!(reason.contains("20.0ms"), "{reason}");
            assert!(reason.contains("15.0ms"), "{reason}");
        }
        other => panic!("expected a rollback, got {other:?}"),
    }
}

#[test]
fn latency_inside_the_factor_advances() {
    let window = Window {
        canary: side(100, 0, 14),
        stable: side(100, 0, 10),
    };
    assert_eq!(decide(&policy(), 10, &window), Verdict::Step { to: 25 });
}

#[test]
fn a_faster_canary_is_never_a_problem() {
    let window = Window {
        canary: side(100, 0, 1),
        stable: side(100, 0, 100),
    };
    assert_eq!(decide(&policy(), 10, &window), Verdict::Step { to: 25 });
}

#[test]
fn latency_is_relative_so_a_slow_service_can_still_promote() {
    // Both sides at two seconds. Absolute thresholds would make this
    // feature unusable on anything that is legitimately slow.
    let window = Window {
        canary: side(100, 0, 2000),
        stable: side(100, 0, 2000),
    };
    assert_eq!(decide(&policy(), 50, &window), Verdict::Step { to: 100 });
}

#[test]
fn the_error_gate_is_checked_before_the_latency_gate() {
    // Both breached. The 5xx reason is the more actionable one and should
    // be what the annotation ends up saying.
    let window = Window {
        canary: side(100, 50, 100),
        stable: side(100, 0, 10),
    };
    match decide(&policy(), 25, &window) {
        Verdict::RollBack { reason } => assert!(reason.starts_with("5xx"), "{reason}"),
        other => panic!("expected a rollback, got {other:?}"),
    }
}

#[test]
fn a_window_with_no_latency_observations_skips_the_latency_gate() {
    // Every request answered from inside this process — a backend with no
    // ready endpoints 503s without ever dialling upstream — has requests
    // but no latency to compare. The 5xx gate still catches it.
    let window = Window {
        canary: RouteTotals {
            requests: 100,
            errors_5xx: 0,
            upstream_latency_micros: 0,
            upstream_latency_count: 0,
        },
        stable: side(100, 0, 10),
    };
    assert_eq!(decide(&policy(), 10, &window), Verdict::Step { to: 25 });
}

#[test]
fn configured_thresholds_are_the_ones_applied() {
    let strict = PromotionAnnotations {
        enabled: true,
        steps: vec![50, 100],
        max_5xx_percent: 100_000,
        max_latency_factor: 1_050_000,
        min_requests: 10,
        ..PromotionAnnotations::default()
    };

    let window = Window {
        canary: side(1000, 5, 10),
        stable: side(1000, 0, 10),
    };
    assert!(
        matches!(decide(&strict, 0, &window), Verdict::RollBack { .. }),
        "0.5% must breach a 0.1% budget"
    );

    let clean = Window {
        canary: side(20, 0, 10),
        stable: side(20, 0, 10),
    };
    assert_eq!(
        decide(&strict, 0, &clean),
        Verdict::Step { to: 50 },
        "a lowered min-requests must let a small window count"
    );
    assert_eq!(
        decide(&strict, 50, &clean),
        Verdict::Step { to: 100 },
        "a two-step ladder still has to be walked one rung at a time"
    );
    assert_eq!(decide(&strict, 100, &clean), Verdict::Promote);
}

#[test]
fn hosts_are_matched_in_the_spelling_the_controller_used() {
    // The table stores `*.example.com` under `example.com`, so a comparison
    // that forgot the wildcard would silently find no counters and hold
    // forever — which looks exactly like a quiet route.
    assert!(host_matches(&RouteHost::Exact("app.example.com".to_owned()), "app.example.com"));
    assert!(!host_matches(&RouteHost::Exact("app.example.com".to_owned()), "other.example.com"));

    assert!(host_matches(&RouteHost::Wildcard("example.com".to_owned()), "*.example.com"));
    assert!(
        !host_matches(&RouteHost::Wildcard("example.com".to_owned()), "example.com"),
        "the parent domain is not the name the table serves"
    );

    assert!(host_matches(&RouteHost::CatchAll, "*"));
    assert!(!host_matches(&RouteHost::CatchAll, "example.com"));
}

#[test]
fn the_flap_guard_reads_both_terminal_states() {
    let mut rolled = policy();
    rolled.status = Some("rolled-back: 5xx 9.0% over 1.00%".to_owned());
    assert!(is_finished(&rolled));

    let mut promoted = policy();
    promoted.status = Some(STATUS_PROMOTED.to_owned());
    assert!(is_finished(&promoted));

    assert!(!is_finished(&policy()), "an armed canary is not finished");
}

// ---------------------------------------------------------------------------
// The loop
// ---------------------------------------------------------------------------

/// One patch that was applied: which Ingress, and which annotations.
type Call = (String, Vec<(String, String)>);

/// A promoter over one route's counters, with a cluster that records what would
/// have been patched and can be told to fail.
struct Bench {
    promoter: Promoter,
    rules: Vec<RuleCounters>,
    calls: Vec<Call>,
    pinned: bool,
    fail: bool,
}

impl Bench {
    fn new() -> Bench {
        Bench {
            promoter: Promoter::new(),
            rules: vec![RuleCounters {
                host: RouteHost::Exact("app.example.com".to_owned()),
                path: "/".to_owned(),
                path_type: PathTypeSpec::Prefix,
                counters: Some((RouteTotals::default(), RouteTotals::default())),
            }],
            calls: Vec::new(),
            pinned: false,
            fail: false,
        }
    }

    /// Serves `stable` clean requests and `canary` requests of which
    /// `canary_errors` were 5xx, each taking `latency_ms`.
    fn serve(&mut self, stable: u64, canary: u64, canary_errors: u64, latency_ms: u64) {
        let (totals, part) = self.rules[0].counters.expect("a counter block");
        let served = RouteTotals {
            requests: canary,
            errors_5xx: canary_errors,
            upstream_latency_micros: canary * latency_ms * 1000,
            upstream_latency_count: canary,
        };
        // Both blocks, which is the invariant the split rests on.
        let totals = totals.plus(&side(stable, 0, 10)).plus(&served);
        self.rules[0].counters = Some((totals, part.plus(&served)));
    }

    fn pass(&mut self, targets: Vec<PromotionTarget>, seconds: u64) {
        match self.promoter.start(&targets, self.pinned) {
            Start::Paused | Start::StillPaused => return,
            Start::Resumed | Start::Ready => {}
        }
        let now = Duration::from_secs(1_000_000 + seconds);
        for target in &targets {
            if !self.promoter.consider(target, now, idle_poll()).0 {
                continue;
            }
            let reading = read(&self.rules, &target.routes);
            let Some((_, verdict)) = self.promoter.evaluate(target, reading) else {
                continue;
            };
            let Some(patch) = patch_for(target.weight, &verdict) else {
                continue;
            };
            if !self.fail {
                let annotations = patch
                    .annotations
                    .into_iter()
                    .map(|(name, value)| (name.to_owned(), value))
                    .collect();
                self.calls.push((target.ingress.to_text(), annotations));
            }
            self.promoter.settle(target, &verdict, !self.fail);
        }
    }
}

fn ingress() -> ObjectKey {
    ObjectKey { namespace: "prod".to_owned(), name: "web-canary".to_owned() }
}

fn target(weight: u32) -> PromotionTarget {
    PromotionTarget {
        ingress: ingress(),
        uid: Some("3f2b1c0d-0000-4000-8000-000000000001".to_owned()),
        routes: vec![PromotionRoute {
            host: "app.example.com".to_owned(),
            path: "/".to_owned(),
            path_type: PathTypeSpec::Prefix,
        }],
        weight,
        policy: policy(),
    }
}

#[test]
fn the_first_pass_only_takes_a_baseline() {
    // There is no earlier reading to subtract, so a first pass that decided
    // anything would be deciding on the whole lifetime of the process.
    let mut bench = Bench::new();
    bench.serve(1000, 1000, 900, 10);

    bench.pass(vec![target(5)], 0);
    assert!(
        bench.calls.is_empty(),
        "a first sighting must not act, however bad the lifetime numbers look"
    );
}

#[test]
fn a_healthy_window_steps_the_weight_annotation() {
    let mut bench = Bench::new();
    bench.pass(vec![target(5)], 0);
    bench.serve(200, 200, 0, 10);
    bench.pass(vec![target(5)], 60);

    assert_eq!(
        bench.calls,
        vec![(
            "prod/web-canary".to_owned(),
            vec![(ANNOTATION_CANARY_WEIGHT.to_owned(), "10".to_owned())]
        )]
    );
}

#[test]
fn a_breach_zeroes_the_weight_and_disarms_in_one_patch() {
    let mut bench = Bench::new();
    bench.pass(vec![target(25)], 0);
    // 20% of the canary's requests failed, against a 1% budget.
    bench.serve(200, 200, 40, 10);
    bench.pass(vec![target(25)], 60);

    let calls = &bench.calls;
    assert_eq!(calls.len(), 1);
    let keys: Vec<&str> = calls[0].1.iter().map(|(k, _)| k.as_str()).collect();
    assert_eq!(
        keys,
        vec![
            ANNOTATION_CANARY_WEIGHT,
            ANNOTATION_AUTO_PROMOTE,
            ANNOTATION_AUTO_PROMOTE_STATUS
        ],
        "one patch, or a half-applied rollback leaves traffic on a broken backend"
    );
    assert_eq!(calls[0].1[0].1, "0");
    assert_eq!(calls[0].1[1].1, "false");
    assert!(calls[0].1[2].1.starts_with(STATUS_ROLLED_BACK));
    assert!(calls[0].1[2].1.contains("5xx"), "{:?}", calls[0].1[2].1);
}

#[test]
fn a_rolled_back_canary_is_never_touched_again() {
    // The flap guard. Without it the next healthy window steps the weight
    // straight back up and traffic oscillates across a broken backend.
    let mut bench = Bench::new();
    bench.pass(vec![target(25)], 0);
    bench.serve(200, 200, 40, 10);
    bench.pass(vec![target(25)], 60);
    assert_eq!(bench.calls.len(), 1);

    // The cluster has not caught up yet, so the target still looks armed.
    bench.serve(200, 200, 0, 10);
    bench.pass(vec![target(25)], 120);
    assert_eq!(
        bench.calls.len(),
        1,
        "an in-memory guard has to cover the gap before the watch comes round"
    );

    // And once it has, the annotation carries the guard across a restart.
    let rolled = || {
        let mut rolled = target(0);
        rolled.policy.status = Some("rolled-back: 5xx 20.00% over 1.00%".to_owned());
        rolled
    };
    bench.promoter = Promoter::new();
    bench.pass(vec![rolled()], 0);
    bench.serve(200, 200, 0, 10);
    bench.pass(vec![rolled()], 60);
    assert_eq!(bench.calls.len(), 1, "a restart must not re-arm it");
}

#[test]
fn the_last_step_writes_promoted_and_stops() {
    let mut bench = Bench::new();
    bench.pass(vec![target(100)], 0);
    bench.serve(200, 200, 0, 10);
    bench.pass(vec![target(100)], 60);

    assert_eq!(
        bench.calls[0].1,
        vec![(
            ANNOTATION_AUTO_PROMOTE_STATUS.to_owned(),
            STATUS_PROMOTED.to_owned()
        )],
        "promotion writes only the status; auto-promote is the operator's annotation"
    );

    let before = bench.calls.len();
    bench.serve(200, 200, 0, 10);
    bench.pass(vec![target(100)], 120);
    assert_eq!(before, bench.calls.len(), "promotion is terminal");
}

#[test]
fn a_rollback_pin_pauses_everything() {
    // An operator holding the emergency brake has taken manual control of
    // what this replica serves; patching Ingresses underneath them would be
    // changing the cluster they are trying to hold still.
    let mut bench = Bench::new();
    bench.pass(vec![target(5)], 0);
    bench.serve(200, 200, 0, 10);

    bench.pinned = true;
    bench.pass(vec![target(5)], 60);
    assert!(bench.calls.is_empty(), "a pin must pause promotion");

    bench.pinned = false;
    bench.pass(vec![target(5)], 120);
    assert_eq!(bench.calls.len(), 1, "releasing it resumes");
}

#[test]
fn a_target_is_not_evaluated_before_its_interval_elapses() {
    let mut bench = Bench::new();
    bench.pass(vec![target(5)], 0);
    bench.serve(200, 200, 0, 10);

    bench.pass(vec![target(5)], 30);
    assert!(bench.calls.is_empty(), "the interval is 60s by default");

    bench.pass(vec![target(5)], 61);
    assert_eq!(bench.calls.len(), 1);
}

#[test]
fn a_failed_patch_is_retried_by_the_next_pass() {
    // Not retried in place: if the patch actually landed and only the
    // response was lost, recomputing from the cluster's current state is
    // the only safe thing to do.
    let mut bench = Bench::new();
    bench.fail = true;
    bench.pass(vec![target(100)], 0);
    bench.serve(200, 200, 0, 10);
    bench.pass(vec![target(100)], 60);

    // The verdict was `Promote`, but the patch failed, so the canary must
    // not have been marked finished.
    assert!(!bench.promoter.recall(&ingress()).finished);
}

#[test]
fn a_canary_whose_routes_are_not_in_the_table_is_skipped() {
    let mut bench = Bench::new();
    let mut elsewhere = target(5);
    elsewhere.routes = vec![PromotionRoute {
        host: "nobody.example.com".to_owned(),
        path: "/".to_owned(),
        path_type: PathTypeSpec::Prefix,
    }];

    bench.pass(vec![elsewhere], 0);
    assert!(bench.promoter.recall(&ingress()).baseline.is_none(), "no counters, no baseline");
    assert!(bench.calls.is_empty());
}

#[test]
fn baselines_are_forgotten_when_a_canary_goes_away() {
    // A process that runs for months must not accumulate one entry per
    // Ingress that ever existed.
    let mut bench = Bench::new();
    bench.pass(vec![target(5)], 0);
    assert!(bench.promoter.recall(&ingress()).baseline.is_some());

    bench.pass(vec![], 60);
    let memory = bench.promoter.recall(&ingress());
    assert!(memory.baseline.is_none());
    assert!(memory.due.is_none());
}

#[test]
fn a_window_measures_the_interval_and_not_the_lifetime() {
    // The property the whole design rests on. A process up for a week with
    // a clean history must still catch a canary that started failing a
    // minute ago.
    let mut bench = Bench::new();

    // A week of clean traffic.
    bench.serve(100_000, 100_000, 0, 10);
    bench.pass(vec![target(25)], 0);

    // Then one bad minute.
    bench.serve(200, 200, 100, 10);
    bench.pass(vec![target(25)], 60);

    assert_eq!(bench.calls.len(), 1);
    assert_eq!(
        bench.calls[0].1[0].1, "0",
        "a lifetime average would have buried this window entirely"
    );
}

#[test]
fn a_verdict_is_audited_with_its_weights() {
    let step = patch_for(5, &Verdict::Step { to: 10 }).expect("a patch");
    assert_eq!((step.reason, step.to_weight), (AuditReason::CanaryStepped, 10));
    let promote = patch_for(100, &Verdict::Promote).expect("a patch");
    assert_eq!((promote.reason, promote.to_weight), (AuditReason::CanaryPromoted, 100));
    let rollback = Verdict::RollBack { reason: "5xx".to_owned() };
    let rollback = patch_for(25, &rollback).expect("a patch");
    assert_eq!((rollback.reason, rollback.to_weight), (AuditReason::CanaryRolledBack, 0));
    let quiet = Verdict::Hold(Hold::LowTraffic { canary: 0, stable: 0 });
    assert!(patch_for(25, &quiet).is_none());
}

#[test]
fn the_loop_never_spins() {
    assert_eq!(sleep_after(Duration::from_millis(1)), Duration::from_secs(1));
    assert_eq!(sleep_after(Duration::from_secs(7)), Duration::from_secs(7));
    assert_eq!(idle_poll(), Duration::from_secs(30));
}

/// What a rollback says, worked out in floating point.
fn expected_reason(policy: &PromotionAnnotations, window: &Window) -> Option<String> {
    let exact = |n: u128, d: u128| n as f64 / d as f64;
    let budget = exact(u128::from(policy.max_5xx_percent), 1_000_000);
    let factor = exact(u128::from(policy.max_latency_factor), 1_000_000);
    let mean = |side: &RouteTotals| {
        exact(
            u128::from(side.upstream_latency_micros),
            u128::from(side.upstream_latency_count) * 1000,
        )
    };
    let share =
        exact(u128::from(window.canary.errors_5xx) * 100, u128::from(window.canary.requests));
    if share > budget {
        return Some(format!("5xx {share:.2}% over {budget:.2}%"));
    }
    let (canary, stable) = (mean(&window.canary), mean(&window.stable));
    let ceiling = stable * factor;
    if canary > ceiling {
        return Some(format!("latency {canary:.1}ms over {ceiling:.1}ms ({stable:.1}ms x {factor:.2})"));
    }
    None
}

#[test]
fn a_reason_shows_what_a_double_would_show() {
    // 1.015 and 10.05 lie just beside what their decimals say.
    let strict = PromotionAnnotations { max_5xx_percent: 1_015_000, ..policy() };
    let window = Window { canary: side(100, 2, 10), stable: side(100, 0, 10) };
    assert_eq!(
        decide(&strict, 25, &window),
        Verdict::RollBack { reason: "5xx 2.00% over 1.01%".to_owned() }
    );
    let mut slow = Window { canary: side(100, 0, 10), stable: side(100, 0, 5) };
    slow.canary.upstream_latency_micros = 1_005_000;
    assert_eq!(
        decide(&policy(), 25, &slow),
        Verdict::RollBack { reason: "latency 10.1ms over 7.5ms (5.0ms x 1.50)".to_owned() }
    );
    let many = Window { canary: side(20_000, 203, 10), stable: side(100, 0, 10) };
    assert_eq!(
        decide(&policy(), 25, &many),
        Verdict::RollBack { reason: "5xx 1.01% over 1.00%".to_owned() }
    );

    let mut state: u64 = 0x9E37_79B9_7F4A_7C15;
    let mut draw = |bound: u64| {
        state ^= state << 13;
        state ^= state >> 7;
        state ^= state << 17;
        state % bound
    };
    let mut told = 0;
    for round in 0..2000 {
        let requests = 50 + draw(100_000);
        let policy = PromotionAnnotations {
            max_5xx_percent: draw(40) * 250_000 + 5_000 * draw(2),
            max_latency_factor: 1_000_000 + 5_000 * draw(300),
            ..policy()
        };
        let errors = if round % 2 == 0 { draw(requests) } else { 0 };
        let mut window = Window { canary: side(requests, errors, 1), stable: side(requests, 0, 1) };
        window.canary.upstream_latency_micros = 50 * draw(1_000_000_000);
        window.stable.upstream_latency_micros = 50 * draw(100_000_000);
        if let (Verdict::RollBack { reason }, Some(expected)) =
            (decide(&policy, 5, &window), expected_reason(&policy, &window))
        {
            assert_eq!(reason, expected);
            told += 1;
        }
    }
    assert!(told > 500, "{told}");
}

#[test]
fn the_largest_counts_are_shown_too() {
    let loose = PromotionAnnotations { max_latency_factor: u64::MAX, ..policy() };
    let none = PromotionAnnotations { max_latency_factor: 0, ..policy() };
    let far = RouteTotals {
        requests: 1_000,
        errors_5xx: 0,
        upstream_latency_micros: u64::MAX,
        upstream_latency_count: 1,
    };
    let near = RouteTotals { upstream_latency_micros: 1, upstream_latency_count: u64::MAX, ..far };
    let failing = RouteTotals { requests: 50, errors_5xx: u64::MAX, ..far };
    for (policy, window) in [
        (&none, Window { canary: far, stable: near }),
        (&loose, Window { canary: far, stable: near }),
        (&none, Window { canary: far, stable: far }),
        (&loose, Window { canary: failing, stable: far }),
    ] {
        match decide(policy, 5, &window) {
            Verdict::RollBack { reason } => {
                assert_eq!(Some(reason), expected_reason(policy, &window));
            }
            other => panic!("expected a rollback, got {other:?}"),
        }
    }
}
