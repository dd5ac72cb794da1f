//! Canary auto-promotion: stepping a canary's weight up on evidence, and pulling
//! it to zero on the first sign that the evidence has turned.
//!
//! Every interval, for each opted-in canary, the window of that interval is
//! judged, for the canary side and the stable side separately. Too few requests
//! on either side hold: no traffic is no evidence of anything. A canary with too
//! many errors, or too slow next to what it replaces, is rolled back: its weight
//! goes to zero and it is disarmed. Otherwise its weight takes the next step, or
//! it is promoted when there is none.
//!
//! Windows, not lifetimes: each pass subtracts the reading of the one before, so
//! a canary that starts failing shows a bad window however clean the week before
//! it was. A rollback is one-way: re-arming is a human decision.
use vstd::prelude::*;
use crate::config::PathTypeSpec;
use crate::rounding;
use crate::rounding::{product_exceeds, Double};
use crate::text;
use crate::text::{
    copy_range, has_prefix, push_decimal, push_text, same_chars, same_text, to_chars,
};
use crate::time::Duration;
use crate::totals;
use crate::totals::RouteTotals;

verus! {

/// The annotation with a canary's weight.
pub const ANNOTATION_CANARY_WEIGHT: &'static str = "nginx.ingress.kubernetes.io/canary-weight";

/// The annotation that arms this loop.
pub const ANNOTATION_AUTO_PROMOTE: &'static str = "ramjet.dev/auto-promote";

/// The annotation that says how it ended.
pub const ANNOTATION_AUTO_PROMOTE_STATUS: &'static str = "ramjet.dev/auto-promote-status";

/// The status of a canary that carries all of the traffic.
pub const STATUS_PROMOTED: &'static str = "promoted";

/// The status of a canary that was rolled back begins with this.
pub const STATUS_ROLLED_BACK: &'static str = "rolled-back";

/// Nanoseconds the loop sleeps while a rollback pin is holding it.
pub const IDLE_POLL_NANOS: u64 = 30_000_000_000;

/// Shortest gap between passes in nanoseconds, whatever the annotations ask for.
pub const MIN_TICK_NANOS: u64 = 1_000_000_000;

/// What an Ingress's annotations ask of this loop.
#[derive(Debug)]
pub struct PromotionAnnotations {
    /// Whether the loop is armed.
    pub enabled: bool,
    /// The weights to walk.
    pub steps: Vec<u32>,
    /// The canary's error budget, in millionths of a percent.
    pub max_5xx_percent: u64,
    /// The canary's mean latency next to the stable side's, in millionths.
    pub max_latency_factor: u64,
    /// Requests a side must have seen for a window to mean anything.
    pub min_requests: u64,
    /// The observation window.
    pub interval: Duration,
    /// How it ended, if it did.
    pub status: Option<String>,
}

impl Default for PromotionAnnotations {
    fn default() -> (r: PromotionAnnotations)
        ensures
            !r.enabled,
            r.steps@ == seq![5u32, 10u32, 25u32, 50u32, 100u32],
            r.max_5xx_percent == 1_000_000,
            r.max_latency_factor == 1_500_000,
            r.min_requests == 50,
            r.interval@ == 60_000_000_000,
            r.status is None,
    {
        let mut steps: Vec<u32> = Vec::new();
        steps.push(5);
        steps.push(10);
        steps.push(25);
        steps.push(50);
        steps.push(100);
        assert(steps@ =~= seq![5u32, 10u32, 25u32, 50u32, 100u32]);
        PromotionAnnotations {
            enabled: false,
            steps,
            max_5xx_percent: 1_000_000,
            max_latency_factor: 1_500_000,
            min_requests: 50,
            interval: Duration::from_secs(60),
            status: None,
        }
    }
}

/// One interval's traffic, both sides of the split.
#[derive(Debug, Clone, Copy, PartialEq, Eq, Structural)]
pub struct Window {
    /// What the canary backend served this interval.
    pub canary: RouteTotals,
    /// What the production backend served this interval.
    pub stable: RouteTotals,
}

impl Default for Window {
    fn default() -> (r: Window)
        ensures
            r == (Window { canary: totals::nothing(), stable: totals::nothing() }),
    {
        Window { canary: RouteTotals::default(), stable: RouteTotals::default() }
    }
}

/// Why a pass did nothing.
#[derive(Debug, Clone, Copy, PartialEq, Eq, Structural)]
pub enum Hold {
    /// One or both sides saw too little traffic for the window to mean anything.
    /// Not a failure: a canary without requests at night is a quiet service.
    LowTraffic {
        /// Requests the canary saw.
        canary: u64,
        /// Requests the stable side saw.
        stable: u64,
    },
}

/// What one pass decided for one canary.
#[derive(Debug, Clone, PartialEq, Eq)]
pub enum Verdict {
    /// Do nothing, for the stated reason.
    Hold(Hold),
    /// Advance to a higher weight.
    Step { to: u32 },
    /// The last step is healthy; the canary is carrying all of the traffic.
    Promote,
    /// A gate was breached. Weight to zero, and disarm.
    RollBack { reason: String },
}

/// A verdict without its storage.
pub enum VerdictView {
    Hold(Hold),
    Step { to: u32 },
    Promote,
    RollBack { reason: Seq<char> },
}

impl View for Verdict {
    type V = VerdictView;

    open spec fn view(&self) -> VerdictView {
        match *self {
            Verdict::Hold(hold) => VerdictView::Hold(hold),
            Verdict::Step { to } => VerdictView::Step { to },
            Verdict::Promote => VerdictView::Promote,
            Verdict::RollBack { reason } => VerdictView::RollBack { reason: reason@ },
        }
    }
}

// ---------------------------------------------------------------------------
// The gates
// ---------------------------------------------------------------------------
// The gates compare the counts exactly. What they say of a breach is rounded twice,
// to a double and then to the decimals shown.

/// Did either side see too little to be judged?
pub open spec fn too_quiet(policy: PromotionAnnotations, window: Window) -> bool {
    window.canary.requests < policy.min_requests || window.stable.requests < policy.min_requests
}

/// Is the canary's share of errors over its budget?
pub open spec fn over_errors(policy: PromotionAnnotations, window: Window) -> bool {
    window.canary.requests > 0 && window.canary.errors_5xx * 100_000_000 > policy.max_5xx_percent
        * window.canary.requests
}

/// Is the canary's mean latency over its ceiling? Only asked where both sides
/// have latencies to compare.
pub open spec fn over_latency(policy: PromotionAnnotations, window: Window) -> bool {
    &&& window.canary.upstream_latency_count > 0
    &&& window.stable.upstream_latency_count > 0
    &&& (window.canary.upstream_latency_micros * window.stable.upstream_latency_count) * 1_000_000
        > (window.stable.upstream_latency_micros * window.canary.upstream_latency_count)
        * policy.max_latency_factor
}

/// The canary's share of errors in percent, as a double.
pub open spec fn error_percent(side: RouteTotals) -> rounding::DoubleView {
    rounding::quotient((side.errors_5xx * 100) as nat, side.requests as nat)
}

/// A mean latency in milliseconds, as a double.
pub open spec fn mean_ms(side: RouteTotals) -> rounding::DoubleView {
    rounding::quotient(
        side.upstream_latency_micros as nat,
        (side.upstream_latency_count * 1000) as nat,
    )
}

/// A number of millionths, as a double.
pub open spec fn from_millionths(n: u64) -> rounding::DoubleView {
    rounding::quotient(n as nat, 1_000_000)
}

/// Why a canary's errors roll it back: their share and the budget, in percent.
pub open spec fn error_reason(policy: PromotionAnnotations, window: Window) -> Seq<char> {
    "5xx "@ + rounding::shown(error_percent(window.canary), 2) + "% over "@ + rounding::shown(
        from_millionths(policy.max_5xx_percent),
        2,
    ) + "%"@
}

/// Why a canary's latency rolls it back: its mean, the ceiling, and what the
/// ceiling was made of, in milliseconds.
pub open spec fn latency_reason(policy: PromotionAnnotations, window: Window) -> Seq<char> {
    let stable = mean_ms(window.stable);
    let factor = from_millionths(policy.max_latency_factor);
    "latency "@ + rounding::shown(mean_ms(window.canary), 1) + "ms over "@ + rounding::shown(
        rounding::product(stable, factor),
        1,
    ) + "ms ("@ + rounding::shown(stable, 1) + "ms x "@ + rounding::shown(factor, 2) + ")"@
}

/// The first step above a weight, from place `i` on.
pub open spec fn step_above(steps: Seq<u32>, weight: u32, i: int) -> Option<u32>
    decreases steps.len() - i,
{
    if i >= steps.len() {
        None
    } else if steps[i] > weight {
        Some(steps[i])
    } else {
        step_above(steps, weight, i + 1)
    }
}

/// What one window decides for one canary.
pub open spec fn judged(policy: PromotionAnnotations, weight: u32, window: Window) -> VerdictView {
    if too_quiet(policy, window) {
        VerdictView::Hold(
            Hold::LowTraffic { canary: window.canary.requests, stable: window.stable.requests },
        )
    } else if over_errors(policy, window) {
        VerdictView::RollBack { reason: error_reason(policy, window) }
    } else if over_latency(policy, window) {
        VerdictView::RollBack { reason: latency_reason(policy, window) }
    } else {
        match step_above(policy.steps@, weight, 0) {
            Some(to) => VerdictView::Step { to },
            None => VerdictView::Promote,
        }
    }
}

impl PromotionAnnotations {
    /// The first step above a weight, if there is one. A weight between two steps
    /// takes the one above.
    pub fn next_step(&self, weight: u32) -> (r: Option<u32>)
        ensures
            r == step_above(self.steps@, weight, 0),
    {
        let mut i: usize = 0;
        while i < self.steps.len()
            invariant
                i <= self.steps@.len(),
                step_above(self.steps@, weight, 0) == step_above(self.steps@, weight, i as int),
            decreases self.steps@.len() - i,
        {
            if self.steps[i] > weight {
                return Some(self.steps[i]);
            }
            i = i + 1;
        }
        None
    }
}

fn write_error_reason(policy: &PromotionAnnotations, window: &Window) -> (r: String)
    requires
        window.canary.requests > 0,
    ensures
        r@ == error_reason(*policy, *window),
{
    let mut out = String::new();
    push_text(&mut out, "5xx ");
    let share = Double::quotient(
        window.canary.errors_5xx as u128 * 100,
        window.canary.requests as u128,
    );
    share.push_shown(&mut out, 2);
    push_text(&mut out, "% over ");
    let budget = millionths(policy.max_5xx_percent);
    budget.push_shown(&mut out, 2);
    push_text(&mut out, "%");
    assert(out@ =~= error_reason(*policy, *window));
    out
}

fn mean(side: &RouteTotals) -> (r: Double)
    requires
        side.upstream_latency_count > 0,
    ensures
        r@ == mean_ms(*side),
        r@.mantissa <= rounding::EXACT,
        -126 <= r@.exponent <= 2,
{
    proof {
        vstd::arithmetic::power2::lemma2_to64();
        let d = (side.upstream_latency_count * 1000) as nat;
        assert(side.upstream_latency_micros < rounding::EXACT * d * 4);
        rounding::lemma_exponent_is_at_most(side.upstream_latency_micros as nat, d, 2);
    }
    Double::quotient(
        side.upstream_latency_micros as u128,
        side.upstream_latency_count as u128 * 1000,
    )
}

fn millionths(n: u64) -> (r: Double)
    ensures
        r@ == from_millionths(n),
        r@.mantissa <= rounding::EXACT,
        -126 <= r@.exponent <= 0,
{
    proof {
        vstd::arithmetic::power2::lemma2_to64();
        rounding::lemma_exponent_is_at_most(n as nat, 1_000_000, 0);
    }
    Double::quotient(n as u128, 1_000_000)
}

fn times(a: u64, b: u64) -> (r: u128)
    ensures
        r == a * b,
{
    assert(a * b <= 0xffff_ffff_ffff_ffff * 0xffff_ffff_ffff_ffff) by (nonlinear_arith)
        requires
            a <= 0xffff_ffff_ffff_ffff,
            b <= 0xffff_ffff_ffff_ffff,
    ;
    a as u128 * b as u128
}

fn write_latency_reason(policy: &PromotionAnnotations, window: &Window) -> (r: String)
    requires
        window.canary.upstream_latency_count > 0,
        window.stable.upstream_latency_count > 0,
    ensures
        r@ == latency_reason(*policy, *window),
{
    let canary = mean(&window.canary);
    let stable = mean(&window.stable);
    let factor = millionths(policy.max_latency_factor);
    let ceiling = stable.product(factor);
    let mut out = String::new();
    push_text(&mut out, "latency ");
    canary.push_shown(&mut out, 1);
    push_text(&mut out, "ms over ");
    ceiling.push_shown(&mut out, 1);
    push_text(&mut out, "ms (");
    stable.push_shown(&mut out, 1);
    push_text(&mut out, "ms x ");
    factor.push_shown(&mut out, 2);
    push_text(&mut out, ")");
    assert(out@ =~= latency_reason(*policy, *window));
    out
}

/// Decides what to do with one canary, given one window.
///
/// The traffic gate comes first: one unlucky request must neither promote nor
/// roll back. The error budget is absolute, and the latency is judged next to
/// what the canary replaces.
pub fn decide(policy: &PromotionAnnotations, weight: u32, window: &Window) -> (r: Verdict)
    ensures
        r@ == judged(*policy, weight, *window),
{
    if window.canary.requests < policy.min_requests || window.stable.requests < policy.min_requests {
        return Verdict::Hold(
            Hold::LowTraffic { canary: window.canary.requests, stable: window.stable.requests },
        );
    }
    if window.canary.requests > 0 && window.canary.errors_5xx as u128 * 100_000_000 > times(
        policy.max_5xx_percent,
        window.canary.requests,
    ) {
        return Verdict::RollBack { reason: write_error_reason(policy, window) };
    }
    if window.canary.upstream_latency_count > 0 && window.stable.upstream_latency_count > 0
        && product_exceeds(
        times(window.canary.upstream_latency_micros, window.stable.upstream_latency_count),
        1_000_000,
        times(window.stable.upstream_latency_micros, window.canary.upstream_latency_count),
        policy.max_latency_factor,
    ) {
        return Verdict::RollBack { reason: write_latency_reason(policy, window) };
    }
    match policy.next_step(weight) {
        Some(to) => Verdict::Step { to },
        None => Verdict::Promote,
    }
}

/// Does a status say that the canary is finished, one way or the other?
pub open spec fn is_final(status: Seq<char>) -> bool {
    text::starts_with(status, STATUS_ROLLED_BACK@) || status == STATUS_PROMOTED@
}

/// Is a canary finished, by its annotation?
pub open spec fn finished(policy: PromotionAnnotations) -> bool {
    policy.status matches Some(status) && is_final(status@)
}

/// Whether this canary is finished, one way or the other. Read off the
/// annotation, because the guard has to survive a restart.
pub fn is_finished(policy: &PromotionAnnotations) -> (r: bool)
    ensures
        r == finished(*policy),
{
    match &policy.status {
        Some(status) => {
            let chars = to_chars(status.as_str());
            let rolled = to_chars(STATUS_ROLLED_BACK);
            has_prefix(chars.as_slice(), rolled.as_slice()) || same_text(
                status.as_str(),
                STATUS_PROMOTED,
            )
        },
        None => false,
    }
}

// ---------------------------------------------------------------------------
// What is read
// ---------------------------------------------------------------------------

/// A host of the serving table. A wildcard is kept under its parent domain.
#[derive(Debug)]
pub enum RouteHost {
    Exact(String),
    Wildcard(String),
    CatchAll,
}

/// Whether a host of the table is the one a promotion target named. The target
/// names a wildcard the way it is displayed.
pub open spec fn same_host(host: RouteHost, wanted: Seq<char>) -> bool {
    match host {
        RouteHost::Exact(name) => wanted == name@,
        RouteHost::Wildcard(parent) => text::starts_with(wanted, "*."@) && wanted.skip(2) == parent@,
        RouteHost::CatchAll => wanted == "*"@,
    }
}

/// Whether a host of the table is the one a promotion target named.
pub fn host_matches(host: &RouteHost, wanted: &str) -> (r: bool)
    ensures
        r == same_host(*host, wanted@),
{
    match host {
        RouteHost::Exact(name) => same_text(wanted, name.as_str()),
        RouteHost::Wildcard(parent) => {
            let chars = to_chars(wanted);
            let prefix = to_chars("*.");
            proof {
                reveal_strlit("*.");
            }
            if !has_prefix(chars.as_slice(), prefix.as_slice()) {
                return false;
            }
            let rest = copy_range(chars.as_slice(), 2, chars.len());
            assert(rest@ =~= wanted@.skip(2));
            let parent_chars = to_chars(parent.as_str());
            same_chars(rest.as_slice(), parent_chars.as_slice())
        },
        RouteHost::CatchAll => same_text(wanted, "*"),
    }
}

/// A route a canary shadows.
#[derive(Debug)]
pub struct PromotionRoute {
    pub host: String,
    pub path: String,
    pub path_type: PathTypeSpec,
}

/// A rule of the serving table with its totals and those of its canary, which are
/// a part of them.
#[derive(Debug)]
pub struct RuleCounters {
    pub host: RouteHost,
    pub path: String,
    pub path_type: PathTypeSpec,
    pub counters: Option<(RouteTotals, RouteTotals)>,
}

/// Counters as of the end of a pass: all of them, and the canary's part.
#[derive(Debug, Clone, Copy, PartialEq, Eq, Structural)]
pub struct Baseline {
    pub totals: RouteTotals,
    pub canary: RouteTotals,
}

/// Is a rule one of the routes?
pub open spec fn is_wanted(rule: RuleCounters, routes: Seq<PromotionRoute>) -> bool {
    exists|i: int|
        0 <= i < routes.len() && same_host(rule.host, (#[trigger] routes[i]).host@)
            && routes[i].path@ == rule.path@ && routes[i].path_type == rule.path_type
}

/// Is a rule counted for the routes?
pub open spec fn is_counted(rule: RuleCounters, routes: Seq<PromotionRoute>) -> bool {
    is_wanted(rule, routes) && rule.counters is Some
}

/// The counters of the first `n` rules that are counted, together.
pub open spec fn read_sum(rules: Seq<RuleCounters>, routes: Seq<PromotionRoute>, n: int) -> Baseline
    decreases n,
{
    if n <= 0 {
        Baseline { totals: totals::nothing(), canary: totals::nothing() }
    } else {
        let before = read_sum(rules, routes, n - 1);
        if is_counted(rules[n - 1], routes) {
            let (all, canary) = rules[n - 1].counters->0;
            Baseline {
                totals: totals::sum(before.totals, all),
                canary: totals::sum(before.canary, canary),
            }
        } else {
            before
        }
    }
}

/// Do the counters of the first `n` rules add up within 64 bits?
pub open spec fn sums_fit(rules: Seq<RuleCounters>, routes: Seq<PromotionRoute>, n: int) -> bool
    decreases n,
{
    n <= 0 || {
        let before = read_sum(rules, routes, n - 1);
        &&& sums_fit(rules, routes, n - 1)
        &&& is_counted(rules[n - 1], routes) ==> {
            let (all, canary) = rules[n - 1].counters->0;
            totals::fit(before.totals, all) && totals::fit(before.canary, canary)
        }
    }
}

/// The counters of every route a canary shadows, together, when the table has any
/// of them.
pub open spec fn reading(rules: Seq<RuleCounters>, routes: Seq<PromotionRoute>) -> Option<Baseline> {
    if exists|i: int| 0 <= i < rules.len() && is_counted(#[trigger] rules[i], routes) {
        Some(read_sum(rules, routes, rules.len() as int))
    } else {
        None
    }
}

fn wants(routes: &Vec<PromotionRoute>, rule: &RuleCounters) -> (r: bool)
    ensures
        r == is_wanted(*rule, routes@),
{
    let mut i: usize = 0;
    while i < routes.len()
        invariant
            i <= routes@.len(),
            forall|j: int|
                0 <= j < i ==> !(same_host(rule.host, (#[trigger] routes@[j]).host@)
                    && routes@[j].path@ == rule.path@ && routes@[j].path_type == rule.path_type),
        decreases routes@.len() - i,
    {
        if host_matches(&rule.host, routes[i].host.as_str()) && same_text(
            routes[i].path.as_str(),
            rule.path.as_str(),
        ) && routes[i].path_type == rule.path_type {
            return true;
        }
        i = i + 1;
    }
    false
}

proof fn lemma_sums_fit(rules: Seq<RuleCounters>, routes: Seq<PromotionRoute>, i: int, n: int)
    requires
        0 <= i <= n,
        sums_fit(rules, routes, n),
    ensures
        sums_fit(rules, routes, i),
    decreases n - i,
{
    if i < n {
        lemma_sums_fit(rules, routes, i, n - 1);
    }
}

/// Sums the counters of every route a canary shadows. None when the published
/// table has none of them.
pub fn read(rules: &Vec<RuleCounters>, routes: &Vec<PromotionRoute>) -> (r: Option<Baseline>)
    requires
        sums_fit(rules@, routes@, rules@.len() as int),
    ensures
        r == reading(rules@, routes@),
{
    let mut sum = Baseline { totals: RouteTotals::default(), canary: RouteTotals::default() };
    let mut found = false;
    let mut i: usize = 0;
    while i < rules.len()
        invariant
            i <= rules@.len(),
            sums_fit(rules@, routes@, rules@.len() as int),
            sum == read_sum(rules@, routes@, i as int),
            found == exists|j: int| 0 <= j < i && is_counted(#[trigger] rules@[j], routes@),
        decreases rules@.len() - i,
    {
        proof {
            lemma_sums_fit(rules@, routes@, i + 1, rules@.len() as int);
        }
        if wants(routes, &rules[i]) {
            if let Some((all, canary)) = rules[i].counters {
                found = true;
                assert(is_counted(rules@[i as int], routes@));
                sum = Baseline { totals: sum.totals.plus(&all), canary: sum.canary.plus(&canary) };
            }
        }
        i = i + 1;
    }
    if found {
        Some(sum)
    } else {
        None
    }
}

impl Baseline {
    /// What the totals have left once the canary's part is taken out.
    pub fn stable(&self) -> (r: RouteTotals)
        ensures
            r == stable_part(*self),
    {
        self.totals.saturating_sub(&self.canary)
    }
}

/// What the totals have left once the canary's part is taken out.
pub open spec fn stable_part(reading: Baseline) -> RouteTotals {
    totals::difference(reading.totals, reading.canary)
}

/// The traffic between two readings.
pub open spec fn between(previous: Baseline, reading: Baseline) -> Window {
    Window {
        canary: totals::difference(reading.canary, previous.canary),
        stable: totals::difference(stable_part(reading), stable_part(previous)),
    }
}

// ---------------------------------------------------------------------------
// The loop
// ---------------------------------------------------------------------------

/// The name of an object in the cluster.
#[derive(Debug)]
pub struct ObjectKey {
    pub namespace: String,
    pub name: String,
}

/// A name without its storage: namespace and name.
pub type KeyView = (Seq<char>, Seq<char>);

impl View for ObjectKey {
    type V = KeyView;

    open spec fn view(&self) -> KeyView {
        (self.namespace@, self.name@)
    }
}

/// A name as it is written.
pub open spec fn key_text(key: KeyView) -> Seq<char> {
    key.0 + "/"@ + key.1
}

fn own(s: &str) -> (r: String)
    ensures
        r@ == s@,
{
    let mut out = String::new();
    push_text(&mut out, s);
    assert(out@ =~= s@);
    out
}

impl ObjectKey {
    /// The name as it is written.
    pub fn to_text(&self) -> (r: String)
        ensures
            r@ == key_text(self@),
    {
        let mut out = String::new();
        push_text(&mut out, self.namespace.as_str());
        push_text(&mut out, "/");
        push_text(&mut out, self.name.as_str());
        assert(out@ =~= key_text(self@));
        out
    }

    fn same(&self, other: &ObjectKey) -> (r: bool)
        ensures
            r == (self@ == other@),
    {
        same_text(self.namespace.as_str(), other.namespace.as_str()) && same_text(
            self.name.as_str(),
            other.name.as_str(),
        )
    }

    fn copy(&self) -> (r: ObjectKey)
        ensures
            r@ == self@,
    {
        ObjectKey { namespace: own(self.namespace.as_str()), name: own(self.name.as_str()) }
    }
}

/// A canary that opted in.
#[derive(Debug)]
pub struct PromotionTarget {
    pub ingress: ObjectKey,
    pub uid: Option<String>,
    pub routes: Vec<PromotionRoute>,
    pub weight: u32,
    pub policy: PromotionAnnotations,
}

/// What the loop remembers of a canary.
#[derive(Debug, Clone, Copy)]
pub struct Memory {
    /// The reading of the pass before.
    pub baseline: Option<Baseline>,
    /// When its next pass is due, in nanoseconds.
    pub due: Option<u128>,
    /// Whether this process is finished with it, so that a patch that has not
    /// come back around cannot be acted on twice.
    pub finished: bool,
}

/// Nothing remembered.
pub open spec fn blank() -> Memory {
    Memory { baseline: None, due: None, finished: false }
}

#[derive(Debug)]
struct Kept {
    key: ObjectKey,
    memory: Memory,
}

/// What a list remembers of a canary.
spec fn recalled(list: Seq<Kept>, key: KeyView) -> Option<Memory>
    decreases list.len(),
{
    if list.len() == 0 {
        None
    } else if list.last().key@ == key {
        Some(list.last().memory)
    } else {
        recalled(list.drop_last(), key)
    }
}

proof fn lemma_recalled_of_one_more(list: Seq<Kept>, one: Kept)
    ensures
        forall|k: KeyView|
            recalled(list.push(one), k) == if one.key@ == k {
                Some(one.memory)
            } else {
                recalled(list, k)
            },
{
    assert(list.push(one).drop_last() =~= list);
    assert(list.push(one).last() == one);
}

/// What a promoter remembers, and whether it has said that a pin holds it.
#[verifier::ext_equal]
pub struct PromoterView {
    pub memories: Map<KeyView, Memory>,
    pub pinned_reported: bool,
}

impl PromoterView {
    /// What is remembered of a canary.
    pub open spec fn of(self, key: KeyView) -> Memory {
        if self.memories.contains_key(key) {
            self.memories[key]
        } else {
            blank()
        }
    }

    /// The promoter with another memory of a canary.
    pub open spec fn with(self, key: KeyView, memory: Memory) -> PromoterView {
        PromoterView { memories: self.memories.insert(key, memory), ..self }
    }

    /// The promoter at the start of a pass that is not held: it has forgotten the
    /// canaries that are gone.
    pub open spec fn begun(self, live: Set<KeyView>) -> PromoterView {
        PromoterView { memories: self.memories.restrict(live), pinned_reported: false }
    }

    /// Is a canary left alone in a pass at `now`?
    pub open spec fn leaves(self, target: PromotionTarget) -> bool {
        finished(target.policy) || self.of(target.ingress@).finished
    }

    /// When a canary's next pass is due. A canary seen for the first time is due
    /// now.
    pub open spec fn due(self, target: PromotionTarget, now: nat) -> nat {
        match self.of(target.ingress@).due {
            Some(due) => due as nat,
            None => now,
        }
    }

    /// What a pass says as it starts, and the promoter then.
    pub open spec fn started(self, pinned: bool, live: Set<KeyView>) -> (Start, PromoterView) {
        if pinned {
            (
                if self.pinned_reported {
                    Start::StillPaused
                } else {
                    Start::Paused
                },
                PromoterView { pinned_reported: true, ..self },
            )
        } else {
            (
                if self.pinned_reported {
                    Start::Resumed
                } else {
                    Start::Ready
                },
                self.begun(live),
            )
        }
    }

    /// Whether a canary is evaluated in a pass at `now`, how long the loop may sleep
    /// after it when it could sleep `next` without it, and the promoter then.
    pub open spec fn considered(self, target: PromotionTarget, now: nat, next: nat) -> (
        bool,
        nat,
        PromoterView,
    ) {
        let due = self.due(target, now);
        if self.leaves(target) {
            (false, next, self)
        } else if due > now {
            (false, shorter(next, (due - now) as nat), self)
        } else {
            (
                true,
                shorter(next, target.policy.interval@),
                self.with(
                    target.ingress@,
                    Memory {
                        due: Some((now + target.policy.interval@) as u128),
                        ..self.of(target.ingress@)
                    },
                ),
            )
        }
    }

    /// The promoter after the patch of a verdict stuck, or did not.
    pub open spec fn settled(
        self,
        target: PromotionTarget,
        verdict: VerdictView,
        patched: bool,
    ) -> PromoterView {
        if patched && (verdict is Promote || verdict is RollBack) {
            self.with(target.ingress@, Memory { finished: true, ..self.of(target.ingress@) })
        } else {
            self
        }
    }

    /// The promoter after it took up a reading of a canary.
    pub open spec fn taken(self, target: PromotionTarget, reading: Baseline) -> PromoterView {
        self.with(
            target.ingress@,
            Memory { baseline: Some(reading), ..self.of(target.ingress@) },
        )
    }
}

/// The names of some canaries.
pub open spec fn names(targets: Seq<PromotionTarget>) -> Set<KeyView> {
    Set::new(
        |key: KeyView|
            exists|i: int| 0 <= i < targets.len() && (#[trigger] targets[i]).ingress@ == key,
    )
}

/// Reads the counters, judges the windows, and says what to patch.
#[derive(Debug)]
pub struct Promoter {
    kept: Vec<Kept>,
    pinned_reported: bool,
}

impl View for Promoter {
    type V = PromoterView;

    closed spec fn view(&self) -> PromoterView {
        PromoterView {
            memories: Map::new(
                |key: KeyView| recalled(self.kept@, key) is Some,
                |key: KeyView| recalled(self.kept@, key)->0,
            ),
            pinned_reported: self.pinned_reported,
        }
    }
}

/// How a pass starts.
#[derive(Debug, Clone, Copy, PartialEq, Eq, Structural)]
pub enum Start {
    /// A pin holds it, which was not said before.
    Paused,
    /// A pin still holds it.
    StillPaused,
    /// A pin held it and was released.
    Resumed,
    /// It goes ahead.
    Ready,
}

/// The shorter of two spans.
pub open spec fn shorter(a: nat, b: nat) -> nat {
    if b < a {
        b
    } else {
        a
    }
}

fn shorter_of(a: Duration, b: Duration) -> (r: Duration)
    ensures
        r@ == shorter(a@, b@),
{
    if b.shorter_than(&a) {
        b
    } else {
        a
    }
}

impl Promoter {
    /// A promoter that remembers nothing.
    pub fn new() -> (r: Promoter)
        ensures
            r@ == (PromoterView { memories: Map::empty(), pinned_reported: false }),
    {
        let r = Promoter { kept: Vec::new(), pinned_reported: false };
        assert(r@.memories =~= Map::<KeyView, Memory>::empty());
        r
    }

    /// What is remembered of a canary.
    pub fn recall(&self, key: &ObjectKey) -> (r: Memory)
        ensures
            r == self@.of(key@),
    {
        let mut left: usize = self.kept.len();
        assert(self.kept@.take(left as int) =~= self.kept@);
        while left > 0
            invariant
                left <= self.kept@.len(),
                recalled(self.kept@, key@) == recalled(self.kept@.take(left as int), key@),
            decreases left,
        {
            left = left - 1;
            proof {
                let seen = self.kept@.take(left + 1);
                assert(seen.last() == self.kept@[left as int]);
                assert(seen.drop_last() =~= self.kept@.take(left as int));
            }
            if self.kept[left].key.same(key) {
                return self.kept[left].memory;
            }
        }
        Memory { baseline: None, due: None, finished: false }
    }

    fn remember(&mut self, key: &ObjectKey, memory: Memory)
        ensures
            final(self)@ == old(self)@.with(key@, memory),
    {
        self.forget(key);
        let ghost others = self.kept@;
        let one = Kept { key: key.copy(), memory };
        self.kept.push(one);
        proof {
            lemma_recalled_of_one_more(others, one);
            assert(self@.memories =~= old(self)@.memories.insert(key@, memory));
        }
    }

    /// Drops what is remembered of one canary.
    fn forget(&mut self, key: &ObjectKey)
        ensures
            forall|k: KeyView|
                recalled(final(self).kept@, k) == if k == key@ {
                    None
                } else {
                    recalled(old(self).kept@, k)
                },
            final(self).pinned_reported == old(self).pinned_reported,
    {
        let ghost all = self.kept@;
        let mut i: usize = 0;
        let ghost mut seen: int = 0;
        while i < self.kept.len()
            invariant
                0 <= seen <= all.len(),
                i <= self.kept@.len(),
                self.kept@.len() - i == all.len() - seen,
                self.kept@.skip(i as int) == all.skip(seen),
                forall|k: KeyView|
                    recalled(self.kept@.take(i as int), k) == if k == key@ {
                        None
                    } else {
                        recalled(all.take(seen), k)
                    },
                self.pinned_reported == old(self).pinned_reported,
            decreases all.len() - seen,
        {
            let ghost held = self.kept@;
            proof {
                assert(held.skip(i as int)[0] == all.skip(seen)[0]);
                assert(held[i as int] == all[seen]);
                lemma_recalled_of_one_more(all.take(seen), all[seen]);
                assert(all.take(seen + 1) =~= all.take(seen).push(all[seen]));
                assert(held.skip(i as int).skip(1) =~= held.skip(i + 1));
                assert(all.skip(seen).skip(1) =~= all.skip(seen + 1));
            }
            if self.kept[i].key.same(key) {
                let _ = self.kept.remove(i);
                proof {
                    assert(self.kept@.take(i as int) =~= held.take(i as int));
                    assert(self.kept@.skip(i as int) =~= held.skip(i + 1));
                }
            } else {
                i = i + 1;
                proof {
                    lemma_recalled_of_one_more(held.take(i - 1), all[seen]);
                    assert(held.take(i as int) =~= held.take(i - 1).push(all[seen]));
                }
            }
            proof {
                seen = seen + 1;
            }
        }
        assert(self.kept@.take(i as int) =~= self.kept@);
        assert(all.take(seen) =~= all);
    }

    /// Forgets the canaries that are gone, so that a long-lived process does not
    /// pile up one memory per Ingress ever deleted.
    fn forget_others(&mut self, targets: &Vec<PromotionTarget>)
        ensures
            forall|k: KeyView|
                recalled(final(self).kept@, k) == if names(targets@).contains(k) {
                    recalled(old(self).kept@, k)
                } else {
                    None
                },
            final(self).pinned_reported == old(self).pinned_reported,
    {
        let ghost all = self.kept@;
        let ghost live = names(targets@);
        let mut i: usize = 0;
        let ghost mut seen: int = 0;
        while i < self.kept.len()
            invariant
                0 <= seen <= all.len(),
                i <= self.kept@.len(),
                live == names(targets@),
                self.kept@.len() - i == all.len() - seen,
                self.kept@.skip(i as int) == all.skip(seen),
                forall|k: KeyView|
                    recalled(self.kept@.take(i as int), k) == if live.contains(k) {
                        recalled(all.take(seen), k)
                    } else {
                        None
                    },
                self.pinned_reported == old(self).pinned_reported,
            decreases all.len() - seen,
        {
            let ghost held = self.kept@;
            proof {
                assert(held.skip(i as int)[0] == all.skip(seen)[0]);
                assert(held[i as int] == all[seen]);
                lemma_recalled_of_one_more(all.take(seen), all[seen]);
                assert(all.take(seen + 1) =~= all.take(seen).push(all[seen]));
                assert(held.skip(i as int).skip(1) =~= held.skip(i + 1));
                assert(all.skip(seen).skip(1) =~= all.skip(seen + 1));
            }
            if !is_live(targets, &self.kept[i].key) {
                let _ = self.kept.remove(i);
                proof {
                    assert(self.kept@.take(i as int) =~= held.take(i as int));
                    assert(self.kept@.skip(i as int) =~= held.skip(i + 1));
                }
            } else {
                i = i + 1;
                proof {
                    lemma_recalled_of_one_more(held.take(i - 1), all[seen]);
                    assert(held.take(i as int) =~= held.take(i - 1).push(all[seen]));
                }
            }
            proof {
                seen = seen + 1;
            }
        }
        assert(self.kept@.take(i as int) =~= self.kept@);
        assert(all.take(seen) =~= all);
    }

    /// Starts a pass over some canaries.
    ///
    /// A rollback pin means that an operator has taken manual control of what
    /// this replica serves, and then nothing is done at all.
    pub fn start(&mut self, targets: &Vec<PromotionTarget>, pinned: bool) -> (r: Start)
        ensures
            r == if pinned {
                if old(self)@.pinned_reported {
                    Start::StillPaused
                } else {
                    Start::Paused
                }
            } else if old(self)@.pinned_reported {
                Start::Resumed
            } else {
                Start::Ready
            },
            final(self)@ == if pinned {
                PromoterView { pinned_reported: true, ..old(self)@ }
            } else {
                old(self)@.begun(names(targets@))
            },
            (r, final(self)@) == old(self)@.started(pinned, names(targets@)),
    {
        let reported = self.pinned_reported;
        if pinned {
            self.pinned_reported = true;
            assert(self@ =~= (PromoterView { pinned_reported: true, ..old(self)@ }));
            return if reported {
                Start::StillPaused
            } else {
                Start::Paused
            };
        }
        self.forget_others(targets);
        self.pinned_reported = false;
        assert(self@ =~= old(self)@.begun(names(targets@)));
        if reported {
            Start::Resumed
        } else {
            Start::Ready
        }
    }

    /// Decides whether a canary is evaluated in a pass at `now`, and how long the
    /// loop may sleep after it when it could sleep `next` without it.
    pub fn consider(&mut self, target: &PromotionTarget, now: Duration, next: Duration) -> (r: (
        bool,
        Duration,
    ))
        ensures
            ({
                let before = old(self)@;
                let due = before.due(*target, now@);
                if before.leaves(*target) {
                    &&& !r.0
                    &&& r.1@ == next@
                    &&& final(self)@ == before
                } else if due > now@ {
                    &&& !r.0
                    &&& r.1@ == shorter(next@, (due - now@) as nat)
                    &&& final(self)@ == before
                } else {
                    &&& r.0
                    &&& r.1@ == shorter(next@, target.policy.interval@)
                    &&& final(self)@ == before.with(
                        target.ingress@,
                        Memory {
                            due: Some((now@ + target.policy.interval@) as u128),
                            ..before.of(target.ingress@)
                        },
                    )
                }
            }),
            (r.0, r.1@, final(self)@) == old(self)@.considered(*target, now@, next@),
    {
        if is_finished(&target.policy) {
            return (false, next);
        }
        let memory = self.recall(&target.ingress);
        if memory.finished {
            return (false, next);
        }
        let now_nanos: u128 = now.as_nanos();
        if let Some(due) = memory.due {
            if due > now_nanos {
                let left: u128 = due - now_nanos;
                return if left < next.as_nanos() {
                    (false, Duration::from_total_nanos(left))
                } else {
                    (false, next)
                };
            }
        }
        let interval = target.policy.interval;
        let due: u128 = now_nanos + interval.as_nanos();
        self.remember(&target.ingress, Memory { due: Some(due), ..memory });
        (true, shorter_of(next, interval))
    }

    /// Takes up the reading of one canary and judges the window since the one
    /// before. A first reading decides nothing: there is none to subtract, and
    /// judging it would judge the whole lifetime of the process.
    pub fn evaluate(&mut self, target: &PromotionTarget, reading: Option<Baseline>) -> (r: Option<
        (Window, Verdict),
    >)
        ensures
            match reading {
                None => r is None && final(self)@ == old(self)@,
                Some(reading) => {
                    &&& final(self)@ == old(self)@.taken(*target, reading)
                    &&& match old(self)@.of(target.ingress@).baseline {
                        None => r is None,
                        Some(previous) => {
                            let window = between(previous, reading);
                            &&& r matches Some((w, verdict))
                            &&& w == window
                            &&& verdict@ == judged(target.policy, target.weight, window)
                        },
                    }
                },
            },
    {
        let reading = match reading {
            Some(reading) => reading,
            None => return None,
        };
        let memory = self.recall(&target.ingress);
        self.remember(&target.ingress, Memory { baseline: Some(reading), ..memory });
        match memory.baseline {
            None => None,
            Some(previous) => {
                let window = Window {
                    canary: reading.canary.saturating_sub(&previous.canary),
                    stable: reading.stable().saturating_sub(&previous.stable()),
                };
                let verdict = decide(&target.policy, target.weight, &window);
                Some((window, verdict))
            },
        }
    }

    /// Takes in whether the patch of a verdict stuck. Only then is a canary that
    /// was promoted or rolled back finished: one that could not be disarmed is
    /// tried again.
    pub fn settle(&mut self, target: &PromotionTarget, verdict: &Verdict, patched: bool)
        ensures
            final(self)@ == if patched && (verdict is Promote || verdict is RollBack) {
                old(self)@.with(
                    target.ingress@,
                    Memory { finished: true, ..old(self)@.of(target.ingress@) },
                )
            } else {
                old(self)@
            },
            final(self)@ == old(self)@.settled(*target, verdict@, patched),
    {
        if patched && matches!(verdict, Verdict::Promote | Verdict::RollBack { .. }) {
            let memory = self.recall(&target.ingress);
            self.remember(&target.ingress, Memory { finished: true, ..memory });
        }
    }
}

fn is_live(targets: &Vec<PromotionTarget>, key: &ObjectKey) -> (r: bool)
    ensures
        r == names(targets@).contains(key@),
{
    let mut i: usize = 0;
    while i < targets.len()
        invariant
            i <= targets@.len(),
            forall|j: int| 0 <= j < i ==> (#[trigger] targets@[j]).ingress@ != key@,
        decreases targets@.len() - i,
    {
        if targets[i].ingress.same(key) {
            return true;
        }
        i = i + 1;
    }
    false
}

/// How long the loop sleeps while a pin holds it, and the longest it sleeps at
/// all.
pub fn idle_poll() -> (r: Duration)
    ensures
        r@ == IDLE_POLL_NANOS,
{
    Duration::from_nanos(IDLE_POLL_NANOS)
}

/// How long the loop sleeps when so much time is left until it is needed.
pub open spec fn tick(next: nat) -> nat {
    if next < MIN_TICK_NANOS {
        MIN_TICK_NANOS as nat
    } else {
        next
    }
}

/// How long the loop sleeps after a pass.
pub fn sleep_after(next: Duration) -> (r: Duration)
    ensures
        r@ == if next@ < MIN_TICK_NANOS {
            MIN_TICK_NANOS as nat
        } else {
            next@
        },
        r@ == tick(next@),
{
    let least = Duration::from_nanos(MIN_TICK_NANOS);
    if next.shorter_than(&least) {
        least
    } else {
        next
    }
}

// ---------------------------------------------------------------------------
// What is patched
// ---------------------------------------------------------------------------

/// Why something is written to the audit trail.
#[derive(Debug, Clone, Copy, PartialEq, Eq, Structural)]
pub enum AuditReason {
    CanaryStepped,
    CanaryPromoted,
    CanaryRolledBack,
}

/// What a verdict asks for.
#[derive(Debug)]
pub struct Patch {
    pub reason: AuditReason,
    pub detail: String,
    pub to_weight: u32,
    /// Annotations and their values, all in one patch.
    pub annotations: Vec<(&'static str, String)>,
}

/// Annotations without their storage.
pub open spec fn annotation_views(list: Seq<(&'static str, String)>) -> Seq<(Seq<char>, Seq<char>)> {
    list.map_values(|a: (&'static str, String)| (a.0@, a.1@))
}

/// The annotations a verdict writes.
pub open spec fn written(verdict: VerdictView) -> Seq<(Seq<char>, Seq<char>)> {
    match verdict {
        VerdictView::Hold(_) => Seq::empty(),
        VerdictView::Step { to } => seq![(ANNOTATION_CANARY_WEIGHT@, text::decimal(to as nat))],
        VerdictView::Promote => seq![(ANNOTATION_AUTO_PROMOTE_STATUS@, STATUS_PROMOTED@)],
        VerdictView::RollBack { reason } => seq![
            (ANNOTATION_CANARY_WEIGHT@, "0"@),
            (ANNOTATION_AUTO_PROMOTE@, "false"@),
            (ANNOTATION_AUTO_PROMOTE_STATUS@, STATUS_ROLLED_BACK@ + ": "@ + reason),
        ],
    }
}

/// What is said of a verdict.
pub open spec fn detail_of(weight: u32, verdict: VerdictView) -> Seq<char> {
    match verdict {
        VerdictView::Hold(_) => Seq::empty(),
        VerdictView::Step { to } => "canary healthy; weight "@ + text::decimal(weight as nat)
            + " -> "@ + text::decimal(to as nat),
        VerdictView::Promote => "canary healthy at "@ + text::decimal(weight as nat)
            + "%, the last step; swap the production backend when ready"@,
        VerdictView::RollBack { reason } => "rolled back from "@ + text::decimal(weight as nat)
            + "%: "@ + reason,
    }
}

/// The weight a canary has after a verdict.
pub open spec fn weight_after(weight: u32, verdict: VerdictView) -> u32 {
    match verdict {
        VerdictView::Step { to } => to,
        VerdictView::RollBack { .. } => 0,
        _ => weight,
    }
}

/// What the audit trail calls a verdict that changes something.
pub open spec fn called(verdict: VerdictView) -> AuditReason {
    match verdict {
        VerdictView::Step { .. } => AuditReason::CanaryStepped,
        VerdictView::Promote => AuditReason::CanaryPromoted,
        _ => AuditReason::CanaryRolledBack,
    }
}

/// Says what a verdict asks for; nothing for one that holds, which is the normal
/// state of a canary on a quiet route.
///
/// Promotion writes the status alone: arming is the operator's own annotation. A
/// rollback writes the weight and disarms in one patch, or the next
/// healthy-looking window would step it straight back up.
pub fn patch_for(weight: u32, verdict: &Verdict) -> (r: Option<Patch>)
    ensures
        match verdict@ {
            VerdictView::Hold(_) => r is None,
            _ => {
                &&& r matches Some(patch)
                &&& annotation_views(patch.annotations@) == written(verdict@)
                &&& patch.detail@ == detail_of(weight, verdict@)
                &&& patch.reason == match verdict@ {
                    VerdictView::Step { .. } => AuditReason::CanaryStepped,
                    VerdictView::Promote => AuditReason::CanaryPromoted,
                    _ => AuditReason::CanaryRolledBack,
                }
                &&& patch.to_weight == match verdict@ {
                    VerdictView::Step { to } => to,
                    VerdictView::Promote => weight,
                    _ => 0,
                }
                &&& patch.to_weight == weight_after(weight, verdict@)
                &&& patch.reason == called(verdict@)
            },
        },
{
    let mut detail = String::new();
    let mut annotations: Vec<(&'static str, String)> = Vec::new();
    match verdict {
        Verdict::Hold(_) => None,
        Verdict::Step { to } => {
            push_text(&mut detail, "canary healthy; weight ");
            push_decimal(&mut detail, weight as u64);
            push_text(&mut detail, " -> ");
            push_decimal(&mut detail, *to as u64);
            let mut value = String::new();
            push_decimal(&mut value, *to as u64);
            assert(value@ =~= text::decimal(*to as nat));
            annotations.push((ANNOTATION_CANARY_WEIGHT, value));
            assert(annotation_views(annotations@) =~= written(verdict@));
            assert(detail@ =~= detail_of(weight, verdict@));
            Some(
                Patch { reason: AuditReason::CanaryStepped, detail, to_weight: *to, annotations },
            )
        },
        Verdict::Promote => {
            push_text(&mut detail, "canary healthy at ");
            push_decimal(&mut detail, weight as u64);
            push_text(&mut detail, "%, the last step; swap the production backend when ready");
            annotations.push((ANNOTATION_AUTO_PROMOTE_STATUS, own(STATUS_PROMOTED)));
            assert(annotation_views(annotations@) =~= written(verdict@));
            assert(detail@ =~= detail_of(weight, verdict@));
            Some(
                Patch {
                    reason: AuditReason::CanaryPromoted,
                    detail,
                    to_weight: weight,
                    annotations,
                },
            )
        },
        Verdict::RollBack { reason } => {
            push_text(&mut detail, "rolled back from ");
            push_decimal(&mut detail, weight as u64);
            push_text(&mut detail, "%: ");
            push_text(&mut detail, reason.as_str());
            let mut status = own(STATUS_ROLLED_BACK);
            push_text(&mut status, ": ");
            push_text(&mut status, reason.as_str());
            annotations.push((ANNOTATION_CANARY_WEIGHT, own("0")));
            annotations.push((ANNOTATION_AUTO_PROMOTE, own("false")));
            annotations.push((ANNOTATION_AUTO_PROMOTE_STATUS, status));
            assert(annotation_views(annotations@) =~= written(verdict@));
            assert(detail@ =~= detail_of(weight, verdict@));
            Some(
                Patch { reason: AuditReason::CanaryRolledBack, detail, to_weight: 0, annotations },
            )
        },
    }
}

// ---------------------------------------------------------------------------
// Laws
// ---------------------------------------------------------------------------

/// Too little traffic holds, whatever the numbers say: it neither advances nor
/// rolls back. And only too little traffic holds.
pub proof fn quiet_windows_hold(policy: PromotionAnnotations, weight: u32, window: Window)
    ensures
        judged(policy, weight, window) is Hold <==> too_quiet(policy, window),
{
}

/// A step goes up, to a configured weight, and only when no gate is breached.
pub proof fn a_step_goes_up(policy: PromotionAnnotations, weight: u32, window: Window)
    requires
        judged(policy, weight, window) is Step,
    ensures
        judged(policy, weight, window)->to > weight,
        policy.steps@.contains(judged(policy, weight, window)->to),
        !over_errors(policy, window),
        !over_latency(policy, window),
{
    lemma_step_above(policy.steps@, weight, 0);
}

proof fn lemma_step_above(steps: Seq<u32>, weight: u32, i: int)
    requires
        0 <= i,
    ensures
        step_above(steps, weight, i) matches Some(to) ==> to > weight && steps.contains(to),
        step_above(steps, weight, i) is None ==> forall|j: int|
            i <= j < steps.len() ==> #[trigger] steps[j] <= weight,
    decreases steps.len() - i,
{
    if i < steps.len() {
        if steps[i] > weight {
            assert(steps.contains(steps[i]));
        } else {
            lemma_step_above(steps, weight, i + 1);
        }
    }
}

/// The last weight is judged before it is accepted: a canary is promoted only at
/// or above every step, and only on a window that breaches no gate.
pub proof fn promotion_is_judged(policy: PromotionAnnotations, weight: u32, window: Window)
    requires
        judged(policy, weight, window) is Promote,
    ensures
        forall|j: int| 0 <= j < policy.steps@.len() ==> #[trigger] policy.steps@[j] <= weight,
        !over_errors(policy, window),
        !over_latency(policy, window),
        !too_quiet(policy, window),
{
    lemma_step_above(policy.steps@, weight, 0);
}

/// The error gate is checked before the latency gate: when both are breached, the
/// reason is the errors.
pub proof fn errors_are_named_first(policy: PromotionAnnotations, weight: u32, window: Window)
    requires
        !too_quiet(policy, window),
        over_errors(policy, window),
    ensures
        judged(policy, weight, window) == (VerdictView::RollBack {
            reason: error_reason(policy, window),
        }),
{
}

/// A window measures the interval and not the lifetime: whatever was served
/// before both readings makes no difference to it.
pub proof fn a_window_is_the_interval(past: Baseline, previous: Baseline, reading: Baseline)
    requires
        totals::fit(past.totals, previous.totals),
        totals::fit(past.canary, previous.canary),
        totals::fit(past.totals, reading.totals),
        totals::fit(past.canary, reading.canary),
        is_part(past),
        is_part(previous),
        is_part(reading),
    ensures
        ({
            let earlier = Baseline {
                totals: totals::sum(past.totals, previous.totals),
                canary: totals::sum(past.canary, previous.canary),
            };
            let later = Baseline {
                totals: totals::sum(past.totals, reading.totals),
                canary: totals::sum(past.canary, reading.canary),
            };
            between(earlier, later) == between(previous, reading)
        }),
{
}

/// Is a canary's part really a part of the totals?
pub open spec fn is_part(reading: Baseline) -> bool {
    &&& reading.canary.requests <= reading.totals.requests
    &&& reading.canary.errors_5xx <= reading.totals.errors_5xx
    &&& reading.canary.upstream_latency_micros <= reading.totals.upstream_latency_micros
    &&& reading.canary.upstream_latency_count <= reading.totals.upstream_latency_count
}

/// A rollback is one-way. The status it writes is final, so the annotation keeps
/// the canary from being touched after a restart; and so is that of a promotion.
pub proof fn what_is_written_is_final(reason: Seq<char>)
    ensures
        is_final(written(VerdictView::RollBack { reason })[2].1),
        is_final(written(VerdictView::Promote)[0].1),
{
    let status = STATUS_ROLLED_BACK@ + ": "@ + reason;
    assert(status.take(STATUS_ROLLED_BACK@.len() as int) =~= STATUS_ROLLED_BACK@);
}

/// A canary whose rollback or promotion was patched is left alone from then on,
/// for as long as it is among the canaries: even before the cluster has caught
/// up.
pub proof fn a_settled_canary_is_left_alone(
    promoter: PromoterView,
    target: PromotionTarget,
    again: PromotionTarget,
    live: Set<KeyView>,
)
    requires
        again.ingress@ == target.ingress@,
        live.contains(target.ingress@),
    ensures
        promoter.with(
            target.ingress@,
            Memory { finished: true, ..promoter.of(target.ingress@) },
        ).begun(live).leaves(again),
{
}

/// A canary that is gone is forgotten whole.
pub proof fn a_canary_that_is_gone_is_forgotten(
    promoter: PromoterView,
    key: KeyView,
    live: Set<KeyView>,
)
    requires
        !live.contains(key),
    ensures
        promoter.begun(live).of(key) == blank(),
        !promoter.begun(live).memories.contains_key(key),
{
}

/// Too little traffic on either side holds, and says how much there was; otherwise the
/// window is judged.
pub proof fn a_window_needs_traffic_on_both_sides(
    policy: PromotionAnnotations,
    weight: u32,
    window: Window,
)
    ensures
        judged(policy, weight, window) is Hold <==> window.canary.requests < policy.min_requests
            || window.stable.requests < policy.min_requests,
        judged(policy, weight, window) matches VerdictView::Hold(
            Hold::LowTraffic { canary, stable },
        ) ==> canary == window.canary.requests && stable == window.stable.requests,
{
}

/// A canary is rolled back exactly when it breaches a gate. The error gate is breached
/// when the errors among the canary's own requests are more, in percent, than the
/// budget. The latency gate is breached when the canary's mean, over its own exchanges,
/// is more than the stable side's mean times the factor.
pub proof fn a_rollback_needs_a_breach(policy: PromotionAnnotations, weight: u32, window: Window)
    requires
        window.canary.requests >= policy.min_requests,
        window.stable.requests >= policy.min_requests,
    ensures
        ({
            let e = window.canary.errors_5xx as int;
            let n = window.canary.requests as int;
            let failing = n > 0 && 100 * e * 1_000_000 > policy.max_5xx_percent * n;
            let mean = (
                window.canary.upstream_latency_micros as int,
                window.canary.upstream_latency_count as int,
            );
            let usual = (
                window.stable.upstream_latency_micros as int,
                window.stable.upstream_latency_count as int,
            );
            let slow = mean.1 > 0 && usual.1 > 0 && mean.0 * usual.1 * 1_000_000 > usual.0 * mean.1
                * policy.max_latency_factor;
            &&& judged(policy, weight, window) is RollBack <==> failing || slow
            &&& failing ==> text::starts_with(judged(policy, weight, window)->reason, "5xx "@)
            &&& !failing && slow ==> text::starts_with(
                judged(policy, weight, window)->reason,
                "latency "@,
            )
        }),
{
    lemma_reasons_begin(policy, window);
}

proof fn lemma_reasons_begin(policy: PromotionAnnotations, window: Window)
    ensures
        text::starts_with(error_reason(policy, window), "5xx "@),
        text::starts_with(latency_reason(policy, window), "latency "@),
{
    let a = error_reason(policy, window);
    let b = latency_reason(policy, window);
    assert(a.take("5xx "@.len() as int) =~= "5xx "@);
    assert(b.take("latency "@.len() as int) =~= "latency "@);
}

/// The error gate looks at the canary alone: with another stable side, as long as
/// neither window is too quiet, a canary that is rolled back for its errors is rolled
/// back for the same reason, and one that keeps its budget is never rolled back for
/// them.
pub proof fn the_error_gate_is_the_canarys_own(
    policy: PromotionAnnotations,
    weight: u32,
    window: Window,
    stable: RouteTotals,
)
    requires
        window.canary.requests >= policy.min_requests,
        window.stable.requests >= policy.min_requests,
        stable.requests >= policy.min_requests,
        window.canary.requests > 0,
        100 * window.canary.errors_5xx * 1_000_000 > policy.max_5xx_percent
            * window.canary.requests,
    ensures
        judged(policy, weight, window) is RollBack,
        judged(policy, weight, Window { canary: window.canary, stable }) == judged(
            policy,
            weight,
            window,
        ),
{
}

/// A canary that fails every request is rolled back whatever else the window holds, for
/// any budget under a hundred percent.
pub proof fn a_canary_that_fails_everything_is_rolled_back(
    policy: PromotionAnnotations,
    weight: u32,
    window: Window,
)
    requires
        window.canary.requests >= policy.min_requests,
        window.stable.requests >= policy.min_requests,
        window.canary.requests > 0,
        window.canary.errors_5xx == window.canary.requests,
        policy.max_5xx_percent < 100_000_000,
    ensures
        judged(policy, weight, window) is RollBack,
{
    assert(window.canary.errors_5xx * 100_000_000 > policy.max_5xx_percent
        * window.canary.requests) by (nonlinear_arith)
        requires
            window.canary.errors_5xx == window.canary.requests,
            window.canary.requests > 0,
            policy.max_5xx_percent < 100_000_000,
    ;
}

/// A canary without errors that is no slower than what it replaces goes on, for any
/// factor of at least one.
pub proof fn a_canary_like_the_stable_side_goes_on(
    policy: PromotionAnnotations,
    weight: u32,
    window: Window,
)
    requires
        window.canary.requests >= policy.min_requests,
        window.stable.requests >= policy.min_requests,
        window.canary.errors_5xx == 0,
        window.canary.upstream_latency_micros * window.stable.upstream_latency_count
            <= window.stable.upstream_latency_micros * window.canary.upstream_latency_count,
        policy.max_latency_factor >= 1_000_000,
    ensures
        judged(policy, weight, window) is Step || judged(policy, weight, window) is Promote,
{
    let x = window.canary.upstream_latency_micros * window.stable.upstream_latency_count;
    let y = window.stable.upstream_latency_micros * window.canary.upstream_latency_count;
    assert(x * 1_000_000 <= y * policy.max_latency_factor) by (nonlinear_arith)
        requires
            x <= y,
            0 <= y,
            policy.max_latency_factor >= 1_000_000,
    ;
    assert(y >= 0) by (nonlinear_arith)
        requires
            y == window.stable.upstream_latency_micros * window.canary.upstream_latency_count,
    ;
    assert(policy.max_5xx_percent * window.canary.requests >= 0) by (nonlinear_arith);
}

/// A step is the first weight of the list that is above the one there is; and where no
/// weight is above it, a healthy canary is promoted.
pub proof fn a_step_is_the_first_above(policy: PromotionAnnotations, weight: u32, window: Window)
    requires
        judged(policy, weight, window) is Step || judged(policy, weight, window) is Promote,
    ensures
        judged(policy, weight, window) is Promote <==> forall|i: int|
            0 <= i < policy.steps@.len() ==> #[trigger] policy.steps@[i] <= weight,
        judged(policy, weight, window) matches VerdictView::Step { to } ==> exists|i: int|
            {
                &&& 0 <= i < policy.steps@.len()
                &&& #[trigger] policy.steps@[i] == to
                &&& to > weight
                &&& forall|j: int| 0 <= j < i ==> #[trigger] policy.steps@[j] <= weight
            },
{
    lemma_first_step(policy.steps@, weight, 0);
}

proof fn lemma_first_step(steps: Seq<u32>, weight: u32, i: int)
    requires
        0 <= i,
        forall|j: int| 0 <= j < i && j < steps.len() ==> #[trigger] steps[j] <= weight,
    ensures
        step_above(steps, weight, i) is None <==> forall|j: int|
            0 <= j < steps.len() ==> #[trigger] steps[j] <= weight,
        step_above(steps, weight, i) matches Some(to) ==> exists|k: int|
            {
                &&& 0 <= k < steps.len()
                &&& #[trigger] steps[k] == to
                &&& to > weight
                &&& forall|j: int| 0 <= j < k ==> #[trigger] steps[j] <= weight
            },
    decreases steps.len() - i,
{
    if i < steps.len() {
        if steps[i] > weight {
            assert(steps[i] == step_above(steps, weight, i)->0);
        } else {
            lemma_first_step(steps, weight, i + 1);
        }
    }
}

/// A window is what was served between two readings, counter by counter: the canary's
/// own on one side, and on the other what the totals have beyond the canary's.
pub proof fn a_window_is_counted_counter_by_counter(previous: Baseline, reading: Baseline)
    requires
        is_part(previous),
        is_part(reading),
        previous.canary.requests <= reading.canary.requests,
        previous.canary.errors_5xx <= reading.canary.errors_5xx,
        previous.canary.upstream_latency_micros <= reading.canary.upstream_latency_micros,
        previous.canary.upstream_latency_count <= reading.canary.upstream_latency_count,
        previous.totals.requests - previous.canary.requests <= reading.totals.requests
            - reading.canary.requests,
        previous.totals.errors_5xx - previous.canary.errors_5xx <= reading.totals.errors_5xx
            - reading.canary.errors_5xx,
        previous.totals.upstream_latency_micros - previous.canary.upstream_latency_micros
            <= reading.totals.upstream_latency_micros - reading.canary.upstream_latency_micros,
        previous.totals.upstream_latency_count - previous.canary.upstream_latency_count
            <= reading.totals.upstream_latency_count - reading.canary.upstream_latency_count,
    ensures
        ({
            let window = between(previous, reading);
            &&& window.canary.requests == reading.canary.requests - previous.canary.requests
            &&& window.canary.errors_5xx == reading.canary.errors_5xx - previous.canary.errors_5xx
            &&& window.canary.upstream_latency_micros == reading.canary.upstream_latency_micros
                - previous.canary.upstream_latency_micros
            &&& window.canary.upstream_latency_count == reading.canary.upstream_latency_count
                - previous.canary.upstream_latency_count
            &&& window.canary.requests + window.stable.requests == reading.totals.requests
                - previous.totals.requests
            &&& window.canary.errors_5xx + window.stable.errors_5xx == reading.totals.errors_5xx
                - previous.totals.errors_5xx
            &&& window.canary.upstream_latency_micros + window.stable.upstream_latency_micros
                == reading.totals.upstream_latency_micros - previous.totals.upstream_latency_micros
            &&& window.canary.upstream_latency_count + window.stable.upstream_latency_count
                == reading.totals.upstream_latency_count - previous.totals.upstream_latency_count
        }),
{
}

/// A target names a host of the table by its own name, a wildcard with a star and a dot
/// in front of its parent, and the catch-all with a star; and no name stands for two.
pub proof fn a_target_names_one_host(name: String, wanted: Seq<char>)
    ensures
        same_host(RouteHost::Exact(name), wanted) <==> wanted == name@,
        same_host(RouteHost::Wildcard(name), wanted) <==> wanted == seq!['*', '.'] + name@,
        same_host(RouteHost::CatchAll, wanted) <==> wanted == seq!['*'],
        !(same_host(RouteHost::CatchAll, wanted) && same_host(RouteHost::Wildcard(name), wanted)),
{
    reveal_strlit("*.");
    reveal_strlit("*");
    assert("*."@ =~= seq!['*', '.']);
    assert("*"@ =~= seq!['*']);
    let shown = seq!['*', '.'] + name@;
    assert(shown.take(2) =~= seq!['*', '.']);
    assert(shown.skip(2) =~= name@);
    if text::starts_with(wanted, "*."@) && wanted.skip(2) == name@ {
        assert(wanted =~= wanted.take(2) + wanted.skip(2));
    }
    assert(shown.len() >= 2);
}

/// A rule is counted for a canary exactly where host, path and path type are those of
/// one of its routes and the rule has counters.
pub proof fn a_rule_is_counted_for_its_own_route(rule: RuleCounters, routes: Seq<PromotionRoute>)
    ensures
        is_counted(rule, routes) <==> rule.counters is Some && exists|i: int|
            0 <= i < routes.len() && same_host(rule.host, (#[trigger] routes[i]).host@)
                && rule.path@ == routes[i].path@ && rule.path_type == routes[i].path_type,
{
}

/// Every rule that is counted adds its own counters, totals to totals and canary to
/// canary, and every other rule nothing. Without one that is counted there is no
/// reading.
pub proof fn a_reading_adds_rule_to_rule(
    rules: Seq<RuleCounters>,
    rule: RuleCounters,
    routes: Seq<PromotionRoute>,
)
    requires
        sums_fit(rules.push(rule), routes, (rules.len() + 1) as int),
    ensures
        ({
            let before = read_sum(rules, routes, rules.len() as int);
            let after = read_sum(rules.push(rule), routes, (rules.len() + 1) as int);
            &&& !is_counted(rule, routes) ==> after == before
            &&& is_counted(rule, routes) ==> {
                let (all, canary) = rule.counters->0;
                &&& after.totals.requests == before.totals.requests + all.requests
                &&& after.totals.errors_5xx == before.totals.errors_5xx + all.errors_5xx
                &&& after.totals.upstream_latency_micros == before.totals.upstream_latency_micros
                    + all.upstream_latency_micros
                &&& after.totals.upstream_latency_count == before.totals.upstream_latency_count
                    + all.upstream_latency_count
                &&& after.canary.requests == before.canary.requests + canary.requests
                &&& after.canary.errors_5xx == before.canary.errors_5xx + canary.errors_5xx
                &&& after.canary.upstream_latency_micros == before.canary.upstream_latency_micros
                    + canary.upstream_latency_micros
                &&& after.canary.upstream_latency_count == before.canary.upstream_latency_count
                    + canary.upstream_latency_count
            }
            &&& is_counted(rule, routes) ==> reading(rules.push(rule), routes) is Some
            &&& !is_counted(rule, routes) ==> (reading(rules.push(rule), routes) is Some
                <==> reading(rules, routes) is Some)
        }),
{
    let all = rules.push(rule);
    lemma_reading_of_fewer(rules, rule, routes, rules.len() as int);
    assert(all[rules.len() as int] == rule);
    if reading(rules, routes) is Some {
        let i = choose|i: int| 0 <= i < rules.len() && is_counted(#[trigger] rules[i], routes);
        assert(is_counted(all[i], routes));
    }
    if reading(all, routes) is Some && !is_counted(rule, routes) {
        let i = choose|i: int| 0 <= i < all.len() && is_counted(#[trigger] all[i], routes);
        assert(is_counted(rules[i], routes));
    }
}

proof fn lemma_reading_of_fewer(
    rules: Seq<RuleCounters>,
    rule: RuleCounters,
    routes: Seq<PromotionRoute>,
    n: int,
)
    requires
        0 <= n <= rules.len(),
    ensures
        read_sum(rules.push(rule), routes, n) == read_sum(rules, routes, n),
    decreases n,
{
    if n > 0 {
        lemma_reading_of_fewer(rules, rule, routes, n - 1);
        assert(rules.push(rule)[n - 1] == rules[n - 1]);
    }
}

/// What each verdict writes into the cluster. A step writes the new weight alone, a
/// promotion the status alone, and a rollback a weight of zero, the disarming and the
/// status with its reason, in one patch.
pub proof fn a_verdict_writes_its_own_annotations(to: u32, reason: Seq<char>)
    ensures
        written(VerdictView::Step { to }) == seq![
            ("nginx.ingress.kubernetes.io/canary-weight"@, text::decimal(to as nat)),
        ],
        written(VerdictView::Promote) == seq![
            ("ramjet.dev/auto-promote-status"@, "promoted"@),
        ],
        written(VerdictView::RollBack { reason }).len() == 3,
        written(VerdictView::RollBack { reason }).contains(
            ("nginx.ingress.kubernetes.io/canary-weight"@, "0"@),
        ),
        written(VerdictView::RollBack { reason }).contains(
            ("ramjet.dev/auto-promote"@, "false"@),
        ),
        written(VerdictView::RollBack { reason }).contains(
            ("ramjet.dev/auto-promote-status"@, "rolled-back"@ + ": "@ + reason),
        ),
{
    let all = written(VerdictView::RollBack { reason });
    assert(all[0] == ("nginx.ingress.kubernetes.io/canary-weight"@, "0"@));
    assert(all[1] == ("ramjet.dev/auto-promote"@, "false"@));
    assert(all[2] == ("ramjet.dev/auto-promote-status"@, "rolled-back"@ + ": "@ + reason));
}

/// A canary is finished exactly when its status says `promoted` or begins with
/// `rolled-back`.
pub proof fn a_status_is_final_in_two_ways(policy: PromotionAnnotations, rest: Seq<char>)
    ensures
        policy.status is None ==> !finished(policy),
        policy.status matches Some(status) ==> {
            &&& status@ == "promoted"@ ==> finished(policy)
            &&& status@ == "rolled-back"@ + rest ==> finished(policy)
            &&& finished(policy) && status@ != "promoted"@ ==> status@.len() >= 11 && status@.take(
                11,
            ) == "rolled-back"@
        },
{
    reveal_strlit("rolled-back");
    assert("rolled-back"@.len() == 11);
    assert(("rolled-back"@ + rest).take(11) =~= "rolled-back"@);
}

/// A canary is evaluated at most once in an interval: after a pass that evaluated it, a
/// pass at any moment before the interval is over leaves it, and one after that
/// evaluates it again.
pub proof fn a_canary_is_evaluated_once_an_interval(
    promoter: PromoterView,
    target: PromotionTarget,
    now: nat,
    later: nat,
    next: nat,
)
    requires
        promoter.considered(target, now, next).0,
        now + target.policy.interval@ <= u128::MAX,
        now <= later,
    ensures
        ({
            let after = promoter.considered(target, now, next).2;
            &&& later < now + target.policy.interval@ <==> !after.considered(target, later, next).0
            &&& later < now + target.policy.interval@ ==> after.considered(target, later, next).2
                == after
            &&& after.of(target.ingress@).baseline == promoter.of(target.ingress@).baseline
        }),
{
}

/// The loop never sleeps past the moment a canary is due, nor longer than it could
/// without it.
pub proof fn the_loop_wakes_in_time(
    promoter: PromoterView,
    target: PromotionTarget,
    now: nat,
    next: nat,
)
    requires
        !promoter.leaves(target),
        now + target.policy.interval@ <= u128::MAX,
    ensures
        ({
            let (evaluated, sleep, after) = promoter.considered(target, now, next);
            &&& sleep <= next
            &&& now + sleep <= after.due(target, now)
            &&& sleep == next || now + sleep == after.due(target, now)
        }),
{
}

/// A pin stops everything: what is remembered stays as it is. It is said once, and so is
/// that it is over.
pub proof fn a_pin_pauses_the_loop(promoter: PromoterView, live: Set<KeyView>)
    ensures
        ({
            let (first, held) = promoter.started(true, live);
            let (second, still) = held.started(true, live);
            let (third, going) = held.started(false, live);
            let (fourth, gone) = going.started(false, live);
            &&& held.memories == promoter.memories
            &&& !promoter.pinned_reported ==> first == Start::Paused
            &&& second == Start::StillPaused && still == held
            &&& third == Start::Resumed
            &&& fourth == Start::Ready
        }),
{
}

/// Only a patch that stuck finishes a canary, and only one that ended it: a step leaves
/// it armed, and a rollback that could not be written is tried again.
pub proof fn only_a_patch_that_stuck_finishes(
    promoter: PromoterView,
    target: PromotionTarget,
    verdict: VerdictView,
    patched: bool,
)
    requires
        !promoter.of(target.ingress@).finished,
    ensures
        promoter.settled(target, verdict, patched).of(target.ingress@).finished <==> patched && (
        verdict is Promote || verdict is RollBack),
        promoter.settled(target, verdict, patched).of(target.ingress@).baseline == promoter.of(
            target.ingress@,
        ).baseline,
        promoter.settled(target, verdict, patched).of(target.ingress@).due == promoter.of(
            target.ingress@,
        ).due,
{
}

/// A rollback says by how much: the canary's own share of errors against the budget,
/// in percent with two decimals, or its own mean latency against the ceiling, in
/// milliseconds with one.
pub proof fn a_rollback_says_its_numbers(
    policy: PromotionAnnotations,
    weight: u32,
    window: Window,
)
    requires
        judged(policy, weight, window) is RollBack,
    ensures
        ({
            let said = judged(policy, weight, window)->reason;
            let canary = window.canary;
            let stable = window.stable;
            let share = rounding::quotient(
                (canary.errors_5xx * 100) as nat,
                canary.requests as nat,
            );
            let budget = rounding::quotient(policy.max_5xx_percent as nat, 1_000_000);
            let mean = rounding::quotient(
                canary.upstream_latency_micros as nat,
                (canary.upstream_latency_count * 1000) as nat,
            );
            let usual = rounding::quotient(
                stable.upstream_latency_micros as nat,
                (stable.upstream_latency_count * 1000) as nat,
            );
            let factor = rounding::quotient(policy.max_latency_factor as nat, 1_000_000);
            ||| said == "5xx "@ + rounding::shown(share, 2) + "% over "@ + rounding::shown(
                budget,
                2,
            ) + "%"@
            ||| said == "latency "@ + rounding::shown(mean, 1) + "ms over "@ + rounding::shown(
                rounding::product(usual, factor),
                1,
            ) + "ms ("@ + rounding::shown(usual, 1) + "ms x "@ + rounding::shown(factor, 2) + ")"@
        }),
{
}

/// The weight that a patch reports is the weight that it writes; a promotion writes
/// none and leaves it. Each verdict has its own name in the audit trail.
pub proof fn a_patch_reports_the_weight_it_writes(weight: u32, to: u32, reason: Seq<char>)
    ensures
        written(VerdictView::Step { to })[0].1 == text::decimal(
            weight_after(weight, VerdictView::Step { to }) as nat,
        ),
        written(VerdictView::RollBack { reason })[0].1 == text::decimal(
            weight_after(weight, VerdictView::RollBack { reason }) as nat,
        ),
        weight_after(weight, VerdictView::Promote) == weight,
        called(VerdictView::Step { to }) == AuditReason::CanaryStepped,
        called(VerdictView::Promote) == AuditReason::CanaryPromoted,
        called(VerdictView::RollBack { reason }) == AuditReason::CanaryRolledBack,
{
    reveal_strlit("0");
    reveal_with_fuel(text::numeral, 2);
    assert(text::decimal(0) =~= "0"@);
}

/// What is said of a verdict names the weight before it, and the weight after it or
/// the reason.
pub proof fn a_verdict_is_told_with_its_weight(weight: u32, to: u32, reason: Seq<char>)
    ensures
        detail_of(weight, VerdictView::Step { to }) == "canary healthy; weight "@ + text::decimal(
            weight as nat,
        ) + " -> "@ + text::decimal(to as nat),
        detail_of(weight, VerdictView::Promote) == "canary healthy at "@ + text::decimal(
            weight as nat,
        ) + "%, the last step; swap the production backend when ready"@,
        detail_of(weight, VerdictView::RollBack { reason }) == "rolled back from "@ + text::decimal(
            weight as nat,
        ) + "%: "@ + reason,
{
}

/// A reading is remembered for the canary it was taken of, in the place of the one
/// before, and changes nothing else that is remembered.
pub proof fn a_reading_is_remembered(
    promoter: PromoterView,
    target: PromotionTarget,
    reading: Baseline,
    other: KeyView,
)
    ensures
        promoter.taken(target, reading).of(target.ingress@).baseline == Some(reading),
        promoter.taken(target, reading).of(target.ingress@).due == promoter.of(
            target.ingress@,
        ).due,
        promoter.taken(target, reading).of(target.ingress@).finished == promoter.of(
            target.ingress@,
        ).finished,
        other != target.ingress@ ==> promoter.taken(target, reading).of(other) == promoter.of(other),
{
}

/// The loop sleeps as long as nothing is due, but never less than a second, and half a
/// minute where nothing is.
pub proof fn the_loop_never_spins(next: nat)
    ensures
        next >= 1_000_000_000 ==> tick(next) == next,
        next < 1_000_000_000 ==> tick(next) == 1_000_000_000,
        IDLE_POLL_NANOS == 30 * 1_000_000_000,
{
}

/// A canary is written as its namespace, a slash and its name.
pub proof fn a_canary_is_written_with_its_namespace(key: KeyView)
    ensures
        key_text(key) == key.0 + seq!['/'] + key.1,
{
    reveal_strlit("/");
    assert("/"@ =~= seq!['/']);
}

/// Nothing is remembered of a canary that was never met: no reading, no time at which it
/// is due, and that it is not finished.
pub proof fn nothing_is_remembered_of_a_stranger(promoter: PromoterView, key: KeyView)
    requires
        !promoter.memories.contains_key(key),
    ensures
        promoter.of(key).baseline is None,
        promoter.of(key).due is None,
        !promoter.of(key).finished,
{
}

/// The names of some canaries are theirs and no others'.
pub proof fn a_live_canary_is_among_the_names(targets: Seq<PromotionTarget>, key: KeyView)
    ensures
        names(targets).contains(key) <==> exists|i: int|
            0 <= i < targets.len() && (#[trigger] targets[i]).ingress@ == key,
{
}

} // verus!
