//! Fixed-point text for quotients.
//!
//! Numbers that are printed with a fixed count of decimals go by the value that a
//! double-precision number has, so a reader who divides the same counts in floating
//! point sees the same digits. Doubles are modelled by their two integers, a
//! mantissa and an exponent.
use vstd::arithmetic::power2::pow2;
use vstd::prelude::*;
use crate::text;
use crate::text::{padded_numeral, push_numeral, push_text};

verus! {

/// `n / d` to the nearest integer, a half going to the even neighbour.
pub open spec fn nearest(n: nat, d: nat) -> nat {
    let whole = n / d;
    let rest = n % d;
    if 2 * rest < d {
        whole
    } else if 2 * rest > d {
        whole + 1
    } else {
        whole + whole % 2
    }
}

/// Divides to the nearest integer, a half going to the even neighbour.
pub fn divide(n: u128, d: u128) -> (r: u128)
    requires
        d > 0,
    ensures
        r == nearest(n as nat, d as nat),
{
    let whole: u128 = n / d;
    let rest: u128 = n % d;
    if rest == 0 {
        return whole;
    }
    assert(whole < u128::MAX) by (nonlinear_arith)
        requires
            whole == n / d,
            rest == n % d,
            rest != 0,
            d > 0,
            n <= u128::MAX,
    ;
    if rest < d - rest {
        whole
    } else if rest > d - rest {
        whole + 1
    } else {
        whole + whole % 2
    }
}

/// Ten to the power of `places`.
pub open spec fn ten_to(places: nat) -> nat
    decreases places,
{
    if places == 0 {
        1
    } else {
        10 * ten_to((places - 1) as nat)
    }
}

/// `n` units of the last of `places` decimals, as text.
pub open spec fn fixed(n: nat, places: nat) -> Seq<char> {
    text::decimal(n / ten_to(places)) + "."@ + text::zero_padded(
        text::decimal(n % ten_to(places)),
        places,
    )
}

/// Appends `n` units of the last of `places` decimals.
pub fn push_fixed(out: &mut String, n: u128, places: u32)
    requires
        1 <= places <= 9,
    ensures
        final(out)@ == old(out)@ + fixed(n as nat, places as nat),
{
    let mut unit: u64 = 1;
    let mut i: u32 = 0;
    while i < places
        invariant
            i <= places <= 9,
            unit == ten_to(i as nat),
            i == 0 ==> unit == 1,
            i == 1 ==> unit == 10,
            i == 2 ==> unit == 100,
            i == 3 ==> unit == 1_000,
            i == 4 ==> unit == 10_000,
            i == 5 ==> unit == 100_000,
            i == 6 ==> unit == 1_000_000,
            i == 7 ==> unit == 10_000_000,
            i == 8 ==> unit == 100_000_000,
            i == 9 ==> unit == 1_000_000_000,
        decreases places - i,
    {
        unit = unit * 10;
        i = i + 1;
    }
    push_numeral(out, n / (unit as u128), 10);
    push_text(out, ".");
    let part: u64 = (n % (unit as u128)) as u64;
    let digits = padded_numeral(part, 10, places as usize);
    push_text(out, digits.as_str());
    assert(out@ =~= old(out)@ + fixed(n as nat, places as nat));
}

/// Rounding moves a quotient by at most a half.
pub proof fn lemma_nearest(n: nat, d: nat)
    requires
        d > 0,
    ensures
        2 * (nearest(n, d) * d) <= 2 * n + d,
        2 * n <= 2 * (nearest(n, d) * d) + d,
{
    let whole = n / d;
    let rest = n % d;
    vstd::arithmetic::div_mod::lemma_fundamental_div_mod(n as int, d as int);
    vstd::arithmetic::mul::lemma_mul_is_commutative(d as int, whole as int);
    vstd::arithmetic::mul::lemma_mul_is_distributive_add_other_way(d as int, whole as int, 1);
    assert(rest < d);
}

/// A product that may not fit in 128 bits: how often it holds two to the power of
/// 64, and the rest.
fn wide_product(x: u128, m: u64) -> (r: (u128, u64))
    ensures
        r.0 * 0x1_0000_0000_0000_0000 + r.1 == x * m,
{
    let high: u128 = x / 0x1_0000_0000_0000_0000;
    let low: u128 = x % 0x1_0000_0000_0000_0000;
    assert(high < 0x1_0000_0000_0000_0000 && low < 0x1_0000_0000_0000_0000);
    assert(low * m <= 0xffff_ffff_ffff_ffff * 0xffff_ffff_ffff_ffff) by (nonlinear_arith)
        requires
            low <= 0xffff_ffff_ffff_ffff,
            m <= 0xffff_ffff_ffff_ffff,
    ;
    assert(high * m <= 0xffff_ffff_ffff_ffff * 0xffff_ffff_ffff_ffff) by (nonlinear_arith)
        requires
            high <= 0xffff_ffff_ffff_ffff,
            m <= 0xffff_ffff_ffff_ffff,
    ;
    let below: u128 = low * (m as u128);
    let above: u128 = high * (m as u128);
    let carry: u128 = below / 0x1_0000_0000_0000_0000;
    let rest: u128 = below % 0x1_0000_0000_0000_0000;
    assert(x * m == above * 0x1_0000_0000_0000_0000 + below) by (nonlinear_arith)
        requires
            x == high * 0x1_0000_0000_0000_0000 + low,
            above == high * m,
            below == low * m,
    ;
    (above + carry, rest as u64)
}

/// Compares two products without losing a bit: is `x * m` more than `y * f`?
pub fn product_exceeds(x: u128, m: u64, y: u128, f: u64) -> (r: bool)
    ensures
        r == (x * m > y * f),
{
    let (a, b) = wide_product(x, m);
    let (c, d) = wide_product(y, f);
    a > c || (a == c && b > d)
}

// ---------------------------------------------------------------------------
// Seconds, as a double-precision quotient
// ---------------------------------------------------------------------------

/// Two to the power of 53: integers below it are doubles.
pub const EXACT: u64 = 9_007_199_254_740_992;

/// The smallest scaled count of nanoseconds whose quotient by a second has 53
/// significant bits: two to the power of 52, times the nanoseconds in a second.
pub const FULL: u128 = 4_503_599_627_370_496_000_000_000;

/// Nanoseconds in a second.
pub const SECOND: u128 = 1_000_000_000;

/// The spacing of doubles at `n`, for integers of 53 bits or more.
pub open spec fn spacing(n: nat) -> nat
    decreases n,
{
    if n < EXACT {
        1
    } else {
        2 * spacing(n / 2)
    }
}

/// The double nearest to `n`.
pub open spec fn double(n: nat) -> nat {
    nearest(n, spacing(n)) * spacing(n)
}

/// The power of two that brings `m` to at least `FULL`.
pub open spec fn scale(m: nat) -> nat
    decreases
        (if m >= FULL {
            0
        } else {
            FULL - m
        }),
{
    if m == 0 || m >= FULL {
        1
    } else {
        2 * scale(2 * m)
    }
}

/// `nanos` nanoseconds in seconds as a double-precision quotient has them,
/// rounded to whole microseconds.
pub open spec fn shown_micros(nanos: nat) -> nat {
    let m = double(nanos);
    let k = scale(m);
    nearest(nearest(m * k, SECOND as nat) * 1_000_000, k)
}

/// `nanos` nanoseconds in seconds, with six decimals.
pub open spec fn seconds(nanos: nat) -> Seq<char> {
    fixed(shown_micros(nanos), 6)
}

fn to_double(n: u64) -> (r: u128)
    ensures
        r == double(n as nat),
        r <= n + 4096,
{
    let mut top: u64 = n;
    let mut unit: u128 = 1;
    while top >= EXACT
        invariant
            unit * spacing(top as nat) == spacing(n as nat),
            unit >= 1,
            top * unit <= n,
        decreases top,
    {
        assert(unit <= 2048) by (nonlinear_arith)
            requires
                top * unit <= n,
                top >= 9_007_199_254_740_992,
                n <= u64::MAX,
        ;
        assert(spacing(top as nat) == 2 * spacing(top as nat / 2));
        let ghost half = spacing(top as nat / 2);
        assert(unit * (2 * half) == (unit * 2) * half) by (nonlinear_arith);
        assert((top / 2) * (unit * 2) <= top * unit) by (nonlinear_arith)
            requires
                unit >= 1,
        ;
        top = top / 2;
        unit = unit * 2;
    }
    assert(unit * 1 == unit);
    assert(unit == spacing(n as nat));
    assert(unit <= 4096) by {
        lemma_spacing_is_small(n as nat, n as nat, 1);
    }
    let count: u128 = divide(n as u128, unit);
    proof {
        lemma_nearest(n as nat, unit as nat);
    }
    count * unit
}

/// Doubles are close together at 64-bit integers.
proof fn lemma_spacing_is_small(n: nat, top: nat, unit: nat)
    requires
        n <= u64::MAX,
        1 <= unit <= 4096,
        top * unit <= n,
    ensures
        unit * spacing(top) <= 4096,
    decreases top,
{
    if top >= EXACT {
        assert(unit <= 2047) by (nonlinear_arith)
            requires
                top * unit <= n,
                n <= 18_446_744_073_709_551_615,
                top >= 9_007_199_254_740_992,
        ;
        assert((top / 2) * (unit * 2) <= top * unit) by (nonlinear_arith);
        lemma_spacing_is_small(n, top / 2, unit * 2);
        let half = spacing(top / 2);
        assert(unit * (2 * half) == (unit * 2) * half) by (nonlinear_arith);
    } else {
        assert(unit * 1 == unit);
    }
}

/// Appends `nanos` nanoseconds in seconds, with six decimals.
pub fn push_seconds(out: &mut String, nanos: u64)
    ensures
        final(out)@ == old(out)@ + seconds(nanos as nat),
{
    let m: u128 = to_double(nanos);
    let mut scaled: u128 = m;
    let mut k: u128 = 1;
    assert(m * 1 == m);
    while scaled != 0 && scaled < FULL
        invariant
            m * k == scaled,
            k >= 1,
            m <= u64::MAX + 4096,
            scaled < 2 * FULL,
            k < 2 * FULL,
            k * scale(scaled as nat) == scale(m as nat),
        decreases 2 * FULL - scaled,
    {
        proof {
            let rest = scale(2 * scaled as nat);
            assert(k * (2 * rest) == (k * 2) * rest) by (nonlinear_arith);
            assert(m * (k * 2) == (m * k) * 2) by (nonlinear_arith);
            assert(k <= scaled) by (nonlinear_arith)
                requires
                    m * k == scaled,
                    scaled != 0,
                    m >= 0,
                    k >= 1,
            ;
        }
        scaled = scaled * 2;
        k = k * 2;
    }
    assert(k * 1 == k);
    proof {
        lemma_nearest(scaled as nat, SECOND as nat);
    }
    let quotient: u128 = divide(scaled, SECOND);
    assert(quotient * SECOND <= scaled + SECOND);
    let micros: u128 = divide(quotient * 1_000_000, k);
    push_fixed(out, micros, 6);
}

// ---------------------------------------------------------------------------
// Doubles
// ---------------------------------------------------------------------------

/// Two to the power of 52: a mantissa has at least this much, but for zero.
pub const FULL_MANTISSA: u64 = 4_503_599_627_370_496;

/// The most that a dividend may be.
pub const MAX_DIVIDEND: u128 = 81_129_638_414_606_681_695_789_005_144_064;

/// The most that a divisor may be.
pub const MAX_DIVISOR: u128 = 18_889_465_931_478_580_854_784;

/// A double-precision number: the mantissa times two to the power of the exponent.
#[verifier::ext_equal]
pub struct DoubleView {
    pub mantissa: nat,
    pub exponent: int,
}

/// The double nearest to `n / d`, a half going to the even mantissa: the quotient is
/// halved or doubled until it has 53 bits before the point, and is then rounded.
pub open spec fn quotient(n: nat, d: nat) -> DoubleView
    decreases
        (if n >= EXACT * d {
            n - d
        } else if n < FULL_MANTISSA * d {
            FULL_MANTISSA * d - n
        } else {
            0
        }),
    when d > 0
{
    if n == 0 {
        DoubleView { mantissa: 0, exponent: 0 }
    } else if n >= EXACT * d {
        let half = quotient(n, 2 * d);
        DoubleView { mantissa: half.mantissa, exponent: half.exponent + 1 }
    } else if n < FULL_MANTISSA * d {
        let twice = quotient(2 * n, d);
        DoubleView { mantissa: twice.mantissa, exponent: twice.exponent - 1 }
    } else {
        DoubleView { mantissa: nearest(n, d), exponent: 0 }
    }
}

/// The double nearest to the product of two.
pub open spec fn product(a: DoubleView, b: DoubleView) -> DoubleView {
    let whole = quotient(a.mantissa * b.mantissa, 1);
    DoubleView {
        mantissa: whole.mantissa,
        exponent: whole.exponent + a.exponent + b.exponent,
    }
}

/// A double in units of the last of `places` decimals, to the nearest one.
pub open spec fn units(x: DoubleView, places: nat) -> nat {
    if x.exponent >= 0 {
        x.mantissa * ten_to(places) * pow2(x.exponent as nat)
    } else {
        nearest(x.mantissa * ten_to(places), pow2((-x.exponent) as nat))
    }
}

/// A double with `places` decimals.
pub open spec fn shown(x: DoubleView, places: nat) -> Seq<char> {
    fixed(units(x, places), places)
}

/// A double-precision number that is not negative.
#[derive(Debug, Clone, Copy)]
pub struct Double {
    mantissa: u64,
    exponent: i32,
}

impl View for Double {
    type V = DoubleView;

    closed spec fn view(&self) -> DoubleView {
        DoubleView { mantissa: self.mantissa as nat, exponent: self.exponent as int }
    }
}

/// A quotient below two to the power of `53 + c` has an exponent of at most `c`.
pub proof fn lemma_exponent_is_at_most(n: nat, d: nat, c: nat)
    requires
        d > 0,
        n < EXACT * d * pow2(c),
    ensures
        quotient(n, d).exponent <= c,
    decreases c,
{
    if n >= EXACT * d {
        if c == 0 {
            vstd::arithmetic::power2::lemma2_to64();
            assert(EXACT * d * pow2(0) == EXACT * d) by (nonlinear_arith)
                requires
                    pow2(0) == 1,
            ;
        } else {
            vstd::arithmetic::power2::lemma_pow2_unfold(c);
            let rest = pow2((c - 1) as nat);
            assert(EXACT * d * (2 * rest) == EXACT * (2 * d) * rest) by (nonlinear_arith);
            lemma_exponent_is_at_most(n, 2 * d, (c - 1) as nat);
        }
    } else if n != 0 && n < FULL_MANTISSA * d {
        vstd::arithmetic::power2::lemma2_to64();
        assert(EXACT * d * pow2(0) == EXACT * d) by (nonlinear_arith)
            requires
                pow2(0) == 1,
        ;
        lemma_small_exponent(n, d);
    }
}

/// A quotient below two to the power of 53 has no positive exponent.
proof fn lemma_small_exponent(n: nat, d: nat)
    requires
        d > 0,
        n < EXACT * d,
    ensures
        quotient(n, d).exponent <= 0,
    decreases
        (if n < FULL_MANTISSA * d {
            FULL_MANTISSA * d - n
        } else {
            0
        }),
{
    if n != 0 && n < FULL_MANTISSA * d {
        lemma_small_exponent(2 * n, d);
    }
}

/// A quotient of at least two to the power of `52 - c` has an exponent of at least
/// `-c`.
proof fn lemma_exponent_is_at_least(n: nat, d: nat, c: nat)
    requires
        d > 0,
        n * pow2(c) >= FULL_MANTISSA * d,
    ensures
        quotient(n, d).exponent >= -c,
    decreases c,
{
    vstd::arithmetic::power2::lemma2_to64();
    assert(n * 1 == n);
    if n != 0 && n < FULL_MANTISSA * d {
        vstd::arithmetic::power2::lemma_pow2_unfold(c);
        let rest = pow2((c - 1) as nat);
        assert(n * (2 * rest) == (2 * n) * rest) by (nonlinear_arith);
        lemma_exponent_is_at_least(2 * n, d, (c - 1) as nat);
    } else if n >= EXACT * d {
        lemma_large_exponent(n, d);
    }
}

/// A quotient of at least two to the power of 52 has no negative exponent.
proof fn lemma_large_exponent(n: nat, d: nat)
    requires
        d > 0,
        n >= FULL_MANTISSA * d,
    ensures
        quotient(n, d).exponent >= 0,
    decreases n - d,
{
    if n >= EXACT * d {
        lemma_large_exponent(n, 2 * d);
    }
}

/// Rounding a quotient below two to the power of 53 keeps it there, or makes it that.
proof fn lemma_mantissa(n: nat, d: nat)
    requires
        d > 0,
        n < EXACT * d,
    ensures
        nearest(n, d) <= EXACT,
{
    assert(n / d < EXACT) by (nonlinear_arith)
        requires
            d > 0,
            n < EXACT * d,
    ;
}

impl Double {
    /// The double nearest to `n / d`.
    pub fn quotient(n: u128, d: u128) -> (r: Double)
        requires
            0 < d <= MAX_DIVISOR,
            n <= MAX_DIVIDEND,
        ensures
            r@ == quotient(n as nat, d as nat),
            r@.mantissa <= EXACT,
            -126 <= r@.exponent <= 54,
    {
        if n == 0 {
            return Double { mantissa: 0, exponent: 0 };
        }
        proof {
            lemma_exponents_are_bounded(n as nat, d as nat);
        }
        let ghost whole = quotient(n as nat, d as nat);
        let mut divisor: u128 = d;
        let mut exponent: i32 = 0;
        while n >= EXACT as u128 * divisor
            invariant
                0 < n <= MAX_DIVIDEND,
                0 < divisor <= MAX_DIVISOR || n >= FULL_MANTISSA * divisor,
                whole.mantissa == quotient(n as nat, divisor as nat).mantissa,
                whole.exponent == quotient(n as nat, divisor as nat).exponent + exponent,
                0 < divisor,
                exponent >= 0,
                exponent > 0 ==> n >= FULL_MANTISSA * divisor,
                whole.exponent <= 54,
            decreases n - divisor,
        {
            proof {
                assert(FULL_MANTISSA * (2 * divisor) == EXACT * divisor);
                lemma_large_exponent(n as nat, (2 * divisor) as nat);
            }
            divisor = divisor * 2;
            exponent = exponent + 1;
        }
        let mut dividend: u128 = n;
        while dividend < FULL_MANTISSA as u128 * divisor
            invariant
                0 < dividend < EXACT * divisor,
                0 < divisor,
                divisor <= MAX_DIVISOR || dividend >= FULL_MANTISSA * divisor,
                divisor <= MAX_DIVISOR || n >= FULL_MANTISSA * divisor,
                n <= MAX_DIVIDEND,
                whole.mantissa == quotient(dividend as nat, divisor as nat).mantissa,
                whole.exponent == quotient(dividend as nat, divisor as nat).exponent + exponent,
                exponent <= 54,
                -126 <= whole.exponent <= 54,
            decreases EXACT * divisor - dividend,
        {
            proof {
                lemma_small_exponent((2 * dividend) as nat, divisor as nat);
            }
            dividend = dividend * 2;
            exponent = exponent - 1;
        }
        proof {
            lemma_mantissa(dividend as nat, divisor as nat);
        }
        let mantissa: u64 = divide(dividend, divisor) as u64;
        Double { mantissa, exponent }
    }

    /// The double nearest to the product of two.
    pub fn product(self, other: Double) -> (r: Double)
        requires
            self@.mantissa <= EXACT,
            other@.mantissa <= EXACT,
            -126 <= self@.exponent <= 54,
            -126 <= other@.exponent <= 54,
        ensures
            r@ == product(self@, other@),
            r@.mantissa <= EXACT,
            r@.exponent <= self@.exponent + other@.exponent + 54,
            -378 <= r@.exponent,
    {
        assert(self.mantissa * other.mantissa <= MAX_DIVIDEND) by (nonlinear_arith)
            requires
                self.mantissa <= 9_007_199_254_740_992,
                other.mantissa <= 9_007_199_254_740_992,
                MAX_DIVIDEND == 81_129_638_414_606_681_695_789_005_144_064,
        ;
        let whole = Double::quotient(self.mantissa as u128 * other.mantissa as u128, 1);
        Double {
            mantissa: whole.mantissa,
            exponent: whole.exponent + self.exponent + other.exponent,
        }
    }

    /// Appends a double with `places` decimals.
    pub fn push_shown(self, out: &mut String, places: u32)
        requires
            1 <= places <= 2,
            self@.mantissa <= EXACT,
            -378 <= self@.exponent <= 60,
        ensures
            final(out)@ == old(out)@ + shown(self@, places as nat),
    {
        reveal_with_fuel(ten_to, 3);
        let unit: u128 = if places == 1 {
            10
        } else {
            100
        };
        let count: u128 = self.mantissa as u128 * unit;
        if self.exponent >= 0 {
            let power: u128 = power_of_two(self.exponent as u32);
            assert(count * power <= u128::MAX) by (nonlinear_arith)
                requires
                    count <= 900_719_925_474_099_200,
                    power <= 1_152_921_504_606_846_976,
            ;
            push_fixed(out, count * power, places);
        } else if self.exponent >= -126 {
            let power: u128 = power_of_two((-self.exponent) as u32);
            push_fixed(out, divide(count, power), places);
        } else {
            proof {
                vstd::arithmetic::power2::lemma2_to64_rest();
                let power = pow2((-self.exponent) as nat);
                vstd::arithmetic::power2::lemma_pow2_strictly_increases(
                    63,
                    (-self.exponent) as nat,
                );
                vstd::arithmetic::div_mod::lemma_basic_div(count as int, power as int);
                vstd::arithmetic::div_mod::lemma_small_mod(count as nat, power);
            }
            push_fixed(out, 0, places);
        }
    }
}

fn power_of_two(e: u32) -> (r: u128)
    requires
        e <= 126,
    ensures
        r == pow2(e as nat),
        r > 0,
        e <= 60 ==> r <= 1_152_921_504_606_846_976,
{
    let mut power: u128 = 1;
    let mut i: u32 = 0;
    proof {
        vstd::arithmetic::power2::lemma2_to64();
        vstd::arithmetic::power2::lemma2_to64_rest();
        vstd::arithmetic::power2::lemma_pow2_adds(63, 63);
        assert(pow2(63) * pow2(63) == 85_070_591_730_234_615_865_843_651_857_942_052_864) by (
            nonlinear_arith)
            requires
                pow2(63) == 9_223_372_036_854_775_808,
        ;
    }
    while i < e
        invariant
            i <= e <= 126,
            power == pow2(i as nat),
            power > 0,
            pow2(126) == 85_070_591_730_234_615_865_843_651_857_942_052_864,
        decreases e - i,
    {
        proof {
            vstd::arithmetic::power2::lemma_pow2_strictly_increases(i as nat, 126);
            vstd::arithmetic::power2::lemma_pow2_unfold((i + 1) as nat);
        }
        power = power * 2;
        i = i + 1;
    }
    proof {
        if e < 60 {
            vstd::arithmetic::power2::lemma_pow2_strictly_increases(e as nat, 60);
        }
    }
    power
}

/// The exponents of the quotients that can be made.
proof fn lemma_exponents_are_bounded(n: nat, d: nat)
    requires
        0 < d <= MAX_DIVISOR,
        0 < n <= MAX_DIVIDEND,
    ensures
        -126 <= quotient(n, d).exponent <= 54,
{
    vstd::arithmetic::power2::lemma2_to64();
    vstd::arithmetic::power2::lemma2_to64_rest();
    assert(pow2(54) == 18_014_398_509_481_984);
    assert(n < EXACT * d * pow2(54)) by (nonlinear_arith)
        requires
            n <= 81_129_638_414_606_681_695_789_005_144_064,
            d >= 1,
            pow2(54) == 18_014_398_509_481_984,
            EXACT == 9_007_199_254_740_992,
    ;
    lemma_exponent_is_at_most(n, d, 54);
    vstd::arithmetic::power2::lemma_pow2_adds(63, 63);
    assert(n * pow2(126) >= FULL_MANTISSA * d) by (nonlinear_arith)
        requires
            n >= 1,
            d <= 18_889_465_931_478_580_854_784,
            pow2(126) == pow2(63) * pow2(63),
            pow2(63) == 9_223_372_036_854_775_808,
            FULL_MANTISSA == 4_503_599_627_370_496,
    ;
    lemma_exponent_is_at_least(n, d, 126);
}

// ---------------------------------------------------------------------------
// How near the text is to the number
// ---------------------------------------------------------------------------

/// A quotient is rounded to a neighbour that is no more than a half away, and where
/// both are a half away it is the even one.
pub proof fn a_quotient_goes_to_its_nearest_neighbour(n: nat, d: nat)
    requires
        d > 0,
    ensures
        2 * (nearest(n, d) * d) <= 2 * n + d,
        2 * n <= 2 * (nearest(n, d) * d) + d,
        2 * (nearest(n, d) * d) == 2 * n + d || 2 * n == 2 * (nearest(n, d) * d) + d ==> nearest(
            n,
            d,
        ) % 2 == 0,
{
    lemma_nearest(n, d);
    let whole = n / d;
    let rest = n % d;
    vstd::arithmetic::div_mod::lemma_fundamental_div_mod(n as int, d as int);
    vstd::arithmetic::mul::lemma_mul_is_commutative(d as int, whole as int);
    vstd::arithmetic::mul::lemma_mul_is_distributive_add_other_way(d as int, whole as int, 1);
    if 2 * rest == d {
        assert((whole + whole % 2) % 2 == 0);
    }
}

proof fn lemma_ten_to(places: nat)
    ensures
        ten_to(places) == vstd::arithmetic::power::pow(10, places),
        ten_to(places) > 0,
    decreases places,
{
    reveal(vstd::arithmetic::power::pow);
    if places > 0 {
        lemma_ten_to((places - 1) as nat);
    }
}

/// Text with a fixed count of decimals reads back: what stands in front of the point
/// counts units, and behind the point stand as many digits as there are decimals.
pub proof fn a_fixed_text_reads_back(n: nat, places: nat)
    requires
        places >= 1,
    ensures
        ({
            let s = fixed(n, places);
            let point = text::first_index(s, '.');
            &&& point < s.len()
            &&& s.skip(point + 1).len() == places
            &&& text::number_value(s.take(point), 10) * ten_to(places) + text::number_value(
                s.skip(point + 1),
                10,
            ) == n
        }),
{
    reveal_strlit(".");
    lemma_ten_to(places);
    let unit = ten_to(places);
    let whole = text::decimal(n / unit);
    let part = text::zero_padded(text::decimal(n % unit), places);
    let s = fixed(n, places);
    let point = whole.len() as int;
    text::lemma_numeral_reads_back(n / unit, 10);
    text::padding_keeps_the_number(n % unit, 10, places);
    assert(n % unit < unit);
    text::lemma_numeral_length(n % unit, 10, unit, places);
    assert forall|j: int| 0 <= j < point implies #[trigger] s[j] != '.' by {
        assert(s[j] == whole[j]);
        assert(text::digit_value(whole[j], 10) is Some);
    }
    assert(s[point] == '.');
    text::lemma_first_index(s, '.', point);
    assert(s.take(point) =~= whole);
    assert(s.skip(point + 1) =~= part);
    vstd::arithmetic::div_mod::lemma_fundamental_div_mod(n as int, unit as int);
    vstd::arithmetic::mul::lemma_mul_is_commutative(unit as int, (n / unit) as int);
}

proof fn lemma_scale_is_enough(m: nat)
    requires
        m > 0,
    ensures
        m * scale(m) >= FULL,
        scale(m) >= 1,
    decreases
        (if m >= FULL {
            0
        } else {
            FULL - m
        }),
{
    if m < FULL {
        lemma_scale_is_enough(2 * m);
        assert(m * (2 * scale(2 * m)) == (2 * m) * scale(2 * m)) by (nonlinear_arith);
    } else {
        assert(m * 1 == m);
    }
}

/// The seconds that are shown have the nearest microsecond: up to a hundred days,
/// they are no more than half a microsecond from the nanoseconds that were counted.
pub proof fn seconds_show_the_nearest_microsecond(nanos: nat)
    requires
        nanos < 9_007_199_254_740_992,
    ensures
        shown_micros(nanos) * 1000 <= nanos + 500,
        nanos <= shown_micros(nanos) * 1000 + 500,
        seconds(nanos) == fixed(shown_micros(nanos), 6),
{
    let m = double(nanos);
    assert(spacing(nanos) == 1);
    vstd::arithmetic::div_mod::lemma_fundamental_div_mod(nanos as int, 1);
    assert(nearest(nanos, 1) == nanos);
    assert(m == nanos * 1);
    let k = scale(m);
    if m == 0 {
        assert(m * k == 0);
        assert(nearest(0, SECOND as nat) == 0);
        assert(nearest(0, k) == 0);
    } else {
        lemma_scale_is_enough(m);
        assert(k > 500_000_000) by (nonlinear_arith)
            requires
                m * k >= 4_503_599_627_370_496_000_000_000,
                0 < m < 9_007_199_254_740_992,
        ;
        let q = nearest(m * k, SECOND as nat);
        lemma_nearest(m * k, SECOND as nat);
        let r = nearest(q * 1_000_000, k);
        lemma_nearest(q * 1_000_000, k);
        assert(r == shown_micros(nanos));
        assert(2 * (r * 1000) < 2 * m + 1002) by (nonlinear_arith)
            requires
                2 * (r * k) <= 2 * (q * 1_000_000) + k,
                2 * (q * 1_000_000_000) <= 2 * (m * k) + 1_000_000_000,
                k > 500_000_000,
        ;
        assert(2 * m < 2 * (r * 1000) + 1002) by (nonlinear_arith)
            requires
                2 * (q * 1_000_000) <= 2 * (r * k) + k,
                2 * (m * k) <= 2 * (q * 1_000_000_000) + 1_000_000_000,
                k > 500_000_000,
        ;
    }
}

proof fn lemma_double_power(a: nat)
    ensures
        pow2(a + 1) == 2 * pow2(a),
        pow2(a) > 0,
{
    vstd::arithmetic::power2::lemma_pow2_unfold(a + 1);
    vstd::arithmetic::power2::lemma_pow2_pos(a);
}

/// The double of a quotient is the nearest there is: written with two powers of two
/// whose exponents differ by its own, it is no more than half a unit of its last bit
/// away from the quotient, and its mantissa has 53 bits.
pub proof fn a_double_is_the_nearest_there_is(n: nat, d: nat, a: nat, b: nat)
    requires
        n > 0,
        d > 0,
        a - b == quotient(n, d).exponent,
    ensures
        4_503_599_627_370_496 <= quotient(n, d).mantissa <= 9_007_199_254_740_992,
        2 * (quotient(n, d).mantissa * (pow2(a) * d)) <= 2 * (n * pow2(b)) + pow2(a) * d,
        2 * (n * pow2(b)) <= 2 * (quotient(n, d).mantissa * (pow2(a) * d)) + pow2(a) * d,
    decreases
        (if n >= EXACT * d {
            n - d
        } else if n < FULL_MANTISSA * d {
            FULL_MANTISSA * d - n
        } else {
            0
        }),
{
    let m = quotient(n, d).mantissa;
    if n >= EXACT * d {
        if a >= 1 {
            let c = (a - 1) as nat;
            lemma_double_power(c);
            a_double_is_the_nearest_there_is(n, 2 * d, c, b);
            assert(pow2(c) * (2 * d) == pow2(a) * d) by (nonlinear_arith)
                requires
                    pow2(a) == 2 * pow2(c),
            ;
        } else {
            lemma_double_power(b);
            a_double_is_the_nearest_there_is(n, 2 * d, a, b + 1);
            assert(pow2(a) * (2 * d) == 2 * (pow2(a) * d)) by (nonlinear_arith);
            let x = pow2(a) * d;
            assert(m * (2 * x) == 2 * (m * x)) by (nonlinear_arith);
            assert(n * pow2(b + 1) == 2 * (n * pow2(b))) by (nonlinear_arith)
                requires
                    pow2(b + 1) == 2 * pow2(b),
            ;
        }
    } else if n < FULL_MANTISSA * d {
        if b >= 1 {
            let c = (b - 1) as nat;
            lemma_double_power(c);
            a_double_is_the_nearest_there_is(2 * n, d, a, c);
            assert((2 * n) * pow2(c) == n * pow2(b)) by (nonlinear_arith)
                requires
                    pow2(b) == 2 * pow2(c),
            ;
        } else {
            lemma_double_power(a);
            a_double_is_the_nearest_there_is(2 * n, d, a + 1, b);
            let x = pow2(a) * d;
            assert(pow2(a + 1) * d == 2 * x) by (nonlinear_arith)
                requires
                    pow2(a + 1) == 2 * pow2(a),
                    x == pow2(a) * d,
            ;
            assert(m * (2 * x) == 2 * (m * x)) by (nonlinear_arith);
            assert((2 * n) * pow2(b) == 2 * (n * pow2(b))) by (nonlinear_arith);
        }
    } else {
        lemma_mantissa(n, d);
        lemma_nearest(n, d);
        assert(m == nearest(n, d));
        assert(a == b);
        lemma_double_power(a);
        let x = pow2(a);
        assert(2 * (m * (x * d)) <= 2 * (n * x) + x * d) by (nonlinear_arith)
            requires
                2 * (m * d) <= 2 * n + d,
                x > 0,
        ;
        assert(2 * (n * x) <= 2 * (m * (x * d)) + x * d) by (nonlinear_arith)
            requires
                2 * n <= 2 * (m * d) + d,
                x > 0,
        ;
        assert(n / d >= FULL_MANTISSA) by (nonlinear_arith)
            requires
                n >= FULL_MANTISSA * d,
                d > 0,
        ;
    }
}

/// A double is shown to the nearest unit of its last decimal, and exactly where it
/// is a whole number.
pub proof fn a_double_is_shown_to_its_nearest_unit(x: DoubleView, places: nat)
    ensures
        x.exponent >= 0 ==> units(x, places) == x.mantissa * ten_to(places) * pow2(
            x.exponent as nat,
        ),
        x.exponent < 0 ==> {
            let whole = pow2((-x.exponent) as nat);
            &&& 2 * (units(x, places) * whole) <= 2 * (x.mantissa * ten_to(places)) + whole
            &&& 2 * (x.mantissa * ten_to(places)) <= 2 * (units(x, places) * whole) + whole
        },
        shown(x, places) == fixed(units(x, places), places),
        ten_to(1) == 10,
        ten_to(2) == 100,
        ten_to(6) == 1_000_000,
{
    reveal_with_fuel(ten_to, 7);
    if x.exponent < 0 {
        vstd::arithmetic::power2::lemma_pow2_pos((-x.exponent) as nat);
        lemma_nearest(x.mantissa * ten_to(places), pow2((-x.exponent) as nat));
    }
}

} // verus!
