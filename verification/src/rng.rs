//! A source of random words for load balancing and sampling.
//!
//! This is xorshift64, one generator per thread. It is not cryptographic: its
//! callers are endpoint selection, the canary and mirror rolls, and request ids,
//! all of which need "spread out" rather than "unpredictable".
//!
//! A generator is a value. Whoever owns the thread keeps one and passes it in, so
//! every function here is determined by its arguments.
use vstd::prelude::*;
use crate::text;

verus! {

/// The golden-ratio increment, used to tell apart threads seeded in the same
/// nanosecond and as the seed when the clock cannot be read.
pub const GOLDEN: u64 = 0x9E37_79B9_7F4A_7C15;

/// The state of one generator. It is never zero, which is the one state xorshift
/// cannot leave.
#[derive(Debug)]
pub struct Rng {
    state: u64,
}

/// SplitMix64's finalizer.
pub open spec fn mixed(z: u64) -> u64 {
    let a = ((z ^ (z >> 30)) as int * 0xBF58_476D_1CE4_E5B9 % 0x1_0000_0000_0000_0000) as u64;
    let b = ((a ^ (a >> 27)) as int * 0x94D0_49BB_1331_11EB % 0x1_0000_0000_0000_0000) as u64;
    b ^ (b >> 31)
}

/// SplitMix64's finalizer, used to smear the seed material.
fn mix(z: u64) -> (r: u64)
    ensures
        r == mixed(z),
{
    let a: u64 = (z ^ (z >> 30)).wrapping_mul(0xBF58_476D_1CE4_E5B9);
    let b: u64 = (a ^ (a >> 27)).wrapping_mul(0x94D0_49BB_1331_11EB);
    b ^ (b >> 31)
}

/// The state after `x`, which is also the word it yields.
pub open spec fn step(x: u64) -> u64 {
    let a = x ^ (x << 13);
    let b = a ^ (a >> 7);
    b ^ (b << 17)
}

/// A state that is not zero is followed by one that is not, so the generator never
/// gets stuck.
pub proof fn a_nonzero_state_stays_nonzero(x: u64)
    requires
        x != 0,
    ensures
        step(x) != 0,
{
    let a = x ^ (x << 13);
    let b = a ^ (a >> 7);
    assert(a != 0) by (bit_vector)
        requires
            x != 0u64,
            a == x ^ (x << 13),
    ;
    assert(b != 0) by (bit_vector)
        requires
            a != 0u64,
            b == a ^ (a >> 7),
    ;
    assert(b ^ (b << 17) != 0) by (bit_vector)
        requires
            b != 0u64,
    ;
}

/// Two different states never yield the same word: a draw loses nothing.
pub proof fn different_states_yield_different_words(x: u64, y: u64)
    requires
        x != y,
    ensures
        step(x) != step(y),
{
    let a = x ^ (x << 13);
    let c = y ^ (y << 13);
    let b = a ^ (a >> 7);
    let d = c ^ (c >> 7);
    assert(a != c) by (bit_vector)
        requires
            x != y,
            a == x ^ (x << 13),
            c == y ^ (y << 13),
    ;
    assert(b != d) by (bit_vector)
        requires
            a != c,
            b == a ^ (a >> 7),
            d == c ^ (c >> 7),
    ;
    assert(b ^ (b << 17) != d ^ (d << 17)) by (bit_vector)
        requires
            b != d,
    ;
}

impl Rng {
    /// The state the next word is drawn from.
    pub closed spec fn state(&self) -> u64 {
        self.state
    }

    /// Whether the generator can be drawn from.
    pub open spec fn wf(&self) -> bool {
        self.state() != 0
    }
}

/// A generator for one thread.
///
/// `nanos` is the time since the Unix epoch, or `None` when the clock is before
/// it, and `thread` counts the generators made so far.
pub fn seed(nanos: Option<u64>, thread: u64) -> (r: Rng)
    ensures
        r.wf(),
        r.state() == mixed(
            nanos.unwrap_or(GOLDEN) ^ ((thread * GOLDEN) % 0x1_0000_0000_0000_0000) as u64,
        ) | 1,
{
    let base: u64 = nanos.unwrap_or(GOLDEN);
    let smeared: u64 = mix(base ^ thread.wrapping_mul(GOLDEN));
    assert(smeared | 1 != 0) by (bit_vector);
    Rng { state: smeared | 1 }
}

/// Draws the next word.
pub fn next_u64(rng: &mut Rng) -> (r: u64)
    requires
        old(rng).wf(),
    ensures
        r == step(old(rng).state()),
        final(rng).state() == r,
        final(rng).wf(),
{
    let x: u64 = rng.state;
    proof {
        a_nonzero_state_stays_nonzero(x);
    }
    let a: u64 = x ^ (x << 13);
    let b: u64 = a ^ (a >> 7);
    let c: u64 = b ^ (b << 17);
    rng.state = c;
    c
}

/// A word scaled down to below a bound.
pub open spec fn scaled(word: u64, bound: u32) -> int {
    (word * bound) / 0x1_0000_0000_0000_0000
}

/// Draws a word in `0..bound`, or gives `0` without drawing when `bound` is zero.
///
/// The word is scaled down by a multiplication and a shift rather than by a
/// remainder.
pub fn below(rng: &mut Rng, bound: u32) -> (r: u32)
    requires
        old(rng).wf(),
    ensures
        final(rng).wf(),
        bound == 0 ==> r == 0 && final(rng).state() == old(rng).state(),
        bound > 0 ==> r < bound && r == step(old(rng).state()) * bound / 0x1_0000_0000_0000_0000
            && final(rng).state() == step(old(rng).state()),
        bound > 0 ==> r == scaled(step(old(rng).state()), bound),
{
    if bound == 0 {
        return 0;
    }
    let word: u64 = next_u64(rng);
    assert(word as u128 * bound as u128 <= 0xffff_ffff_ffff_ffff * 0xffff_ffff) by (nonlinear_arith)
        requires
            word <= 0xffff_ffff_ffff_ffff,
            bound <= 0xffff_ffff,
    ;
    let product: u128 = word as u128 * bound as u128;
    proof {
        assert(word * bound < 0x1_0000_0000_0000_0000 * bound) by (nonlinear_arith)
            requires
                word < 0x1_0000_0000_0000_0000,
                bound > 0,
        ;
    }
    (product / 0x1_0000_0000_0000_0000) as u32
}

/// A word as sixteen hexadecimal digits, in ASCII.
pub open spec fn hex_word(word: u64) -> Seq<u8> {
    text::low_digits(word as nat, 16, 16).map_values(|c: char| c as u8)
}

/// Writes 32 lower-case hexadecimal characters of randomness: two words, the first
/// drawn in front.
pub fn hex_id(rng: &mut Rng, out: &mut [u8; 32])
    requires
        old(rng).wf(),
    ensures
        final(rng).wf(),
        final(rng).state() == step(step(old(rng).state())),
        final(out)@ == hex_word(step(old(rng).state())) + hex_word(step(step(old(rng).state()))),
{
    let hi: u64 = next_u64(rng);
    let lo: u64 = next_u64(rng);
    let first = hex_digits(hi);
    let second = hex_digits(lo);
    let mut i: usize = 0;
    while i < 16
        invariant
            i <= 16,
            first@ == hex_word(hi),
            second@ == hex_word(lo),
            first@.len() == 16,
            second@.len() == 16,
            forall|j: int| 0 <= j < i ==> out@[j] == first@[j],
            forall|j: int| 0 <= j < i ==> out@[16 + j] == second@[j],
        decreases 16 - i,
    {
        out[i] = first[i];
        out[16 + i] = second[i];
        i = i + 1;
    }
    proof {
        assert forall|j: int| 0 <= j < 32 implies out@[j] == (first@ + second@)[j] by {
            if j >= 16 {
                assert(out@[16 + (j - 16)] == second@[j - 16]);
            }
        }
        assert(out@ =~= first@ + second@);
    }
}

/// How many digits `low_digits` gives.
proof fn lemma_low_digits_len(n: nat, radix: nat, width: nat)
    requires
        radix > 0,
    ensures
        text::low_digits(n, radix, width).len() == width,
    decreases width,
{
    if width > 0 {
        lemma_low_digits_len(n / radix, radix, (width - 1) as nat);
    }
}

/// A word as sixteen hexadecimal digits.
fn hex_digits(word: u64) -> (r: [u8; 16])
    ensures
        r@ == hex_word(word),
        r@.len() == 16,
{
    let mut out: [u8; 16] = [0, 0, 0, 0, 0, 0, 0, 0, 0, 0, 0, 0, 0, 0, 0, 0];
    let mut rest: u64 = word;
    let mut left: usize = 16;
    proof {
        lemma_low_digits_len(word as nat, 16, 16);
        assert(out@.skip(16) =~= Seq::<u8>::empty());
        assert(text::low_digits(word as nat, 16, 16) + Seq::<char>::empty() =~= text::low_digits(
            word as nat,
            16,
            16,
        ));
        assert(hex_word(word) =~= text::low_digits(rest as nat, 16, 16).map_values(|c: char| c as u8)
            + out@.skip(16));
    }
    while left > 0
        invariant
            left <= 16,
            hex_word(word) == text::low_digits(rest as nat, 16, left as nat).map_values(
                |c: char| c as u8,
            ) + out@.skip(left as int),
        decreases left,
    {
        let digit: u64 = rest % 16;
        let ghost before = out@.skip(left as int);
        out[left - 1] = text::write_digit(digit as u8) as u8;
        proof {
            lemma_low_digits_len(rest as nat, 16, left as nat);
            let short = text::low_digits((rest / 16) as nat, 16, (left - 1) as nat);
            let long = text::low_digits(rest as nat, 16, left as nat);
            assert(long == short.push(text::digit_char(digit as nat)));
            assert(out@.skip(left - 1) =~= seq![text::digit_char(digit as nat) as u8] + before);
            assert(long.map_values(|c: char| c as u8) + before =~= short.map_values(|c: char| c as u8)
                + out@.skip(left - 1));
        }
        rest = rest / 16;
        left = left - 1;
    }
    proof {
        assert(out@.skip(0) =~= out@);
        assert(text::low_digits(rest as nat, 16, 0).map_values(|c: char| c as u8) + out@ =~= out@);
    }
    out
}

/// A word is spelled in sixteen small hexadecimal digits.
pub proof fn lemma_words_are_hexadecimal(word: u64)
    ensures
        hex_word(word).len() == 16,
        forall|i: int|
            0 <= i < 16 ==> (48 <= #[trigger] hex_word(word)[i] <= 57 || 97 <= hex_word(word)[i]
                <= 102),
{
    lemma_low_digits_len(word as nat, 16, 16);
    let s = text::low_digits(word as nat, 16, 16);
    assert forall|i: int| 0 <= i < 16 implies (48 <= #[trigger] hex_word(word)[i] <= 57 || 97
        <= hex_word(word)[i] <= 102) by {
        lemma_a_low_digit(word as nat, 16, i);
        assert(hex_word(word)[i] == s[i] as u8);
    }
}

proof fn lemma_a_low_digit(n: nat, width: nat, i: int)
    requires
        0 <= i < width,
    ensures
        text::low_digits(n, 16, width).len() == width,
        '0' <= text::low_digits(n, 16, width)[i] <= '9' || 'a' <= text::low_digits(n, 16, width)[i]
            <= 'f',
    decreases width,
{
    lemma_low_digits_len(n, 16, width);
    lemma_low_digits_len(n / 16, 16, (width - 1) as nat);
    if i < width - 1 {
        lemma_a_low_digit(n / 16, (width - 1) as nat, i);
    }
}

spec fn sixteen_to(width: nat) -> nat
    decreases width,
{
    if width == 0 {
        1
    } else {
        16 * sixteen_to((width - 1) as nat)
    }
}

proof fn lemma_low_digits_tell_apart(n: nat, m: nat, width: nat)
    requires
        n < sixteen_to(width),
        m < sixteen_to(width),
        text::low_digits(n, 16, width) == text::low_digits(m, 16, width),
    ensures
        n == m,
    decreases width,
{
    if width > 0 {
        let (a, b) = (text::low_digits(n, 16, width), text::low_digits(m, 16, width));
        lemma_low_digits_len(n / 16, 16, (width - 1) as nat);
        lemma_low_digits_len(m / 16, 16, (width - 1) as nat);
        assert(a.drop_last() =~= text::low_digits(n / 16, 16, (width - 1) as nat));
        assert(b.drop_last() =~= text::low_digits(m / 16, 16, (width - 1) as nat));
        lemma_low_digits_tell_apart(n / 16, m / 16, (width - 1) as nat);
        assert(a.last() == b.last());
        text::lemma_digit_reads_back(n % 16, 16);
        text::lemma_digit_reads_back(m % 16, 16);
    }
}

/// Two words that are spelled alike are the same.
pub proof fn lemma_words_read_back(a: u64, b: u64)
    requires
        hex_word(a) == hex_word(b),
    ensures
        a == b,
{
    let (x, y) = (text::low_digits(a as nat, 16, 16), text::low_digits(b as nat, 16, 16));
    lemma_low_digits_len(a as nat, 16, 16);
    lemma_low_digits_len(b as nat, 16, 16);
    assert forall|i: int| 0 <= i < 16 implies x[i] == y[i] by {
        assert(hex_word(a)[i] == x[i] as u8);
        assert(hex_word(b)[i] == y[i] as u8);
        lemma_a_low_digit(a as nat, 16, i);
        lemma_a_low_digit(b as nat, 16, i);
    }
    assert(x =~= y);
    reveal_with_fuel(sixteen_to, 17);
    lemma_low_digits_tell_apart(a as nat, b as nat, 16);
}

/// A word is scaled evenly: the smallest gives zero, the largest gives the last number
/// below the bound, a larger word never gives less, and a number is given by those
/// words whose share of all words is the number's share of the bound.
pub proof fn words_are_spread_evenly(a: u64, b: u64, bound: u32)
    requires
        bound > 0,
        a <= b,
    ensures
        0 <= scaled(a, bound) < bound,
        scaled(a, bound) <= scaled(b, bound),
        scaled(0, bound) == 0,
        scaled(u64::MAX, bound) == bound - 1,
        scaled(a, bound) * 0x1_0000_0000_0000_0000 <= a * bound,
        a * bound < (scaled(a, bound) + 1) * 0x1_0000_0000_0000_0000,
{
    let m: int = 0x1_0000_0000_0000_0000;
    assert(0 <= a * bound <= b * bound) by (nonlinear_arith)
        requires
            a <= b,
    ;
    assert(b * bound <= 0xffff_ffff_ffff_ffff * bound) by (nonlinear_arith)
        requires
            b <= 0xffff_ffff_ffff_ffff,
    ;
    assert(0 * bound == 0);
}

proof fn lemma_an_odd_factor_loses_nothing(x: u64, y: u64, c: int, k: int, q: int)
    requires
        c * k == 1 + q * 0x1_0000_0000_0000_0000,
        (x * c) % 0x1_0000_0000_0000_0000 == (y * c) % 0x1_0000_0000_0000_0000,
    ensures
        x == y,
{
    let m: int = 0x1_0000_0000_0000_0000;
    let u = x as int;
    let v = y as int;
    vstd::arithmetic::div_mod::lemma_fundamental_div_mod(u * c, m);
    vstd::arithmetic::div_mod::lemma_fundamental_div_mod(v * c, m);
    let e = (u * c) / m - (v * c) / m;
    assert(u * c - v * c == m * e) by (nonlinear_arith)
        requires
            u * c == m * ((u * c) / m) + (u * c) % m,
            v * c == m * ((v * c) / m) + (v * c) % m,
            (u * c) % m == (v * c) % m,
            e == (u * c) / m - (v * c) / m,
    ;
    let t = e * k - (u - v) * q;
    assert(u - v == m * t) by (nonlinear_arith)
        requires
            u * c - v * c == m * e,
            c * k == 1 + q * m,
            t == e * k - (u - v) * q,
    ;
    if t != 0 {
        assert(m * t >= m || m * t <= -m) by (nonlinear_arith)
            requires
                m > 0,
                t != 0,
        ;
    }
}

/// Two different seeds are mixed into two different words: mixing loses nothing.
pub proof fn mixing_keeps_seeds_apart(x: u64, y: u64)
    requires
        x != y,
    ensures
        mixed(x) != mixed(y),
{
    let m: int = 0x1_0000_0000_0000_0000;
    let p = x ^ (x >> 30);
    let q = y ^ (y >> 30);
    assert(p != q) by (bit_vector)
        requires
            x != y,
            p == x ^ (x >> 30),
            q == y ^ (y >> 30),
    ;
    let a = (p as int * 0xBF58_476D_1CE4_E5B9 % m) as u64;
    let b = (q as int * 0xBF58_476D_1CE4_E5B9 % m) as u64;
    if a == b {
        lemma_an_odd_factor_loses_nothing(
            p,
            q,
            0xBF58_476D_1CE4_E5B9,
            0x96DE_1B17_3F11_9089,
            0x70C3_BCA7_8F27_F46C,
        );
    }
    let c = a ^ (a >> 27);
    let d = b ^ (b >> 27);
    assert(c != d) by (bit_vector)
        requires
            a != b,
            c == a ^ (a >> 27),
            d == b ^ (b >> 27),
    ;
    let e = (c as int * 0x94D0_49BB_1331_11EB % m) as u64;
    let f = (d as int * 0x94D0_49BB_1331_11EB % m) as u64;
    if e == f {
        lemma_an_odd_factor_loses_nothing(
            c,
            d,
            0x94D0_49BB_1331_11EB,
            0x3196_42B2_D24D_8EC3,
            0x1CD3_36ED_A85F_1453,
        );
    }
    assert(e ^ (e >> 31) != f ^ (f >> 31)) by (bit_vector)
        requires
            e != f,
    ;
}

} // verus!
