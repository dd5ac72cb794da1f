//! Characters, digits and separators: the small vocabulary the parsers and the
//! renderers of this crate share.
//!
//! Text is modelled as `Seq<char>`, which is the view of both `str` and
//! `String`. The executable functions work on slices of `char`, so what they
//! compute and what their contracts say are about the same indices.
use vstd::prelude::*;

verus! {

/// `String::push`: appends one character and changes nothing else.
pub assume_specification[ String::push ](s: &mut String, c: char)
    ensures
        final(s)@ == old(s)@.push(c),
;

/// Why some bytes are not UTF-8, as the standard library reports it.
#[verifier::external_type_specification]
#[verifier::external_body]
pub struct ExUtf8Error(core::str::Utf8Error);

/// `core::str::from_utf8`: the bytes as text, exactly when they are UTF-8.
pub assume_specification[ core::str::from_utf8 ](v: &[u8]) -> (r: Result<
    &str,
    core::str::Utf8Error,
>)
    ensures
        match r {
            Ok(s) => vstd::utf8::valid_utf8(v@) && vstd::utf8::encode_utf8(s@) == v@,
            Err(_) => !vstd::utf8::valid_utf8(v@),
        },
;

/// The contents of a list of owned sequences.
pub open spec fn views<T>(v: Seq<Vec<T>>) -> Seq<Seq<T>> {
    v.map_values(|x: Vec<T>| x@)
}

/// The contents of a list of strings.
pub open spec fn texts(v: Seq<String>) -> Seq<Seq<char>> {
    v.map_values(|x: String| x@)
}

/// The characters of `s`.
pub fn to_chars(s: &str) -> (r: Vec<char>)
    ensures
        r@ == s@,
{
    let mut out: Vec<char> = Vec::new();
    for c in iter: s.chars()
        invariant
            out@ == iter.seq().take(iter.index() as int),
            iter.seq() == s@,
    {
        out.push(c);
    }
    out
}

/// The string holding exactly the characters of `s`.
pub fn from_chars(s: &[char]) -> (r: String)
    ensures
        r@ == s@,
{
    let mut out = String::new();
    push_chars(&mut out, s);
    out
}

/// Appends `s` to `out`.
pub fn push_chars(out: &mut String, s: &[char])
    ensures
        final(out)@ == old(out)@ + s@,
{
    let mut i: usize = 0;
    assert(out@ =~= old(out)@ + s@.take(0));
    while i < s.len()
        invariant
            i <= s@.len(),
            out@ == old(out)@ + s@.take(i as int),
        decreases s@.len() - i,
    {
        out.push(s[i]);
        i = i + 1;
        proof {
            assert(s@.take(i as int) =~= s@.take(i - 1).push(s@[i - 1]));
        }
    }
    assert(s@.take(i as int) =~= s@);
}

/// Appends `s` to `out`.
pub fn push_text(out: &mut String, s: &str)
    ensures
        final(out)@ == old(out)@ + s@,
{
    let chars = to_chars(s);
    push_chars(out, chars.as_slice());
}

/// A copy of part of a slice.
pub fn copy_range<T: Copy>(s: &[T], from: usize, to: usize) -> (r: Vec<T>)
    requires
        from <= to <= s@.len(),
    ensures
        r@ == s@.subrange(from as int, to as int),
{
    let mut out: Vec<T> = Vec::new();
    let mut i: usize = from;
    while i < to
        invariant
            from <= i <= to <= s@.len(),
            out@ == s@.subrange(from as int, i as int),
        decreases to - i,
    {
        out.push(s[i]);
        i = i + 1;
        proof {
            assert(s@.subrange(from as int, i as int) =~= s@.subrange(from as int, i - 1).push(s@[i - 1]));
        }
    }
    out
}

/// Whether two slices of characters are equal.
pub fn same_chars(a: &[char], b: &[char]) -> (r: bool)
    ensures
        r == (a@ == b@),
{
    if a.len() != b.len() {
        return false;
    }
    let mut i: usize = 0;
    while i < a.len()
        invariant
            a@.len() == b@.len(),
            i <= a@.len(),
            forall|j: int| 0 <= j < i ==> a@[j] == b@[j],
        decreases a@.len() - i,
    {
        if a[i] != b[i] {
            assert(a@[i as int] != b@[i as int]);
            return false;
        }
        i = i + 1;
    }
    assert(a@ =~= b@);
    true
}

/// Whether two strings hold the same text.
pub fn same_text(a: &str, b: &str) -> (r: bool)
    ensures
        r == (a@ == b@),
{
    let x = to_chars(a);
    let y = to_chars(b);
    same_chars(x.as_slice(), y.as_slice())
}

/// Whether `s` begins with `prefix`.
pub open spec fn starts_with<T>(s: Seq<T>, prefix: Seq<T>) -> bool {
    prefix.len() <= s.len() && s.take(prefix.len() as int) == prefix
}

/// Whether `s` begins with `prefix`.
pub fn has_prefix(s: &[char], prefix: &[char]) -> (r: bool)
    ensures
        r == starts_with(s@, prefix@),
{
    if s.len() < prefix.len() {
        return false;
    }
    let mut i: usize = 0;
    while i < prefix.len()
        invariant
            prefix@.len() <= s@.len(),
            i <= prefix@.len(),
            forall|j: int| 0 <= j < i ==> s@[j] == prefix@[j],
        decreases prefix@.len() - i,
    {
        if s[i] != prefix[i] {
            assert(s@.take(prefix@.len() as int)[i as int] != prefix@[i as int]);
            return false;
        }
        i = i + 1;
    }
    assert(s@.take(prefix@.len() as int) =~= prefix@);
    true
}

// ---------------------------------------------------------------------------
// Separators
// ---------------------------------------------------------------------------

/// The pieces of `s` between occurrences of `separator`, empty ones included.
///
/// There is always one more piece than there are separators, so an empty input
/// is one empty piece.
pub open spec fn split<T>(s: Seq<T>, separator: T) -> Seq<Seq<T>>
    decreases s.len(),
{
    if s.len() == 0 {
        seq![Seq::<T>::empty()]
    } else {
        let before = split(s.drop_last(), separator);
        if s.last() == separator {
            before.push(Seq::<T>::empty())
        } else {
            before.drop_last().push(before.last().push(s.last()))
        }
    }
}

/// A split always has a piece.
pub proof fn lemma_split_is_never_empty<T>(s: Seq<T>, separator: T)
    ensures
        split(s, separator).len() >= 1,
    decreases s.len(),
{
    if s.len() > 0 {
        lemma_split_is_never_empty(s.drop_last(), separator);
    }
}

/// Cuts `s` at every `separator`.
pub fn split_chars(s: &[char], separator: char) -> (r: Vec<Vec<char>>)
    ensures
        views(r@) == split(s@, separator),
{
    let mut out: Vec<Vec<char>> = Vec::new();
    let mut piece: Vec<char> = Vec::new();
    let mut i: usize = 0;
    assert(views(out@) =~= Seq::<Seq<char>>::empty());
    assert(split(s@.take(0), separator) =~= views(out@).push(piece@));
    while i < s.len()
        invariant
            i <= s@.len(),
            split(s@.take(i as int), separator) == views(out@).push(piece@),
        decreases s@.len() - i,
    {
        let c = s[i];
        proof {
            assert(s@.take(i + 1).drop_last() =~= s@.take(i as int));
        }
        if c == separator {
            let ghost before = out@;
            let ghost done = piece@;
            out.push(piece);
            piece = Vec::new();
            proof {
                assert(views(out@) =~= views(before).push(done));
            }
        } else {
            let ghost done = piece@;
            piece.push(c);
            proof {
                let p = views(out@).push(done);
                assert(p.drop_last() =~= views(out@));
            }
        }
        i = i + 1;
    }
    let ghost before = out@;
    let ghost done = piece@;
    out.push(piece);
    proof {
        assert(views(out@) =~= views(before).push(done));
        assert(s@.take(i as int) =~= s@);
    }
    out
}

/// Cuts `s` at every `separator`.
pub fn split_bytes(s: &[u8], separator: u8) -> (r: Vec<Vec<u8>>)
    ensures
        views(r@) == split(s@, separator),
{
    let mut out: Vec<Vec<u8>> = Vec::new();
    let mut piece: Vec<u8> = Vec::new();
    let mut i: usize = 0;
    assert(views(out@) =~= Seq::<Seq<u8>>::empty());
    assert(split(s@.take(0), separator) =~= views(out@).push(piece@));
    while i < s.len()
        invariant
            i <= s@.len(),
            split(s@.take(i as int), separator) == views(out@).push(piece@),
        decreases s@.len() - i,
    {
        let c: u8 = s[i];
        proof {
            assert(s@.take(i + 1).drop_last() =~= s@.take(i as int));
        }
        if c == separator {
            let ghost before = out@;
            let ghost done = piece@;
            out.push(piece);
            piece = Vec::new();
            proof {
                assert(views(out@) =~= views(before).push(done));
            }
        } else {
            let ghost done = piece@;
            piece.push(c);
            proof {
                let p = views(out@).push(done);
                assert(p.drop_last() =~= views(out@));
            }
        }
        i = i + 1;
    }
    let ghost before = out@;
    let ghost done = piece@;
    out.push(piece);
    proof {
        assert(views(out@) =~= views(before).push(done));
        assert(s@.take(i as int) =~= s@);
    }
    out
}

/// Where `c` first occurs in `s`, or the length of `s` when it does not.
pub open spec fn first_index<T>(s: Seq<T>, c: T) -> int
    decreases s.len(),
{
    if s.len() == 0 {
        0
    } else if s[0] == c {
        0
    } else {
        1 + first_index(s.skip(1), c)
    }
}

/// The first occurrence of `c` is where everything before it differs from `c`.
pub proof fn lemma_first_index<T>(s: Seq<T>, c: T, i: int)
    requires
        0 <= i <= s.len(),
        forall|j: int| 0 <= j < i ==> s[j] != c,
        i < s.len() ==> s[i] == c,
    ensures
        first_index(s, c) == i,
    decreases s.len(),
{
    if i > 0 {
        let t = s.skip(1);
        assert forall|j: int| 0 <= j < i - 1 implies t[j] != c by {
            assert(t[j] == s[j + 1]);
        }
        if i < s.len() {
            assert(t[i - 1] == s[i]);
        }
        lemma_first_index(t, c, i - 1);
    }
}

/// What `first_index` finds, position by position.
pub proof fn lemma_first_index_meaning<T>(s: Seq<T>, c: T)
    ensures
        0 <= first_index(s, c) <= s.len(),
        forall|j: int| 0 <= j < first_index(s, c) ==> s[j] != c,
        first_index(s, c) < s.len() ==> s[first_index(s, c)] == c,
    decreases s.len(),
{
    if s.len() > 0 && s[0] != c {
        let t = s.skip(1);
        lemma_first_index_meaning(t, c);
        assert forall|j: int| 0 <= j < first_index(s, c) implies s[j] != c by {
            if j > 0 {
                assert(t[j - 1] == s[j]);
            }
        }
    }
}

/// The first position of `c`, or the length of the slice.
pub fn find_char(s: &[char], c: char) -> (r: usize)
    ensures
        r == first_index(s@, c),
        r <= s@.len(),
{
    let mut i: usize = 0;
    while i < s.len()
        invariant
            i <= s@.len(),
            forall|j: int| 0 <= j < i ==> s@[j] != c,
        decreases s@.len() - i,
    {
        if s[i] == c {
            proof {
                lemma_first_index(s@, c, i as int);
            }
            return i;
        }
        i = i + 1;
    }
    proof {
        lemma_first_index(s@, c, i as int);
    }
    i
}

/// The first position of `b`, or the length of the slice.
pub fn find_byte(s: &[u8], b: u8) -> (r: usize)
    ensures
        r == first_index(s@, b),
        r <= s@.len(),
{
    let mut i: usize = 0;
    while i < s.len()
        invariant
            i <= s@.len(),
            forall|j: int| 0 <= j < i ==> s@[j] != b,
        decreases s@.len() - i,
    {
        if s[i] == b {
            proof {
                lemma_first_index(s@, b, i as int);
            }
            return i;
        }
        i = i + 1;
    }
    proof {
        lemma_first_index(s@, b, i as int);
    }
    i
}

// ---------------------------------------------------------------------------
// Digits
// ---------------------------------------------------------------------------

/// The value of `c` as a digit, or `None` when it is not one in this radix.
///
/// Letters count from ten, in either case.
pub open spec fn digit_value(c: char, radix: nat) -> Option<nat> {
    let value: int = if '0' <= c && c <= '9' {
        c as int - '0' as int
    } else if 'a' <= c && c <= 'f' {
        c as int - 'a' as int + 10
    } else if 'A' <= c && c <= 'F' {
        c as int - 'A' as int + 10
    } else {
        radix as int
    };
    if value < radix {
        Some(value as nat)
    } else {
        None
    }
}

/// The value of `c` as a digit below `radix`.
pub fn read_digit(c: char, radix: u64) -> (r: Option<u64>)
    requires
        radix <= 16,
    ensures
        match r {
            Some(d) => digit_value(c, radix as nat) == Some(d as nat) && d < radix,
            None => digit_value(c, radix as nat) is None,
        },
{
    let value: u64 = if '0' <= c && c <= '9' {
        (c as u32 - '0' as u32) as u64
    } else if 'a' <= c && c <= 'f' {
        (c as u32 - 'a' as u32) as u64 + 10
    } else if 'A' <= c && c <= 'F' {
        (c as u32 - 'A' as u32) as u64 + 10
    } else {
        radix
    };
    if value < radix {
        Some(value)
    } else {
        None
    }
}

/// Whether every character of `s` is a digit.
pub open spec fn all_digits(s: Seq<char>, radix: nat) -> bool {
    forall|i: int| 0 <= i < s.len() ==> digit_value(#[trigger] s[i], radix) is Some
}

/// The number `s` spells, most significant digit first.
pub open spec fn number_value(s: Seq<char>, radix: nat) -> nat
    decreases s.len(),
{
    if s.len() == 0 {
        0
    } else {
        number_value(s.drop_last(), radix) * radix + digit_value(s.last(), radix)->Some_0
    }
}

/// More digits never spell a smaller number.
pub proof fn lemma_number_value_grows(s: Seq<char>, radix: nat, i: int)
    requires
        0 <= i <= s.len(),
        radix >= 1,
    ensures
        number_value(s.take(i), radix) <= number_value(s, radix),
    decreases s.len() - i,
{
    if i == s.len() {
        assert(s.take(i) =~= s);
    } else {
        lemma_number_value_grows(s, radix, i + 1);
        assert(s.take(i + 1).drop_last() =~= s.take(i));
        let v = number_value(s.take(i), radix);
        assert(v <= v * radix) by (nonlinear_arith)
            requires
                radix >= 1,
        ;
    }
}

/// The longest run of digits at the front of `s`.
pub open spec fn digit_run(s: Seq<char>, radix: nat) -> Seq<char>
    decreases s.len(),
{
    if s.len() == 0 || digit_value(s[0], radix) is None {
        Seq::empty()
    } else {
        seq![s[0]] + digit_run(s.skip(1), radix)
    }
}

/// The digit run is the prefix that ends at the first character that is not a
/// digit.
pub proof fn lemma_digit_run(s: Seq<char>, radix: nat, i: int)
    requires
        0 <= i <= s.len(),
        forall|j: int| 0 <= j < i ==> digit_value(#[trigger] s[j], radix) is Some,
        i < s.len() ==> digit_value(s[i], radix) is None,
    ensures
        digit_run(s, radix) == s.take(i),
    decreases s.len(),
{
    if i > 0 {
        let t = s.skip(1);
        assert forall|j: int| 0 <= j < i - 1 implies digit_value(#[trigger] t[j], radix) is Some by {
            assert(t[j] == s[j + 1]);
        }
        if i < s.len() {
            assert(t[i - 1] == s[i]);
        }
        lemma_digit_run(t, radix, i - 1);
        assert(s.take(i) =~= seq![s[0]] + t.take(i - 1));
    } else {
        assert(s.take(0) =~= Seq::<char>::empty());
    }
}

/// A number as the standard library reads one: an optional `+`, then at least
/// one decimal digit and nothing else, no larger than `max`.
pub open spec fn unsigned_value(s: Seq<char>, max: nat) -> Option<nat> {
    let digits = if s.len() > 0 && s[0] == '+' {
        s.skip(1)
    } else {
        s
    };
    if digits.len() > 0 && all_digits(digits, 10) && number_value(digits, 10) <= max {
        Some(number_value(digits, 10))
    } else {
        None
    }
}

/// Reads the decimal digits `s[from..]`, all of them.
fn read_digits(s: &[char], from: usize, max: u64) -> (r: Option<u64>)
    requires
        from <= s@.len(),
    ensures
        ({
            let digits = s@.skip(from as int);
            match r {
                Some(v) => digits.len() > 0 && all_digits(digits, 10) && v == number_value(digits, 10)
                    && v <= max,
                None => !(digits.len() > 0 && all_digits(digits, 10) && number_value(digits, 10) <= max),
            }
        }),
{
    let ghost digits = s@.skip(from as int);
    if from >= s.len() {
        return None;
    }
    let mut value: u64 = 0;
    let mut i: usize = from;
    assert(digits.take(0) =~= Seq::<char>::empty());
    while i < s.len()
        invariant
            from <= i <= s@.len(),
            digits == s@.skip(from as int),
            forall|j: int| 0 <= j < i - from ==> digit_value(#[trigger] digits[j], 10) is Some,
            value == number_value(digits.take(i - from), 10),
            value <= max,
        decreases s@.len() - i,
    {
        assert(digits[i - from] == s@[i as int]);
        match read_digit(s[i], 10) {
            None => {
                return None;
            },
            Some(d) => {
                let wide: u128 = value as u128 * 10 + d as u128;
                proof {
                    assert(digits.take(i - from + 1).drop_last() =~= digits.take(i - from));
                    lemma_number_value_grows(digits, 10, i - from + 1);
                }
                if wide > max as u128 {
                    return None;
                }
                value = wide as u64;
            },
        }
        i = i + 1;
    }
    assert(digits.take(i - from) =~= digits);
    Some(value)
}

/// Reads an unsigned number no larger than `max`.
pub fn read_unsigned(s: &[char], max: u64) -> (r: Option<u64>)
    ensures
        match r {
            Some(v) => unsigned_value(s@, max as nat) == Some(v as nat) && v <= max,
            None => unsigned_value(s@, max as nat) is None,
        },
{
    if s.len() > 0 && s[0] == '+' {
        read_digits(s, 1, max)
    } else {
        assert(s@.skip(0) =~= s@);
        read_digits(s, 0, max)
    }
}

/// The digit that stands for `d`.
pub open spec fn digit_char(d: nat) -> char {
    if d < 10 {
        (('0' as u32) + d) as char
    } else {
        (('a' as u32) + (d - 10)) as char
    }
}

/// The digit that stands for `d`, lower case past nine.
pub fn write_digit(d: u8) -> (r: char)
    requires
        d < 16,
    ensures
        r == digit_char(d as nat),
{
    if d < 10 {
        ('0' as u8 + d) as char
    } else {
        ('a' as u8 + (d - 10)) as char
    }
}

/// `n` in positional notation, without leading zeros.
pub open spec fn numeral(n: nat, radix: nat) -> Seq<char>
    decreases n,
    when radix >= 2
{
    if n < radix {
        seq![digit_char(n)]
    } else {
        proof {
            vstd::arithmetic::div_mod::lemma_div_decreases(n as int, radix as int);
        }
        numeral(n / radix, radix).push(digit_char(n % radix))
    }
}

/// `n` in decimal.
pub open spec fn decimal(n: nat) -> Seq<char> {
    numeral(n, 10)
}

/// `n` in lower-case hexadecimal.
pub open spec fn hexadecimal(n: nat) -> Seq<char> {
    numeral(n, 16)
}

/// A digit reads back as what it stands for.
pub proof fn lemma_digit_reads_back(d: nat, radix: nat)
    requires
        d < radix <= 16,
    ensures
        digit_value(digit_char(d), radix) == Some(d),
        digit_char(d) == '0' <==> d == 0,
{
}

/// A numeral is made of digits, spells its number, and begins with a zero only
/// when it is zero.
pub proof fn lemma_numeral_reads_back(n: nat, radix: nat)
    requires
        2 <= radix <= 16,
    ensures
        numeral(n, radix).len() >= 1,
        all_digits(numeral(n, radix), radix),
        number_value(numeral(n, radix), radix) == n,
        numeral(n, radix)[0] == '0' <==> n == 0,
    decreases n,
{
    reveal_with_fuel(number_value, 2);
    if n < radix {
        lemma_digit_reads_back(n, radix);
        let s = numeral(n, radix);
        assert(s.drop_last() =~= Seq::<char>::empty());
        assert(number_value(s, radix) == 0 * radix + n);
        assert(0 * radix == 0) by (nonlinear_arith);
    } else {
        vstd::arithmetic::div_mod::lemma_div_decreases(n as int, radix as int);
        vstd::arithmetic::div_mod::lemma_fundamental_div_mod(n as int, radix as int);
        vstd::arithmetic::mul::lemma_mul_is_commutative(radix as int, n as int / radix as int);
        assert(n / radix >= 1) by (nonlinear_arith)
            requires
                n >= radix,
                radix >= 2,
        ;
        lemma_numeral_reads_back(n / radix, radix);
        lemma_digit_reads_back(n % radix, radix);
        let s = numeral(n, radix);
        assert(s.drop_last() =~= numeral(n / radix, radix));
        assert forall|i: int| 0 <= i < s.len() implies digit_value(#[trigger] s[i], radix) is Some by {
            if i < s.len() - 1 {
                assert(s[i] == numeral(n / radix, radix)[i]);
            }
        }
        assert(s[0] == numeral(n / radix, radix)[0]);
    }
}

/// A numeral in front of something that is not a digit is the whole digit run.
pub proof fn lemma_numeral_is_a_run(n: nat, radix: nat, rest: Seq<char>)
    requires
        2 <= radix <= 16,
        rest.len() > 0 ==> digit_value(rest[0], radix) is None,
    ensures
        digit_run(numeral(n, radix) + rest, radix) == numeral(n, radix),
{
    let s = numeral(n, radix);
    lemma_numeral_reads_back(n, radix);
    assert forall|j: int| 0 <= j < s.len() implies digit_value(#[trigger] (s + rest)[j], radix) is Some by {
        assert((s + rest)[j] == s[j]);
    }
    if rest.len() > 0 {
        assert((s + rest)[s.len() as int] == rest[0]);
    }
    lemma_digit_run(s + rest, radix, s.len() as int);
    assert((s + rest).take(s.len() as int) =~= s);
}

/// A small number has few digits.
pub proof fn lemma_numeral_length(n: nat, radix: nat, bound: nat, digits: nat)
    requires
        2 <= radix <= 16,
        digits >= 1,
        n < bound,
        bound == vstd::arithmetic::power::pow(radix as int, digits),
    ensures
        numeral(n, radix).len() <= digits,
    decreases digits,
{
    reveal(vstd::arithmetic::power::pow);
    if n >= radix {
        if digits == 1 {
            assert(vstd::arithmetic::power::pow(radix as int, 0) == 1);
            assert(bound == radix * 1);
        } else {
            let smaller = vstd::arithmetic::power::pow(radix as int, (digits - 1) as nat);
            assert(bound == radix * smaller);
            assert(n / radix < smaller) by (nonlinear_arith)
                requires
                    n < radix * smaller,
                    radix >= 2,
            ;
            vstd::arithmetic::power::lemma_pow_positive(radix as int, (digits - 1) as nat);
            lemma_numeral_length(n / radix, radix, smaller as nat, (digits - 1) as nat);
        }
    }
}

/// The last `width` digits of `n`, leading zeros included.
pub open spec fn low_digits(n: nat, radix: nat, width: nat) -> Seq<char>
    decreases width,
{
    if width == 0 {
        Seq::empty()
    } else {
        low_digits(n / radix, radix, (width - 1) as nat).push(digit_char(n % radix))
    }
}

/// Appends `n` in the given radix.
pub fn push_numeral(out: &mut String, n: u128, radix: u128)
    requires
        2 <= radix <= 16,
    ensures
        final(out)@ == old(out)@ + numeral(n as nat, radix as nat),
    decreases n,
{
    if n >= radix {
        proof {
            vstd::arithmetic::div_mod::lemma_div_decreases(n as int, radix as int);
        }
        push_numeral(out, n / radix, radix);
    }
    let ghost before = out@;
    let d: u128 = n % radix;
    out.push(write_digit(d as u8));
    proof {
        if n >= radix {
            assert(out@ =~= old(out)@ + numeral(n as nat, radix as nat));
        } else {
            vstd::arithmetic::div_mod::lemma_small_mod(n as nat, radix as nat);
            assert(out@ =~= old(out)@ + numeral(n as nat, radix as nat));
        }
    }
}

/// Appends `n` in decimal.
pub fn push_decimal(out: &mut String, n: u64)
    ensures
        final(out)@ == old(out)@ + decimal(n as nat),
{
    push_numeral(out, n as u128, 10);
}

/// `v` in decimal, with a sign when it is negative.
pub open spec fn integer(v: int) -> Seq<char> {
    if v < 0 {
        seq!['-'] + decimal((-v) as nat)
    } else {
        decimal(v as nat)
    }
}

/// Appends `v` in decimal, with a sign when it is negative.
pub fn push_integer(out: &mut String, v: i64)
    ensures
        final(out)@ == old(out)@ + integer(v as int),
{
    if v < 0 {
        out.push('-');
        push_numeral(out, (-(v as i128)) as u128, 10);
        assert(out@ =~= old(out)@ + integer(v as int));
    } else {
        push_numeral(out, v as u128, 10);
    }
}

/// `s` with zeros put in front until it is `width` characters long.
pub open spec fn zero_padded(s: Seq<char>, width: nat) -> Seq<char> {
    if s.len() >= width {
        s
    } else {
        Seq::new((width - s.len()) as nat, |i: int| '0') + s
    }
}

/// `n` in the given radix, zero-padded to `width`.
pub fn padded_numeral(n: u64, radix: u64, width: usize) -> (r: String)
    requires
        2 <= radix <= 16,
    ensures
        r@ == zero_padded(numeral(n as nat, radix as nat), width as nat),
{
    let mut digits = String::new();
    push_numeral(&mut digits, n as u128, radix as u128);
    assert(digits@ =~= numeral(n as nat, radix as nat));
    let chars = to_chars(digits.as_str());
    let mut out = String::new();
    if chars.len() < width {
        let missing: usize = width - chars.len();
        let mut i: usize = 0;
        while i < missing
            invariant
                i <= missing,
                out@ == Seq::new(i as nat, |k: int| '0'),
            decreases missing - i,
        {
            out.push('0');
            i = i + 1;
            assert(out@ =~= Seq::new(i as nat, |k: int| '0'));
        }
    }
    push_chars(&mut out, chars.as_slice());
    assert(out@ =~= zero_padded(numeral(n as nat, radix as nat), width as nat));
    out
}

// ---------------------------------------------------------------------------
// Order
// ---------------------------------------------------------------------------

/// Does `a` stand before `b` in a dictionary?
pub open spec fn before(a: Seq<char>, b: Seq<char>) -> bool
    decreases a.len(),
{
    if b.len() == 0 {
        false
    } else if a.len() == 0 {
        true
    } else if a[0] != b[0] {
        a[0] < b[0]
    } else {
        before(a.skip(1), b.skip(1))
    }
}

/// Of two texts one stands before the other, or they are the same.
pub proof fn lemma_before_is_total(a: Seq<char>, b: Seq<char>)
    ensures
        before(a, b) || before(b, a) || a == b,
        !(before(a, b) && before(b, a)),
        a == b ==> !before(a, b),
    decreases a.len(),
{
    if a.len() > 0 && b.len() > 0 {
        if a[0] == b[0] {
            lemma_before_is_total(a.skip(1), b.skip(1));
            if a.skip(1) == b.skip(1) {
                assert(a =~= seq![a[0]] + a.skip(1));
                assert(b =~= seq![b[0]] + b.skip(1));
            }
        }
    } else if a.len() == 0 && b.len() == 0 {
        assert(a =~= b);
    }
}

/// What stands before something stands before what that stands before.
pub proof fn lemma_before_is_transitive(a: Seq<char>, b: Seq<char>, c: Seq<char>)
    requires
        before(a, b),
        before(b, c),
    ensures
        before(a, c),
    decreases a.len(),
{
    if a.len() > 0 && a[0] == b[0] && b[0] == c[0] {
        lemma_before_is_transitive(a.skip(1), b.skip(1), c.skip(1));
    }
}

/// Does `a` stand before `b` in a dictionary?
pub fn stands_before(a: &[char], b: &[char]) -> (r: bool)
    ensures
        r == before(a@, b@),
{
    let mut i: usize = 0;
    assert(a@.skip(0) =~= a@);
    assert(b@.skip(0) =~= b@);
    while i < a.len() && i < b.len()
        invariant
            i <= a@.len(),
            i <= b@.len(),
            before(a@, b@) == before(a@.skip(i as int), b@.skip(i as int)),
        decreases a@.len() - i,
    {
        proof {
            assert(a@.skip(i as int)[0] == a@[i as int]);
            assert(b@.skip(i as int)[0] == b@[i as int]);
            assert(a@.skip(i as int).skip(1) =~= a@.skip(i + 1));
            assert(b@.skip(i as int).skip(1) =~= b@.skip(i + 1));
        }
        if a[i] != b[i] {
            return a[i] < b[i];
        }
        i = i + 1;
    }
    i < b.len()
}

// ---------------------------------------------------------------------------
// Case and white space
// ---------------------------------------------------------------------------

/// `c` with an ASCII capital replaced by its small letter.
pub open spec fn lower_char(c: char) -> char {
    if 'A' <= c && c <= 'Z' {
        ((c as u32) + 32) as char
    } else {
        c
    }
}

/// `s` with its ASCII capitals replaced by small letters.
pub open spec fn lower(s: Seq<char>) -> Seq<char> {
    s.map_values(|c: char| lower_char(c))
}

/// `s` with its ASCII capitals replaced by small letters.
pub fn lowercase(s: &[char]) -> (r: Vec<char>)
    ensures
        r@ == lower(s@),
{
    let mut out: Vec<char> = Vec::new();
    let mut i: usize = 0;
    while i < s.len()
        invariant
            i <= s@.len(),
            out@ == lower(s@.take(i as int)),
        decreases s@.len() - i,
    {
        let c = s[i];
        let l = if 'A' <= c && c <= 'Z' {
            (c as u8 + 32) as char
        } else {
            c
        };
        out.push(l);
        i = i + 1;
        assert(out@ =~= lower(s@.take(i as int)));
    }
    assert(s@.take(i as int) =~= s@);
    out
}

/// `b` with an ASCII capital replaced by its small letter.
pub open spec fn lower_byte(b: u8) -> u8 {
    if 65 <= b <= 90 {
        (b + 32) as u8
    } else {
        b
    }
}

/// `s` with its ASCII capitals replaced by small letters.
pub open spec fn lower_bytes(s: Seq<u8>) -> Seq<u8> {
    s.map_values(|b: u8| lower_byte(b))
}

/// Whether two byte strings differ at most in the case of ASCII letters.
pub fn same_bytes_ignoring_case(a: &[u8], b: &[u8]) -> (r: bool)
    ensures
        r == (lower_bytes(a@) == lower_bytes(b@)),
{
    if a.len() != b.len() {
        assert(lower_bytes(a@).len() != lower_bytes(b@).len());
        return false;
    }
    let mut i: usize = 0;
    while i < a.len()
        invariant
            a@.len() == b@.len(),
            i <= a@.len(),
            forall|j: int| 0 <= j < i ==> lower_byte(a@[j]) == lower_byte(b@[j]),
        decreases a@.len() - i,
    {
        let x: u8 = if 65 <= a[i] && a[i] <= 90 {
            a[i] + 32
        } else {
            a[i]
        };
        let y: u8 = if 65 <= b[i] && b[i] <= 90 {
            b[i] + 32
        } else {
            b[i]
        };
        if x != y {
            assert(lower_bytes(a@)[i as int] != lower_bytes(b@)[i as int]);
            return false;
        }
        i = i + 1;
    }
    assert(lower_bytes(a@) =~= lower_bytes(b@));
    true
}

/// Whether `c` is white space in the Unicode sense.
pub open spec fn is_space(c: char) -> bool {
    let n = c as u32;
    ||| 0x09 <= n <= 0x0d
    ||| n == 0x20
    ||| n == 0x85
    ||| n == 0xa0
    ||| n == 0x1680
    ||| 0x2000 <= n <= 0x200a
    ||| n == 0x2028
    ||| n == 0x2029
    ||| n == 0x202f
    ||| n == 0x205f
    ||| n == 0x3000
}

/// Whether `c` is white space in the Unicode sense.
pub fn space(c: char) -> (r: bool)
    ensures
        r == is_space(c),
{
    let n: u32 = c as u32;
    (0x09 <= n && n <= 0x0d) || n == 0x20 || n == 0x85 || n == 0xa0 || n == 0x1680 || (0x2000 <= n && n
        <= 0x200a) || n == 0x2028 || n == 0x2029 || n == 0x202f || n == 0x205f || n == 0x3000
}

/// `s` without the white space at either end.
pub open spec fn trimmed(s: Seq<char>) -> Seq<char>
    decreases s.len(),
{
    if s.len() == 0 {
        s
    } else if is_space(s[0]) {
        trimmed(s.skip(1))
    } else if is_space(s.last()) {
        trimmed(s.drop_last())
    } else {
        s
    }
}

/// `s` without the white space at either end.
pub fn trim(s: &[char]) -> (r: Vec<char>)
    ensures
        r@ == trimmed(s@),
{
    let mut from: usize = 0;
    let mut to: usize = s.len();
    assert(s@.subrange(0, to as int) =~= s@);
    while from < to && space(s[from])
        invariant
            from <= to <= s@.len(),
            trimmed(s@.subrange(from as int, to as int)) == trimmed(s@),
        decreases to - from,
    {
        proof {
            assert(s@.subrange(from as int, to as int).skip(1) =~= s@.subrange(from + 1, to as int));
        }
        from = from + 1;
    }
    while from < to && space(s[to - 1])
        invariant
            from <= to <= s@.len(),
            from < to ==> !is_space(s@[from as int]),
            trimmed(s@.subrange(from as int, to as int)) == trimmed(s@),
        decreases to - from,
    {
        proof {
            assert(s@.subrange(from as int, to as int).drop_last() =~= s@.subrange(from as int, to - 1));
        }
        to = to - 1;
    }
    copy_range(s, from, to)
}

/// Whether `b` is ASCII white space: space, tab, line feed, form feed or
/// carriage return.
pub open spec fn is_ascii_space(b: u8) -> bool {
    b == 32 || b == 9 || b == 10 || b == 12 || b == 13
}

/// `s` without the ASCII white space at either end.
pub open spec fn trimmed_bytes(s: Seq<u8>) -> Seq<u8>
    decreases s.len(),
{
    if s.len() == 0 {
        s
    } else if is_ascii_space(s[0]) {
        trimmed_bytes(s.skip(1))
    } else if is_ascii_space(s.last()) {
        trimmed_bytes(s.drop_last())
    } else {
        s
    }
}

/// Whether `b` is ASCII white space.
fn ascii_space(b: u8) -> (r: bool)
    ensures
        r == is_ascii_space(b),
{
    b == 32 || b == 9 || b == 10 || b == 12 || b == 13
}

/// `s` without the ASCII white space at either end.
pub fn trim_bytes(s: &[u8]) -> (r: Vec<u8>)
    ensures
        r@ == trimmed_bytes(s@),
{
    let mut from: usize = 0;
    let mut to: usize = s.len();
    assert(s@.subrange(0, to as int) =~= s@);
    while from < to && ascii_space(s[from])
        invariant
            from <= to <= s@.len(),
            trimmed_bytes(s@.subrange(from as int, to as int)) == trimmed_bytes(s@),
        decreases to - from,
    {
        proof {
            assert(s@.subrange(from as int, to as int).skip(1) =~= s@.subrange(from + 1, to as int));
        }
        from = from + 1;
    }
    while from < to && ascii_space(s[to - 1])
        invariant
            from <= to <= s@.len(),
            from < to ==> !is_ascii_space(s@[from as int]),
            trimmed_bytes(s@.subrange(from as int, to as int)) == trimmed_bytes(s@),
        decreases to - from,
    {
        proof {
            assert(s@.subrange(from as int, to as int).drop_last() =~= s@.subrange(from as int, to - 1));
        }
        to = to - 1;
    }
    copy_range(s, from, to)
}

// ---------------------------------------------------------------------------
// Laws
// ---------------------------------------------------------------------------

/// Splitting goes through a separator: what stands on either side of one is split on
/// its own.
pub proof fn a_split_goes_through_separators<T>(a: Seq<T>, b: Seq<T>, separator: T)
    ensures
        split(a + seq![separator] + b, separator) == split(a, separator) + split(b, separator),
    decreases b.len(),
{
    let s = a + seq![separator] + b;
    let front = split(a, separator);
    if b.len() == 0 {
        assert(s.drop_last() =~= a);
        assert(split(s, separator) =~= front + split(b, separator));
    } else {
        a_split_goes_through_separators(a, b.drop_last(), separator);
        lemma_split_is_never_empty(b.drop_last(), separator);
        assert(s.drop_last() =~= a + seq![separator] + b.drop_last());
        let before = split(b.drop_last(), separator);
        assert((front + before).last() == before.last());
        assert((front + before).drop_last() =~= front + before.drop_last());
        assert(split(s, separator) =~= front + split(b, separator));
    }
}

/// What holds no separator is a single piece, and no piece holds one.
pub proof fn a_piece_holds_no_separator<T>(s: Seq<T>, separator: T, k: int, i: int)
    ensures
        (forall|j: int| 0 <= j < s.len() ==> #[trigger] s[j] != separator) ==> split(s, separator)
            == seq![s],
        0 <= k < split(s, separator).len() && 0 <= i < split(s, separator)[k].len() ==> split(
            s,
            separator,
        )[k][i] != separator,
    decreases s.len(),
{
    if s.len() > 0 {
        let rest = s.drop_last();
        let before = split(rest, separator);
        lemma_split_is_never_empty(rest, separator);
        a_piece_holds_no_separator(rest, separator, k, i);
        if forall|j: int| 0 <= j < s.len() ==> #[trigger] s[j] != separator {
            assert(s.last() == s[s.len() - 1]);
            assert forall|j: int| 0 <= j < rest.len() implies #[trigger] rest[j] != separator by {
                assert(rest[j] == s[j]);
            }
            assert(rest.push(s.last()) =~= s);
            assert(split(s, separator) =~= seq![s]);
        }
        if s.last() != separator && k == before.len() - 1 && i == before.last().len() {
            assert(split(s, separator)[k] == before.last().push(s.last()));
        }
    } else {
        assert(s =~= Seq::<T>::empty());
    }
}

/// Trimming takes the blanks at either end, whatever they are, and nothing else.
pub proof fn trimming_takes_the_blanks(front: Seq<u8>, s: Seq<u8>, back: Seq<u8>)
    requires
        forall|i: int| 0 <= i < front.len() ==> [9u8, 10u8, 12u8, 13u8, 32u8]@.contains(#[trigger] front[i]),
        forall|i: int| 0 <= i < back.len() ==> [9u8, 10u8, 12u8, 13u8, 32u8]@.contains(#[trigger] back[i]),
        s.len() > 0 ==> ![9u8, 10u8, 12u8, 13u8, 32u8]@.contains(s[0]) && ![
            9u8,
            10u8,
            12u8,
            13u8,
            32u8,
        ]@.contains(s.last()),
    ensures
        trimmed_bytes(front + s + back) == s,
    decreases front.len() + back.len(),
{
    let blanks = [9u8, 10u8, 12u8, 13u8, 32u8]@;
    assert forall|b: u8| blanks.contains(b) <==> is_ascii_space(b) by {
        assert(blanks[0] == 9 && blanks[1] == 10 && blanks[2] == 12 && blanks[3] == 13 && blanks[4]
            == 32);
    }
    let all = front + s + back;
    if front.len() > 0 {
        assert(all[0] == front[0]);
        assert(blanks.contains(front[0]));
        let rest = front.skip(1);
        assert forall|i: int| 0 <= i < rest.len() implies blanks.contains(#[trigger] rest[i]) by {
            assert(rest[i] == front[i + 1]);
        }
        trimming_takes_the_blanks(rest, s, back);
        assert(all.skip(1) =~= rest + s + back);
    } else if back.len() > 0 {
        assert(all.last() == back.last());
        assert(back.last() == back[back.len() - 1]);
        assert(blanks.contains(back.last()));
        let rest = back.drop_last();
        assert forall|i: int| 0 <= i < rest.len() implies blanks.contains(#[trigger] rest[i]) by {
            assert(rest[i] == back[i]);
        }
        trimming_takes_the_blanks(front, s, rest);
        assert(all.drop_last() =~= front + s + rest);
        if s.len() == 0 {
            assert(all =~= back);
            lemma_all_blank(all);
        } else {
            assert(all[0] == s[0]);
            assert(!is_ascii_space(s[0]));
        }
    } else {
        assert(all =~= s);
    }
}

proof fn lemma_all_blank(s: Seq<u8>)
    requires
        forall|i: int| 0 <= i < s.len() ==> is_ascii_space(#[trigger] s[i]),
    ensures
        trimmed_bytes(s) == Seq::<u8>::empty(),
    decreases s.len(),
{
    if s.len() > 0 {
        assert(is_ascii_space(s[0]));
        let rest = s.skip(1);
        assert forall|i: int| 0 <= i < rest.len() implies is_ascii_space(#[trigger] rest[i]) by {
            assert(rest[i] == s[i + 1]);
        }
        lemma_all_blank(rest);
    } else {
        assert(s =~= Seq::<u8>::empty());
    }
}

/// The same of text, for the blanks that can be typed.
pub proof fn trimming_takes_the_typed_blanks(front: Seq<char>, s: Seq<char>, back: Seq<char>)
    requires
        forall|i: int| 0 <= i < front.len() ==> #[trigger] front[i] == ' ' || front[i] == '\t'
            || front[i] == '\n' || front[i] == '\r',
        forall|i: int| 0 <= i < back.len() ==> #[trigger] back[i] == ' ' || back[i] == '\t' || back[i]
            == '\n' || back[i] == '\r',
        s.len() > 0,
        '!' <= s[0] <= '~',
        '!' <= s.last() <= '~',
    ensures
        trimmed(front + s + back) == s,
    decreases front.len() + back.len(),
{
    let all = front + s + back;
    if front.len() > 0 {
        assert(all[0] == front[0]);
        let rest = front.skip(1);
        assert forall|i: int| 0 <= i < rest.len() implies #[trigger] rest[i] == ' ' || rest[i] == '\t'
            || rest[i] == '\n' || rest[i] == '\r' by {
            assert(rest[i] == front[i + 1]);
        }
        trimming_takes_the_typed_blanks(rest, s, back);
        assert(all.skip(1) =~= rest + s + back);
    } else if back.len() > 0 {
        assert(all[0] == s[0]);
        assert(all.last() == back[back.len() - 1]);
        let rest = back.drop_last();
        assert forall|i: int| 0 <= i < rest.len() implies #[trigger] rest[i] == ' ' || rest[i] == '\t'
            || rest[i] == '\n' || rest[i] == '\r' by {
            assert(rest[i] == back[i]);
        }
        trimming_takes_the_typed_blanks(front, s, rest);
        assert(all.drop_last() =~= front + s + rest);
    } else {
        assert(all =~= s);
    }
}

/// A dictionary goes by the first letter that differs, and puts a word before those
/// that it begins.
pub proof fn a_dictionary_goes_by_the_first_difference(
    front: Seq<char>,
    x: char,
    y: char,
    a: Seq<char>,
    b: Seq<char>,
)
    ensures
        x < y ==> before(front + seq![x] + a, front + seq![y] + b),
        before(front, front + seq![x] + a),
    decreases front.len(),
{
    let s = front + seq![x] + a;
    let t = front + seq![y] + b;
    if front.len() > 0 {
        let rest = front.skip(1);
        a_dictionary_goes_by_the_first_difference(rest, x, y, a, b);
        assert(s.skip(1) =~= rest + seq![x] + a);
        assert(t.skip(1) =~= rest + seq![y] + b);
    } else {
        assert(s[0] == x && t[0] == y);
    }
}

/// Lower case changes the capitals `A` to `Z` to the letters `a` to `z` in their
/// order and nothing else, so it makes no two small letters one.
pub proof fn lower_case_keeps_letters_apart(s: Seq<char>, i: int, k: int)
    requires
        0 <= i < s.len(),
        0 <= k < 26,
    ensures
        lower(s).len() == s.len(),
        s[i] as int == 'A' as int + k ==> lower(s)[i] as int == 'a' as int + k,
        s[i] < 'A' || s[i] > 'Z' ==> lower(s)[i] == s[i],
{
}

/// A padded numeral spells the same number, in at least as many digits as asked for.
pub proof fn padding_keeps_the_number(n: nat, radix: nat, width: nat)
    requires
        2 <= radix <= 16,
    ensures
        zero_padded(numeral(n, radix), width).len() >= width,
        zero_padded(numeral(n, radix), width).len() == width || zero_padded(
            numeral(n, radix),
            width,
        ) == numeral(n, radix),
        number_value(zero_padded(numeral(n, radix), width), radix) == n,
    decreases width,
{
    lemma_numeral_reads_back(n, radix);
    let s = numeral(n, radix);
    if s.len() < width {
        lemma_zeros_in_front((width - s.len()) as nat, s, radix);
    }
}

proof fn lemma_zeros_in_front(zeros: nat, s: Seq<char>, radix: nat)
    requires
        2 <= radix <= 16,
    ensures
        number_value(Seq::new(zeros, |i: int| '0') + s, radix) == number_value(s, radix),
    decreases s.len(), zeros,
{
    let front = Seq::new(zeros, |i: int| '0');
    let all = front + s;
    if s.len() > 0 {
        lemma_zeros_in_front(zeros, s.drop_last(), radix);
        assert(all.drop_last() =~= front + s.drop_last());
        assert(all.last() == s.last());
    } else if zeros > 0 {
        lemma_zeros_in_front((zeros - 1) as nat, s, radix);
        assert(all.drop_last() =~= Seq::new((zeros - 1) as nat, |i: int| '0') + s);
        assert(all.last() == '0');
        assert(0 * radix == 0) by (nonlinear_arith);
    } else {
        assert(all =~= s);
    }
}

/// Reading a number digit by digit: one more digit is ten times what stood before it,
/// and the digit.
pub proof fn a_digit_more_is_ten_times_as_much(s: Seq<char>, d: int)
    requires
        0 <= d <= 9,
    ensures
        number_value(s.push((48 + d) as char), 10) == number_value(s, 10) * 10 + d,
        number_value(Seq::<char>::empty(), 10) == 0,
{
    assert(s.push((48 + d) as char).drop_last() =~= s);
}

/// A digit is one of the ten, or one of the first six letters in either case, and
/// stands for its place among them.
pub proof fn a_letter_is_a_digit_in_either_case(c: char, radix: nat)
    requires
        2 <= radix <= 16,
    ensures
        '0' <= c <= '9' && (c as int - '0' as int) < radix ==> digit_value(c, radix) == Some(
            (c as int - '0' as int) as nat,
        ),
        radix == 10 ==> (digit_value(c, radix) is Some <==> '0' <= c <= '9'),
        radix == 16 && 'a' <= c <= 'f' ==> digit_value(c, radix) == Some(
            (10 + (c as int - 'a' as int)) as nat,
        ),
        radix == 16 && 'A' <= c <= 'F' ==> digit_value(c, radix) == Some(
            (10 + (c as int - 'A' as int)) as nat,
        ),
        digit_value(c, radix) matches Some(d) ==> d < radix,
{
}

/// Decimal digits without a zero in front are the numeral of the number they spell:
/// a number has one such text.
pub proof fn a_number_has_one_numeral(s: Seq<char>)
    requires
        s.len() >= 1,
        all_digits(s, 10),
        s.len() == 1 || s[0] != '0',
    ensures
        decimal(number_value(s, 10)) == s,
        s[0] != '0' ==> number_value(s, 10) >= 1,
    decreases s.len(),
{
    let front = s.drop_last();
    let last = s.last();
    assert(digit_value(s[s.len() - 1], 10) is Some);
    let d = digit_value(last, 10)->0;
    assert(digit_char(d) == last);
    let v = number_value(s, 10);
    if s.len() == 1 {
        assert(number_value(front, 10) == 0);
        assert(decimal(v) =~= s);
    } else {
        assert forall|i: int| 0 <= i < front.len() implies digit_value(#[trigger] front[i], 10)
            is Some by {
            assert(digit_value(s[i], 10) is Some);
        }
        assert(front[0] == s[0]);
        a_number_has_one_numeral(front);
        let w = number_value(front, 10);
        assert(v == w * 10 + d);
        assert(v / 10 == w && v % 10 == d);
        assert(decimal(v) =~= s);
    }
}

/// A text begins with another exactly when the other and something behind it make up
/// the text.
pub proof fn a_text_begins_with_its_front<T>(front: Seq<T>, back: Seq<T>, s: Seq<T>)
    ensures
        starts_with(front + back, front),
        starts_with(s, front) <==> exists|rest: Seq<T>| s == #[trigger] (front + rest),
        s.len() < front.len() ==> !starts_with(s, front),
{
    assert((front + back).take(front.len() as int) =~= front);
    if starts_with(s, front) {
        assert(s =~= front + s.skip(front.len() as int));
    }
    if exists|rest: Seq<T>| s == #[trigger] (front + rest) {
        let rest = choose|rest: Seq<T>| s == #[trigger] (front + rest);
        assert(s.take(front.len() as int) =~= front);
    }
}

/// A number is read from its digits, with a plus sign in front of them or without, as
/// long as it is no larger than it may be. Anything that is no digit makes it none.
pub proof fn a_number_is_read_from_its_digits(n: nat, max: nat, s: Seq<char>, i: int)
    ensures
        n <= max ==> unsigned_value(decimal(n), max) == Some(n) && unsigned_value(
            seq!['+'] + decimal(n),
            max,
        ) == Some(n),
        n > max ==> unsigned_value(decimal(n), max) is None && unsigned_value(
            seq!['+'] + decimal(n),
            max,
        ) is None,
        unsigned_value(Seq::empty(), max) is None,
        unsigned_value(seq!['+'], max) is None,
        0 < i < s.len() && !('0' <= s[i] <= '9') ==> unsigned_value(s, max) is None,
        s.len() > 0 && !('0' <= s[0] <= '9') && s[0] != '+' ==> unsigned_value(s, max) is None,
{
    lemma_numeral_reads_back(n, 10);
    let d = decimal(n);
    let signed = seq!['+'] + d;
    assert(digit_value(d[0], 10) is Some);
    assert(signed[0] == '+');
    assert(signed.skip(1) =~= d);
    assert(seq!['+'].skip(1).len() == 0);
    if 0 < i < s.len() && !('0' <= s[i] <= '9') {
        assert(digit_value(s[i], 10) is None);
        assert(s.skip(1)[i - 1] == s[i]);
    }
    if s.len() > 0 && !('0' <= s[0] <= '9') && s[0] != '+' {
        assert(digit_value(s[0], 10) is None);
    }
}

/// A number below zero is written with a minus sign in front of its digits, and no
/// other is.
pub proof fn only_a_negative_number_has_a_sign(v: int)
    ensures
        v < 0 ==> integer(v)[0] == '-' && number_value(integer(v).skip(1), 10) == -v,
        v >= 0 ==> integer(v)[0] != '-' && number_value(integer(v), 10) == v,
{
    if v < 0 {
        lemma_numeral_reads_back((-v) as nat, 10);
        assert(integer(v).skip(1) =~= decimal((-v) as nat));
    } else {
        lemma_numeral_reads_back(v as nat, 10);
        assert(digit_value(decimal(v as nat)[0], 10) is Some);
    }
}

/// Hexadecimal is written to the base of sixteen, decimal to the base of ten.
pub proof fn each_numeral_has_its_base(n: nat)
    ensures
        number_value(hexadecimal(n), 16) == n,
        number_value(decimal(n), 10) == n,
{
    lemma_numeral_reads_back(n, 16);
    lemma_numeral_reads_back(n, 10);
}

/// A capital letter is lowered to its own small letter, and every other byte stays.
pub proof fn a_capital_byte_has_a_small_one(b: u8)
    ensures
        'A' as u8 <= b <= 'Z' as u8 ==> lower_byte(b) == b - 'A' as u8 + 'a' as u8,
        !('A' as u8 <= b <= 'Z' as u8) ==> lower_byte(b) == b,
{
}

/// The blanks that are typed are white space, and what can be seen in ASCII is not.
pub proof fn typed_blanks_are_white_space(c: char)
    ensures
        is_space(' ') && is_space('\t') && is_space('\n') && is_space('\r'),
        is_space('\u{85}') && is_space('\u{a0}') && is_space('\u{2000}') && is_space(
            '\u{200a}',
        ) && is_space('\u{3000}'),
        '!' <= c <= '~' ==> !is_space(c),
{
}

/// Nothing is left of a text that is all white space.
pub proof fn nothing_is_left_of_white_space(s: Seq<char>)
    requires
        forall|i: int| 0 <= i < s.len() ==> is_space(#[trigger] s[i]),
    ensures
        trimmed(s).len() == 0,
    decreases s.len(),
{
    if s.len() > 0 {
        let rest = s.skip(1);
        assert(is_space(s[0]));
        assert forall|i: int| 0 <= i < rest.len() implies is_space(#[trigger] rest[i]) by {
            assert(rest[i] == s[i + 1]);
        }
        nothing_is_left_of_white_space(rest);
    }
}

} // verus!
