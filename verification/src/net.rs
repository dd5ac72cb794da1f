//! Internet addresses: how they are written, and how they are read back.
//!
//! The reading functions accept what the standard library's `FromStr` accepts:
//! dotted decimal without leading zeros, the IPv6 forms of RFC 4291 with `::`
//! and an embedded IPv4 tail, and `address:port` with the IPv6 address in
//! brackets. The writing functions produce the canonical form of RFC 5952.
//!
//! A reader is stated as a function from text to what it read off the front and
//! what is left, so a complete address is one that leaves nothing.
use vstd::prelude::*;
use crate::text;

verus! {

/// An IPv4 address, most significant octet first.
#[derive(Debug, Clone, Copy, PartialEq, Eq)]
pub struct Ipv4Addr {
    pub octets: [u8; 4],
}

/// An IPv6 address, most significant group first.
#[derive(Debug, Clone, Copy, PartialEq, Eq)]
pub struct Ipv6Addr {
    pub segments: [u16; 8],
}

/// An address of either family.
#[derive(Debug, Clone, Copy, PartialEq, Eq)]
pub enum IpAddr {
    V4(Ipv4Addr),
    V6(Ipv6Addr),
}

/// An address and a port.
///
/// An IPv6 address may carry the numeric id of the zone it is scoped to; zero
/// means that it carries none.
#[derive(Debug, Clone, Copy, PartialEq, Eq)]
pub struct SocketAddr {
    pub ip: IpAddr,
    pub port: u16,
    pub scope_id: u32,
}

/// What an `IpAddr` is, as plain sequences.
pub enum IpView {
    V4(Seq<u8>),
    V6(Seq<u16>),
}

/// What a `SocketAddr` is.
pub struct SocketView {
    pub ip: IpView,
    pub port: nat,
    pub scope_id: nat,
}

impl View for Ipv4Addr {
    type V = Seq<u8>;

    open spec fn view(&self) -> Seq<u8> {
        self.octets@
    }
}

impl View for Ipv6Addr {
    type V = Seq<u16>;

    open spec fn view(&self) -> Seq<u16> {
        self.segments@
    }
}

impl View for IpAddr {
    type V = IpView;

    open spec fn view(&self) -> IpView {
        match self {
            IpAddr::V4(a) => IpView::V4(a@),
            IpAddr::V6(a) => IpView::V6(a@),
        }
    }
}

impl View for SocketAddr {
    type V = SocketView;

    open spec fn view(&self) -> SocketView {
        SocketView { ip: self.ip@, port: self.port as nat, scope_id: self.scope_id as nat }
    }
}

// ---------------------------------------------------------------------------
// Reading
// ---------------------------------------------------------------------------

/// A number at the front of `s`, and what follows it.
///
/// The whole run of digits is taken. It must have between one and `max_digits`
/// digits, spell at most `limit`, and unless `zero_prefix` it must not begin with
/// a zero that is not the whole of it.
pub open spec fn leading_number(
    s: Seq<char>,
    radix: nat,
    max_digits: nat,
    zero_prefix: bool,
    limit: nat,
) -> Option<(nat, Seq<char>)> {
    let run = text::digit_run(s, radix);
    if 1 <= run.len() <= max_digits && text::number_value(run, radix) <= limit && (zero_prefix || run.len() == 1
        || run[0] != '0') {
        Some((text::number_value(run, radix), s.skip(run.len() as int)))
    } else {
        None
    }
}

/// `s` after the character `c`, when that is how it begins.
pub open spec fn after(s: Seq<char>, c: char) -> Option<Seq<char>> {
    if s.len() > 0 && s[0] == c {
        Some(s.skip(1))
    } else {
        None
    }
}

/// One octet of a dotted address.
pub open spec fn leading_octet(s: Seq<char>) -> Option<(nat, Seq<char>)> {
    leading_number(s, 10, 3, false, 255)
}

/// A dot and one octet.
pub open spec fn leading_dot_octet(s: Seq<char>) -> Option<(nat, Seq<char>)> {
    match after(s, '.') {
        None => None,
        Some(rest) => leading_octet(rest),
    }
}

/// A dotted IPv4 address at the front of `s`.
pub open spec fn leading_ipv4(s: Seq<char>) -> Option<(Seq<u8>, Seq<char>)> {
    match leading_octet(s) {
        None => None,
        Some((a, s1)) => match leading_dot_octet(s1) {
            None => None,
            Some((b, s2)) => match leading_dot_octet(s2) {
                None => None,
                Some((c, s3)) => match leading_dot_octet(s3) {
                    None => None,
                    Some((d, s4)) => Some((seq![a as u8, b as u8, c as u8, d as u8], s4)),
                },
            },
        },
    }
}

/// `s` after the separator that stands before every group but the first.
pub open spec fn after_separator(s: Seq<char>, first: bool) -> Option<Seq<char>> {
    if first {
        Some(s)
    } else {
        after(s, ':')
    }
}

/// One group of hexadecimal digits.
pub open spec fn leading_group(s: Seq<char>) -> Option<(nat, Seq<char>)> {
    leading_number(s, 16, 4, true, 0xffff)
}

/// What a list of IPv6 groups at the front of a text comes to.
pub struct GroupsView {
    /// The groups, an embedded IPv4 address counting as two.
    pub groups: Seq<u16>,
    /// Whether the list ended in an embedded IPv4 address.
    pub dotted: bool,
    /// What follows the list.
    pub rest: Seq<char>,
}

/// The two groups that an IPv4 address occupies.
pub open spec fn groups_of_ipv4(a: Seq<u8>) -> Seq<u16> {
    seq![(a[0] * 256 + a[1]) as u16, (a[2] * 256 + a[3]) as u16]
}

/// Up to `limit` groups at the front of `s`, of which `have` were read already.
///
/// An IPv4 address may stand for the last two groups, so it is tried first
/// wherever two groups still fit, and it ends the list.
pub open spec fn leading_groups(s: Seq<char>, have: nat, limit: nat) -> GroupsView
    decreases limit - have,
{
    let none = GroupsView { groups: Seq::empty(), dotted: false, rest: s };
    if have >= limit {
        none
    } else {
        match after_separator(s, have == 0) {
            None => none,
            Some(t) => {
                if have + 1 < limit && leading_ipv4(t) is Some {
                    GroupsView {
                        groups: groups_of_ipv4(leading_ipv4(t)->Some_0.0),
                        dotted: true,
                        rest: leading_ipv4(t)->Some_0.1,
                    }
                } else {
                    match leading_group(t) {
                        None => none,
                        Some((g, rest)) => {
                            let more = leading_groups(rest, have + 1, limit);
                            GroupsView {
                                groups: seq![g as u16] + more.groups,
                                dotted: more.dotted,
                                rest: more.rest,
                            }
                        },
                    }
                }
            },
        }
    }
}

/// `head`, zeros, and `tail`, eight groups in all.
pub open spec fn around_zeros(head: Seq<u16>, tail: Seq<u16>) -> Seq<u16> {
    head + Seq::new((8 - head.len() - tail.len()) as nat, |i: int| 0u16) + tail
}

/// An IPv6 address at the front of `s`.
///
/// Either eight groups, or fewer with one `::` standing for at least one group of
/// zeros.
pub open spec fn leading_ipv6(s: Seq<char>) -> Option<(Seq<u16>, Seq<char>)> {
    let head = leading_groups(s, 0, 8);
    if head.groups.len() == 8 {
        Some((head.groups, head.rest))
    } else if head.dotted || head.rest.len() < 2 || head.rest[0] != ':' || head.rest[1] != ':' {
        None
    } else {
        let tail = leading_groups(head.rest.skip(2), 0, (7 - head.groups.len()) as nat);
        Some((around_zeros(head.groups, tail.groups), tail.rest))
    }
}

/// A colon and a port.
pub open spec fn leading_port(s: Seq<char>) -> Option<(nat, Seq<char>)> {
    match after(s, ':') {
        None => None,
        Some(rest) => leading_number(rest, 10, rest.len(), true, 0xffff),
    }
}

/// A percent sign and a zone id, or zero and nothing read.
pub open spec fn leading_scope(s: Seq<char>) -> (nat, Seq<char>) {
    match after(s, '%') {
        None => (0, s),
        Some(rest) => match leading_number(rest, 10, rest.len(), true, 0xffff_ffff) {
            None => (0, s),
            Some((id, more)) => (id, more),
        },
    }
}

/// `a.b.c.d:port` at the front of `s`.
pub open spec fn leading_socket_v4(s: Seq<char>) -> Option<(SocketView, Seq<char>)> {
    match leading_ipv4(s) {
        None => None,
        Some((ip, s1)) => match leading_port(s1) {
            None => None,
            Some((port, s2)) => Some((SocketView { ip: IpView::V4(ip), port, scope_id: 0 }, s2)),
        },
    }
}

/// `[address%zone]:port` at the front of `s`.
pub open spec fn leading_socket_v6(s: Seq<char>) -> Option<(SocketView, Seq<char>)> {
    match after(s, '[') {
        None => None,
        Some(s0) => match leading_ipv6(s0) {
            None => None,
            Some((ip, s1)) => {
                let (scope_id, s2) = leading_scope(s1);
                match after(s2, ']') {
                    None => None,
                    Some(s3) => match leading_port(s3) {
                        None => None,
                        Some((port, s4)) => Some((SocketView { ip: IpView::V6(ip), port, scope_id }, s4)),
                    },
                }
            },
        },
    }
}

/// What was read, when nothing was left over.
pub open spec fn whole<T>(r: Option<(T, Seq<char>)>) -> Option<T> {
    match r {
        Some((v, rest)) => if rest.len() == 0 {
            Some(v)
        } else {
            None
        },
        None => None,
    }
}

/// The IPv4 address that the whole of `s` spells.
pub open spec fn ipv4_value(s: Seq<char>) -> Option<Seq<u8>> {
    whole(leading_ipv4(s))
}

/// The IPv6 address that the whole of `s` spells.
pub open spec fn ipv6_value(s: Seq<char>) -> Option<Seq<u16>> {
    whole(leading_ipv6(s))
}

/// The socket address that the whole of `s` spells.
pub open spec fn socket_value(s: Seq<char>) -> Option<SocketView> {
    match leading_socket_v4(s) {
        Some((v, rest)) => whole(Some((v, rest))),
        None => whole(leading_socket_v6(s)),
    }
}

/// Reads a number at `pos`, giving its value and the position after it.
fn number_at(s: &[char], pos: usize, radix: u64, max_digits: usize, zero_prefix: bool, limit: u64) -> (r:
    Option<(u64, usize)>)
    requires
        pos <= s@.len(),
        2 <= radix <= 16,
        limit <= 0xffff_ffff,
    ensures
        match r {
            Some((v, p)) => pos <= p <= s@.len() && v <= limit && leading_number(
                s@.skip(pos as int),
                radix as nat,
                max_digits as nat,
                zero_prefix,
                limit as nat,
            ) == Some((v as nat, s@.skip(p as int))),
            None => leading_number(
                s@.skip(pos as int),
                radix as nat,
                max_digits as nat,
                zero_prefix,
                limit as nat,
            ) is None,
        },
{
    let ghost t = s@.skip(pos as int);
    let mut p: usize = pos;
    let mut value: u64 = 0;
    let mut over = false;
    assert(t.take(0) =~= Seq::<char>::empty());
    while p < s.len()
        invariant_except_break
            pos <= p <= s@.len(),
            t == s@.skip(pos as int),
            2 <= radix <= 16,
            limit <= 0xffff_ffff,
            forall|j: int| 0 <= j < p - pos ==> text::digit_value(#[trigger] t[j], radix as nat) is Some,
            !over ==> value <= limit && value == text::number_value(t.take(p - pos), radix as nat),
            over ==> text::number_value(t.take(p - pos), radix as nat) > limit,
        ensures
            pos <= p <= s@.len(),
            forall|j: int| 0 <= j < p - pos ==> text::digit_value(#[trigger] t[j], radix as nat) is Some,
            p < s@.len() ==> text::digit_value(t[p - pos], radix as nat) is None,
            !over ==> value <= limit && value == text::number_value(t.take(p - pos), radix as nat),
            over ==> text::number_value(t.take(p - pos), radix as nat) > limit,
        decreases s@.len() - p,
    {
        assert(t[p - pos] == s@[p as int]);
        match text::read_digit(s[p], radix) {
            None => {
                break;
            },
            Some(d) => {
                proof {
                    assert(t.take(p - pos + 1).drop_last() =~= t.take(p - pos));
                    text::lemma_number_value_grows(t.take(p - pos + 1), radix as nat, p - pos);
                    assert(t.take(p - pos + 1).take(p - pos) =~= t.take(p - pos));
                }
                if !over {
                    assert(value * radix <= 0xffff_ffff * 16) by (nonlinear_arith)
                        requires
                            value <= 0xffff_ffff,
                            radix <= 16,
                    ;
                    let next: u64 = value * radix + d;
                    if next > limit {
                        over = true;
                    } else {
                        value = next;
                    }
                }
                p = p + 1;
            },
        }
    }
    proof {
        text::lemma_digit_run(t, radix as nat, p - pos);
        assert(t.skip(p - pos) =~= s@.skip(p as int));
        if p > pos {
            assert(t.take(p - pos)[0] == s@[pos as int]);
        }
    }
    let count: usize = p - pos;
    if count == 0 || count > max_digits || over {
        return None;
    }
    if !zero_prefix && count > 1 && s[pos] == '0' {
        return None;
    }
    Some((value, p))
}

/// The position after `c`, when `c` stands at `pos`.
fn char_at(s: &[char], pos: usize, c: char) -> (r: Option<usize>)
    requires
        pos <= s@.len(),
    ensures
        match r {
            Some(p) => pos <= p <= s@.len() && after(s@.skip(pos as int), c) == Some(s@.skip(p as int)),
            None => after(s@.skip(pos as int), c) is None,
        },
{
    if pos < s.len() && s[pos] == c {
        assert(s@.skip(pos as int).skip(1) =~= s@.skip(pos + 1));
        Some(pos + 1)
    } else {
        None
    }
}

/// Reads a dot and one octet at `pos`.
fn dot_octet_at(s: &[char], pos: usize) -> (r: Option<(u8, usize)>)
    requires
        pos <= s@.len(),
    ensures
        match r {
            Some((v, p)) => pos <= p <= s@.len() && leading_dot_octet(s@.skip(pos as int)) == Some(
                (v as nat, s@.skip(p as int)),
            ),
            None => leading_dot_octet(s@.skip(pos as int)) is None,
        },
{
    match char_at(s, pos, '.') {
        None => None,
        Some(p) => match number_at(s, p, 10, 3, false, 255) {
            None => None,
            Some((v, q)) => Some((v as u8, q)),
        },
    }
}

/// Reads a dotted IPv4 address at `pos`.
fn ipv4_at(s: &[char], pos: usize) -> (r: Option<(Ipv4Addr, usize)>)
    requires
        pos <= s@.len(),
    ensures
        match r {
            Some((a, p)) => pos <= p <= s@.len() && leading_ipv4(s@.skip(pos as int)) == Some(
                (a@, s@.skip(p as int)),
            ),
            None => leading_ipv4(s@.skip(pos as int)) is None,
        },
{
    let (a, p1) = match number_at(s, pos, 10, 3, false, 255) {
        None => {
            return None;
        },
        Some(x) => x,
    };
    let (b, p2) = match dot_octet_at(s, p1) {
        None => {
            return None;
        },
        Some(x) => x,
    };
    let (c, p3) = match dot_octet_at(s, p2) {
        None => {
            return None;
        },
        Some(x) => x,
    };
    let (d, p4) = match dot_octet_at(s, p3) {
        None => {
            return None;
        },
        Some(x) => x,
    };
    let r = Ipv4Addr { octets: [a as u8, b, c, d] };
    assert(r@ =~= seq![a as u8, b, c, d]);
    Some((r, p4))
}

/// Reads up to `limit` IPv6 groups from `pos`.
fn groups_at(s: &[char], pos: usize, limit: usize) -> (r: (Vec<u16>, bool, usize))
    requires
        pos <= s@.len(),
        limit <= 8,
    ensures
        r.0@.len() <= limit,
        pos <= r.2 <= s@.len(),
        leading_groups(s@.skip(pos as int), 0, limit as nat) == (GroupsView {
            groups: r.0@,
            dotted: r.1,
            rest: s@.skip(r.2 as int),
        }),
{
    let mut groups: Vec<u16> = Vec::new();
    let mut p: usize = pos;
    let ghost total = leading_groups(s@.skip(pos as int), 0, limit as nat);
    assert(groups@ + total.groups =~= total.groups);
    while groups.len() < limit
        invariant
            pos <= p <= s@.len(),
            groups@.len() <= limit <= 8,
            ({
                let more = leading_groups(s@.skip(p as int), groups@.len(), limit as nat);
                &&& total.groups == groups@ + more.groups
                &&& total.dotted == more.dotted
                &&& total.rest == more.rest
            }),
            total == leading_groups(s@.skip(pos as int), 0, limit as nat),
        decreases limit - groups@.len(),
    {
        let have: usize = groups.len();
        let start: usize = if have == 0 {
            p
        } else {
            match char_at(s, p, ':') {
                None => {
                    assert(groups@ + Seq::<u16>::empty() =~= groups@);
                    return (groups, false, p);
                },
                Some(q) => q,
            }
        };
        if have + 1 < limit {
            if let Some((a, q)) = ipv4_at(s, start) {
                let ghost before = groups@;
                groups.push(a.octets[0] as u16 * 256 + a.octets[1] as u16);
                groups.push(a.octets[2] as u16 * 256 + a.octets[3] as u16);
                assert(groups@ =~= before + groups_of_ipv4(a@));
                return (groups, true, q);
            }
        }
        match number_at(s, start, 16, 4, true, 0xffff) {
            None => {
                assert(groups@ + Seq::<u16>::empty() =~= groups@);
                return (groups, false, p);
            },
            Some((g, q)) => {
                let ghost before = groups@;
                let ghost more = leading_groups(s@.skip(q as int), have as nat + 1, limit as nat);
                groups.push(g as u16);
                proof {
                    assert(before + (seq![g as u16] + more.groups) =~= groups@ + more.groups);
                }
                p = q;
            },
        }
    }
    assert(groups@ + Seq::<u16>::empty() =~= groups@);
    (groups, false, p)
}

/// Reads an IPv6 address at `pos`.
fn ipv6_at(s: &[char], pos: usize) -> (r: Option<(Ipv6Addr, usize)>)
    requires
        pos <= s@.len(),
    ensures
        match r {
            Some((a, p)) => pos <= p <= s@.len() && leading_ipv6(s@.skip(pos as int)) == Some(
                (a@, s@.skip(p as int)),
            ),
            None => leading_ipv6(s@.skip(pos as int)) is None,
        },
{
    let (head, dotted, p) = groups_at(s, pos, 8);
    let mut segments: [u16; 8] = [0, 0, 0, 0, 0, 0, 0, 0];
    let mut i: usize = 0;
    while i < head.len()
        invariant
            i <= head@.len() <= 8,
            forall|j: int| 0 <= j < i ==> segments@[j] == head@[j],
            forall|j: int| i <= j < 8 ==> segments@[j] == 0,
        decreases head@.len() - i,
    {
        segments[i] = head[i];
        i = i + 1;
    }
    if head.len() == 8 {
        assert(segments@ =~= head@);
        return Some((Ipv6Addr { segments }, p));
    }
    if dotted {
        return None;
    }
    if !(p < s.len() && s[p] == ':' && p + 1 < s.len() && s[p + 1] == ':') {
        proof {
            let rest = s@.skip(p as int);
            if rest.len() >= 2 {
                assert(rest[0] == s@[p as int] && rest[1] == s@[p + 1]);
            }
        }
        return None;
    }
    assert(s@.skip(p as int).skip(2) =~= s@.skip(p + 2));
    let (tail, _tail_dotted, q) = groups_at(s, p + 2, 7 - head.len());
    let gap: usize = 8 - tail.len();
    let mut k: usize = 0;
    while k < tail.len()
        invariant
            k <= tail@.len() <= 7 - head@.len(),
            head@.len() < 8,
            gap == 8 - tail@.len(),
            forall|j: int| 0 <= j < head@.len() ==> segments@[j] == head@[j],
            forall|j: int| head@.len() <= j < gap ==> segments@[j] == 0,
            forall|j: int| 0 <= j < k ==> segments@[gap + j] == tail@[j],
        decreases tail@.len() - k,
    {
        segments[gap + k] = tail[k];
        k = k + 1;
    }
    assert forall|j: int| 0 <= j < 8 implies segments@[j] == around_zeros(head@, tail@)[j] by {
        if j >= gap {
            assert(segments@[gap + (j - gap)] == tail@[j - gap]);
        }
    }
    assert(segments@ =~= around_zeros(head@, tail@));
    Some((Ipv6Addr { segments }, q))
}

/// Reads an IPv4 address: four decimal octets without leading zeros.
pub fn parse_ipv4(s: &[char]) -> (r: Option<Ipv4Addr>)
    ensures
        match r {
            Some(a) => ipv4_value(s@) == Some(a@),
            None => ipv4_value(s@) is None,
        },
{
    assert(s@.skip(0) =~= s@);
    match ipv4_at(s, 0) {
        Some((a, p)) => if p == s.len() {
            Some(a)
        } else {
            None
        },
        None => None,
    }
}

/// Reads an IPv6 address.
pub fn parse_ipv6(s: &[char]) -> (r: Option<Ipv6Addr>)
    ensures
        match r {
            Some(a) => ipv6_value(s@) == Some(a@),
            None => ipv6_value(s@) is None,
        },
{
    assert(s@.skip(0) =~= s@);
    match ipv6_at(s, 0) {
        Some((a, p)) => if p == s.len() {
            Some(a)
        } else {
            None
        },
        None => None,
    }
}

/// Reads a colon and a port at `pos`.
fn port_at(s: &[char], pos: usize) -> (r: Option<(u16, usize)>)
    requires
        pos <= s@.len(),
    ensures
        match r {
            Some((v, p)) => pos <= p <= s@.len() && leading_port(s@.skip(pos as int)) == Some(
                (v as nat, s@.skip(p as int)),
            ),
            None => leading_port(s@.skip(pos as int)) is None,
        },
{
    match char_at(s, pos, ':') {
        None => None,
        Some(p) => match number_at(s, p, 10, s.len() - p, true, 0xffff) {
            None => None,
            Some((v, q)) => Some((v as u16, q)),
        },
    }
}

/// Reads a socket address.
pub fn parse_socket(s: &[char]) -> (r: Option<SocketAddr>)
    ensures
        match r {
            Some(a) => socket_value(s@) == Some(a@),
            None => socket_value(s@) is None,
        },
{
    assert(s@.skip(0) =~= s@);
    if let Some((ip, p)) = ipv4_at(s, 0) {
        if let Some((port, q)) = port_at(s, p) {
            return if q == s.len() {
                Some(SocketAddr { ip: IpAddr::V4(ip), port, scope_id: 0 })
            } else {
                None
            };
        }
    }
    let p0: usize = match char_at(s, 0, '[') {
        None => {
            return None;
        },
        Some(p) => p,
    };
    let (ip, p1) = match ipv6_at(s, p0) {
        None => {
            return None;
        },
        Some(x) => x,
    };
    let (scope_id, p2) = match char_at(s, p1, '%') {
        None => (0u32, p1),
        Some(q) => match number_at(s, q, 10, s.len() - q, true, 0xffff_ffff) {
            None => (0u32, p1),
            Some((v, q2)) => (v as u32, q2),
        },
    };
    let p3: usize = match char_at(s, p2, ']') {
        None => {
            return None;
        },
        Some(p) => p,
    };
    match port_at(s, p3) {
        None => None,
        Some((port, p4)) => if p4 == s.len() {
            Some(SocketAddr { ip: IpAddr::V6(ip), port, scope_id })
        } else {
            None
        },
    }
}

// ---------------------------------------------------------------------------
// Writing
// ---------------------------------------------------------------------------

/// An IPv4 address in dotted decimal.
pub open spec fn ipv4_text(a: Seq<u8>) -> Seq<char> {
    text::decimal(a[0] as nat) + seq!['.'] + text::decimal(a[1] as nat) + seq!['.'] + text::decimal(
        a[2] as nat,
    ) + seq!['.'] + text::decimal(a[3] as nat)
}

/// Groups in hexadecimal, separated by colons.
pub open spec fn groups_text(g: Seq<u16>) -> Seq<char>
    decreases g.len(),
{
    if g.len() == 0 {
        Seq::empty()
    } else if g.len() == 1 {
        text::hexadecimal(g[0] as nat)
    } else {
        groups_text(g.drop_last()) + seq![':'] + text::hexadecimal(g.last() as nat)
    }
}

/// How many zeros stand in `g` from position `i` on, without a gap.
pub open spec fn zeros_from(g: Seq<u16>, i: int) -> nat
    decreases g.len() - i,
{
    if i < 0 || i >= g.len() || g[i] != 0 {
        0
    } else {
        1 + zeros_from(g, i + 1)
    }
}

/// Where the longest run of zeros at or after position `i` begins, the first of
/// them when several are equally long.
pub open spec fn longest_zeros(g: Seq<u16>, i: int) -> int
    decreases g.len() - i,
{
    if i < 0 || i + 1 >= g.len() {
        i
    } else {
        let later = longest_zeros(g, i + 1);
        if zeros_from(g, i) >= zeros_from(g, later) {
            i
        } else {
            later
        }
    }
}

/// The longest run of zeros is no shorter than any other, and longer than any
/// before it.
pub proof fn longest_zeros_is_the_first_longest(g: Seq<u16>, i: int)
    requires
        0 <= i < g.len(),
    ensures
        i <= longest_zeros(g, i) < g.len(),
        forall|j: int|
            i <= j < g.len() ==> #[trigger] zeros_from(g, j) <= zeros_from(g, longest_zeros(g, i)),
        forall|j: int|
            i <= j < longest_zeros(g, i) ==> #[trigger] zeros_from(g, j) < zeros_from(
                g,
                longest_zeros(g, i),
            ),
    decreases g.len() - i,
{
    if i + 1 < g.len() {
        longest_zeros_is_the_first_longest(g, i + 1);
    }
}

/// Whether an IPv6 address stands for an IPv4 one.
pub open spec fn is_mapped(g: Seq<u16>) -> bool {
    &&& g[0] == 0 && g[1] == 0 && g[2] == 0 && g[3] == 0 && g[4] == 0
    &&& g[5] == 0xffff
}

/// The IPv4 address in the last two groups.
pub open spec fn low_octets(g: Seq<u16>) -> Seq<u8> {
    seq![(g[6] / 256) as u8, (g[6] % 256) as u8, (g[7] / 256) as u8, (g[7] % 256) as u8]
}

/// An IPv6 address as RFC 5952 writes it: the longest run of at least two zero
/// groups as `::`, and a mapped IPv4 address in dotted decimal.
pub open spec fn ipv6_text(g: Seq<u16>) -> Seq<char> {
    let start = longest_zeros(g, 0);
    let end = start + zeros_from(g, start);
    if is_mapped(g) {
        seq![':', ':', 'f', 'f', 'f', 'f', ':'] + ipv4_text(low_octets(g))
    } else if zeros_from(g, start) > 1 {
        groups_text(g.take(start)) + seq![':', ':'] + groups_text(g.skip(end))
    } else {
        groups_text(g)
    }
}

/// An address as text.
pub open spec fn ip_text(a: IpView) -> Seq<char> {
    match a {
        IpView::V4(o) => ipv4_text(o),
        IpView::V6(g) => ipv6_text(g),
    }
}

/// A socket address as text: `a.b.c.d:port`, or `[address%zone]:port` with the
/// zone left out when it is zero.
pub open spec fn socket_text(a: SocketView) -> Seq<char> {
    match a.ip {
        IpView::V4(o) => ipv4_text(o) + seq![':'] + text::decimal(a.port),
        IpView::V6(g) => seq!['['] + ipv6_text(g) + (if a.scope_id == 0 {
            Seq::empty()
        } else {
            seq!['%'] + text::decimal(a.scope_id)
        }) + seq![']', ':'] + text::decimal(a.port),
    }
}

/// Appends four octets in dotted decimal.
fn push_octets(out: &mut String, a: u8, b: u8, c: u8, d: u8)
    ensures
        final(out)@ == old(out)@ + ipv4_text(seq![a, b, c, d]),
{
    text::push_decimal(out, a as u64);
    out.push('.');
    text::push_decimal(out, b as u64);
    out.push('.');
    text::push_decimal(out, c as u64);
    out.push('.');
    text::push_decimal(out, d as u64);
    assert(out@ =~= old(out)@ + ipv4_text(seq![a, b, c, d]));
}

/// Appends the groups `from..to`, separated by colons.
fn push_groups(out: &mut String, g: &[u16; 8], from: usize, to: usize)
    requires
        from <= to <= 8,
    ensures
        final(out)@ == old(out)@ + groups_text(g@.subrange(from as int, to as int)),
{
    let mut i: usize = from;
    assert(out@ =~= old(out)@ + groups_text(g@.subrange(from as int, i as int)));
    while i < to
        invariant
            from <= i <= to <= 8,
            out@ == old(out)@ + groups_text(g@.subrange(from as int, i as int)),
        decreases to - i,
    {
        if i > from {
            out.push(':');
        }
        text::push_numeral(out, g[i] as u128, 16);
        proof {
            let now = g@.subrange(from as int, i + 1);
            assert(now.drop_last() =~= g@.subrange(from as int, i as int));
            assert(now.last() == g@[i as int]);
            assert(out@ =~= old(out)@ + groups_text(now));
        }
        i = i + 1;
    }
}

impl Ipv4Addr {
    /// The address in dotted decimal.
    pub fn to_text(&self) -> (r: String)
        ensures
            r@ == ipv4_text(self@),
    {
        let mut out = String::new();
        push_octets(&mut out, self.octets[0], self.octets[1], self.octets[2], self.octets[3]);
        assert(self@ =~= seq![self.octets[0], self.octets[1], self.octets[2], self.octets[3]]);
        assert(out@ =~= ipv4_text(self@));
        out
    }
}

impl Ipv6Addr {
    /// How many zero groups stand from position `i` on, without a gap.
    fn run_at(&self, i: usize) -> (r: usize)
        requires
            i <= 8,
        ensures
            r == zeros_from(self@, i as int),
            i + r <= 8,
        decreases 8 - i,
    {
        if i < 8 && self.segments[i] == 0 {
            1 + self.run_at(i + 1)
        } else {
            0
        }
    }

    /// Where the first of the longest runs of zeros at or after `i` begins.
    fn longest_run(&self, i: usize) -> (r: usize)
        requires
            i < 8,
        ensures
            r == longest_zeros(self@, i as int),
            i <= r < 8,
        decreases 8 - i,
    {
        if i + 1 >= 8 {
            i
        } else {
            let later: usize = self.longest_run(i + 1);
            if self.run_at(i) >= self.run_at(later) {
                i
            } else {
                later
            }
        }
    }

    /// The address in its canonical form.
    pub fn to_text(&self) -> (r: String)
        ensures
            r@ == ipv6_text(self@),
    {
        let mut out = String::new();
        let g = &self.segments;
        if g[0] == 0 && g[1] == 0 && g[2] == 0 && g[3] == 0 && g[4] == 0 && g[5] == 0xffff {
            proof {
                reveal_strlit("::ffff:");
            }
            text::push_text(&mut out, "::ffff:");
            push_octets(
                &mut out,
                (g[6] / 256) as u8,
                (g[6] % 256) as u8,
                (g[7] / 256) as u8,
                (g[7] % 256) as u8,
            );
            assert("::ffff:"@ =~= seq![':', ':', 'f', 'f', 'f', 'f', ':']);
            assert(out@ =~= ipv6_text(self@));
            return out;
        }
        let start: usize = self.longest_run(0);
        let len: usize = self.run_at(start);
        if len > 1 {
            push_groups(&mut out, g, 0, start);
            out.push(':');
            out.push(':');
            push_groups(&mut out, g, start + len, 8);
            assert(self@.subrange(0, start as int) =~= self@.take(start as int));
            assert(self@.subrange(start + len, 8) =~= self@.skip(start + len));
            assert(out@ =~= ipv6_text(self@));
        } else {
            push_groups(&mut out, g, 0, 8);
            assert(self@.subrange(0, 8) =~= self@);
            assert(out@ =~= ipv6_text(self@));
        }
        out
    }
}

impl IpAddr {
    /// The address as text.
    pub fn to_text(&self) -> (r: String)
        ensures
            r@ == ip_text(self@),
    {
        match self {
            IpAddr::V4(a) => a.to_text(),
            IpAddr::V6(a) => a.to_text(),
        }
    }
}

impl SocketAddr {
    /// An IPv4 address and a port.
    pub fn v4(octets: [u8; 4], port: u16) -> (r: SocketAddr)
        ensures
            r@ == (SocketView { ip: IpView::V4(octets@), port: port as nat, scope_id: 0 }),
    {
        SocketAddr { ip: IpAddr::V4(Ipv4Addr { octets }), port, scope_id: 0 }
    }

    /// Whether the address is an IPv6 one.
    pub fn is_ipv6(&self) -> (r: bool)
        ensures
            r == (self@.ip is V6),
    {
        match self.ip {
            IpAddr::V4(_) => false,
            IpAddr::V6(_) => true,
        }
    }

    /// The address as text, an IPv6 one in brackets.
    pub fn to_text(&self) -> (r: String)
        ensures
            r@ == socket_text(self@),
    {
        match self.ip {
            IpAddr::V4(a) => {
                let mut out = a.to_text();
                out.push(':');
                text::push_decimal(&mut out, self.port as u64);
                assert(out@ =~= socket_text(self@));
                out
            },
            IpAddr::V6(a) => {
                let mut out = String::new();
                out.push('[');
                let ip = a.to_text();
                text::push_text(&mut out, ip.as_str());
                if self.scope_id != 0 {
                    out.push('%');
                    text::push_decimal(&mut out, self.scope_id as u64);
                }
                out.push(']');
                out.push(':');
                text::push_decimal(&mut out, self.port as u64);
                assert(out@ =~= socket_text(self@));
                out
            },
        }
    }
}

// ---------------------------------------------------------------------------
// What is written reads back
// ---------------------------------------------------------------------------

/// A number that is followed by no further digit reads back, and leaves what
/// followed it.
proof fn lemma_number_reads_back(
    n: nat,
    radix: nat,
    max_digits: nat,
    zero_prefix: bool,
    limit: nat,
    rest: Seq<char>,
)
    requires
        2 <= radix <= 16,
        n <= limit,
        text::numeral(n, radix).len() <= max_digits,
        rest.len() > 0 ==> text::digit_value(rest[0], radix) is None,
    ensures
        leading_number(text::numeral(n, radix) + rest, radix, max_digits, zero_prefix, limit) == Some(
            (n, rest),
        ),
{
    let s = text::numeral(n, radix);
    text::lemma_numeral_reads_back(n, radix);
    text::lemma_numeral_is_a_run(n, radix, rest);
    assert((s + rest).skip(s.len() as int) =~= rest);
    if s[0] == '0' {
        assert(s.len() == 1);
    }
}

/// An octet reads back.
proof fn lemma_octet_reads_back(n: u8, rest: Seq<char>)
    requires
        rest.len() > 0 ==> text::digit_value(rest[0], 10) is None,
    ensures
        leading_octet(text::decimal(n as nat) + rest) == Some((n as nat, rest)),
{
    assert(vstd::arithmetic::power::pow(10, 3) == 1000) by {
        reveal_with_fuel(vstd::arithmetic::power::pow, 4);
    }
    text::lemma_numeral_length(n as nat, 10, 1000, 3);
    lemma_number_reads_back(n as nat, 10, 3, false, 255, rest);
}

/// A group reads back.
proof fn lemma_group_reads_back(n: u16, rest: Seq<char>)
    requires
        rest.len() > 0 ==> text::digit_value(rest[0], 16) is None,
    ensures
        leading_group(text::hexadecimal(n as nat) + rest) == Some((n as nat, rest)),
{
    assert(vstd::arithmetic::power::pow(16, 4) == 0x10000) by {
        reveal_with_fuel(vstd::arithmetic::power::pow, 5);
    }
    text::lemma_numeral_length(n as nat, 16, 0x10000, 4);
    lemma_number_reads_back(n as nat, 16, 4, true, 0xffff, rest);
}

/// Four pieces with dots between them, taken from the front.
proof fn lemma_dotted(p: Seq<char>, q: Seq<char>, r: Seq<char>, t: Seq<char>, rest: Seq<char>)
    ensures
        p + seq!['.'] + q + seq!['.'] + r + seq!['.'] + t + rest == p + (seq!['.'] + (q + (seq!['.'] + (r
            + (seq!['.'] + (t + rest)))))),
{
    assert(p + seq!['.'] + q + seq!['.'] + r + seq!['.'] + t + rest =~= p + (seq!['.'] + (q + (seq!['.']
        + (r + (seq!['.'] + (t + rest)))))));
}

/// A dot and an octet read back.
proof fn lemma_dot_octet_reads_back(n: u8, rest: Seq<char>)
    requires
        rest.len() > 0 ==> text::digit_value(rest[0], 10) is None,
    ensures
        leading_dot_octet(seq!['.'] + (text::decimal(n as nat) + rest)) == Some((n as nat, rest)),
{
    let s = seq!['.'] + (text::decimal(n as nat) + rest);
    assert(s.skip(1) =~= text::decimal(n as nat) + rest);
    lemma_octet_reads_back(n, rest);
}

/// Four octets, each read where the one before it ended, are an address.
proof fn lemma_ipv4_from_octets(
    s: Seq<char>,
    a: Seq<u8>,
    s1: Seq<char>,
    s2: Seq<char>,
    s3: Seq<char>,
    rest: Seq<char>,
)
    requires
        a.len() == 4,
        leading_octet(s) == Some((a[0] as nat, s1)),
        leading_dot_octet(s1) == Some((a[1] as nat, s2)),
        leading_dot_octet(s2) == Some((a[2] as nat, s3)),
        leading_dot_octet(s3) == Some((a[3] as nat, rest)),
    ensures
        leading_ipv4(s) == Some((a, rest)),
{
    assert(seq![a[0], a[1], a[2], a[3]] =~= a);
}

/// A dotted address reads back.
proof fn lemma_ipv4_reads_back(a: Seq<u8>, rest: Seq<char>)
    requires
        a.len() == 4,
        rest.len() > 0 ==> text::digit_value(rest[0], 10) is None,
    ensures
        leading_ipv4(ipv4_text(a) + rest) == Some((a, rest)),
{
    let p = text::decimal(a[0] as nat);
    let q = text::decimal(a[1] as nat);
    let r = text::decimal(a[2] as nat);
    let t = text::decimal(a[3] as nat);
    lemma_dotted(p, q, r, t, rest);
    let s3 = seq!['.'] + (t + rest);
    let s2 = seq!['.'] + (r + s3);
    let s1 = seq!['.'] + (q + s2);
    assert(s1[0] == '.' && s2[0] == '.' && s3[0] == '.');
    assert(text::digit_value('.', 10) is None);
    assert(leading_octet(p + s1) == Some((a[0] as nat, s1))) by {
        lemma_octet_reads_back(a[0], s1);
    }
    assert(leading_dot_octet(s1) == Some((a[1] as nat, s2))) by {
        lemma_dot_octet_reads_back(a[1], s2);
    }
    assert(leading_dot_octet(s2) == Some((a[2] as nat, s3))) by {
        lemma_dot_octet_reads_back(a[2], s3);
    }
    assert(leading_dot_octet(s3) == Some((a[3] as nat, rest))) by {
        lemma_dot_octet_reads_back(a[3], rest);
    }
    lemma_ipv4_from_octets(p + s1, a, s1, s2, s3, rest);
}

/// A text whose first character after its decimal digits is not a dot is no
/// dotted address.
proof fn lemma_no_dot_no_ipv4(s: Seq<char>, i: int)
    requires
        0 <= i <= s.len(),
        forall|j: int| 0 <= j < i ==> text::digit_value(#[trigger] s[j], 16) is Some,
        i < s.len() ==> text::digit_value(s[i], 16) is None && s[i] != '.',
    ensures
        leading_ipv4(s) is None,
    decreases i,
{
    let run = text::digit_run(s, 10);
    lemma_run_is_prefix(s, 10);
    let n = run.len() as int;
    if n > i {
        assert(text::digit_value(s[i], 10) is Some);
        assert(text::digit_value(s[i], 16) is Some);
    }
    if n < s.len() {
        if n < i {
            assert(text::digit_value(s[n], 16) is Some);
        }
        assert(s.skip(n)[0] == s[n]);
    }
}

/// What a digit run is, position by position.
proof fn lemma_run_is_prefix(s: Seq<char>, radix: nat)
    ensures
        text::digit_run(s, radix).len() <= s.len(),
        forall|j: int|
            0 <= j < text::digit_run(s, radix).len() ==> text::digit_value(#[trigger] s[j], radix) is Some,
        text::digit_run(s, radix).len() < s.len() ==> text::digit_value(
            s[text::digit_run(s, radix).len() as int],
            radix,
        ) is None,
    decreases s.len(),
{
    if s.len() > 0 && text::digit_value(s[0], radix) is Some {
        let t = s.skip(1);
        lemma_run_is_prefix(t, radix);
        assert forall|j: int| 0 <= j < text::digit_run(s, radix).len() implies text::digit_value(
            #[trigger] s[j],
            radix,
        ) is Some by {
            if j > 0 {
                assert(t[j - 1] == s[j]);
            }
        }
        let n = text::digit_run(s, radix).len() as int;
        if n < s.len() {
            assert(t[n - 1] == s[n]);
        }
    }
}

/// Groups in hexadecimal, each with a colon in front.
spec fn tail_text(g: Seq<u16>) -> Seq<char>
    decreases g.len(),
{
    if g.len() == 0 {
        Seq::empty()
    } else {
        seq![':'] + text::hexadecimal(g[0] as nat) + tail_text(g.skip(1))
    }
}

/// The same, adding one group at the end.
proof fn lemma_tail_text_last(g: Seq<u16>)
    requires
        g.len() >= 1,
    ensures
        tail_text(g) == tail_text(g.drop_last()) + seq![':'] + text::hexadecimal(g.last() as nat),
    decreases g.len(),
{
    reveal_with_fuel(tail_text, 2);
    if g.len() > 1 {
        lemma_tail_text_last(g.skip(1));
        assert(g.skip(1).drop_last() =~= g.drop_last().skip(1));
        assert(tail_text(g) =~= tail_text(g.drop_last()) + seq![':'] + text::hexadecimal(g.last() as nat));
    } else {
        assert(tail_text(g) =~= tail_text(g.drop_last()) + seq![':'] + text::hexadecimal(g.last() as nat));
    }
}

/// A list of groups is its first group and then the others.
proof fn lemma_groups_text_first(g: Seq<u16>)
    requires
        g.len() >= 1,
    ensures
        groups_text(g) == text::hexadecimal(g[0] as nat) + tail_text(g.skip(1)),
    decreases g.len(),
{
    if g.len() == 1 {
        assert(groups_text(g) =~= text::hexadecimal(g[0] as nat) + tail_text(g.skip(1)));
    } else {
        lemma_groups_text_first(g.drop_last());
        lemma_tail_text_last(g.skip(1));
        assert(g.drop_last().skip(1) =~= g.skip(1).drop_last());
        assert(groups_text(g) =~= text::hexadecimal(g[0] as nat) + tail_text(g.skip(1)));
    }
}

/// Whether a list of groups that is followed by this text ends there.
spec fn ends_groups(rest: Seq<char>) -> bool {
    ||| rest.len() == 0
    ||| rest.len() >= 2 && rest[0] == ':' && rest[1] == ':'
    ||| text::digit_value(rest[0], 16) is None && rest[0] != '.' && rest[0] != ':'
}

/// Groups with a colon in front of each read back.
proof fn lemma_tail_reads_back(g: Seq<u16>, have: nat, limit: nat, rest: Seq<char>)
    requires
        have >= 1,
        have + g.len() <= limit,
        ends_groups(rest),
    ensures
        leading_groups(tail_text(g) + rest, have, limit) == (GroupsView { groups: g, dotted: false, rest }),
    decreases g.len(),
{
    if g.len() == 0 {
        assert(tail_text(g) + rest =~= rest);
        assert(g =~= Seq::<u16>::empty());
        if have < limit && rest.len() >= 2 && rest[0] == ':' && rest[1] == ':' {
            let t = rest.skip(1);
            assert(t[0] == ':');
            lemma_no_dot_no_ipv4(t, 0);
            assert(text::digit_run(t, 16) =~= Seq::<char>::empty());
        }
    } else {
        let more = tail_text(g.skip(1)) + rest;
        let hex = text::hexadecimal(g[0] as nat);
        let s = tail_text(g) + rest;
        assert(s =~= seq![':'] + (hex + more));
        assert(s.skip(1) =~= hex + more);
        if g.len() == 1 {
            assert(more =~= rest);
        } else {
            assert(more[0] == ':');
        }
        text::lemma_numeral_reads_back(g[0] as nat, 16);
        assert forall|j: int| 0 <= j < hex.len() implies text::digit_value(#[trigger] (hex + more)[j], 16) is Some by {
            assert((hex + more)[j] == hex[j]);
        }
        if more.len() > 0 {
            assert((hex + more)[hex.len() as int] == more[0]);
        }
        lemma_no_dot_no_ipv4(hex + more, hex.len() as int);
        lemma_group_reads_back(g[0], more);
        lemma_tail_reads_back(g.skip(1), have + 1, limit, rest);
        assert(seq![g[0]] + g.skip(1) =~= g);
    }
}

/// A list of groups reads back.
proof fn lemma_groups_read_back(g: Seq<u16>, limit: nat, rest: Seq<char>)
    requires
        g.len() <= limit,
        ends_groups(rest),
        g.len() == 0 ==> limit == 0 || rest.len() == 0 || text::digit_value(rest[0], 16) is None,
    ensures
        leading_groups(groups_text(g) + rest, 0, limit) == (GroupsView { groups: g, dotted: false, rest }),
{
    if g.len() == 0 {
        assert(groups_text(g) + rest =~= rest);
        assert(g =~= Seq::<u16>::empty());
        if limit > 0 {
            lemma_no_dot_no_ipv4(rest, 0);
            assert(text::digit_run(rest, 16) =~= Seq::<char>::empty());
        }
    } else {
        lemma_groups_text_first(g);
        let more = tail_text(g.skip(1)) + rest;
        let hex = text::hexadecimal(g[0] as nat);
        assert(groups_text(g) + rest =~= hex + more);
        if g.len() == 1 {
            assert(more =~= rest);
        } else {
            assert(more[0] == ':');
        }
        text::lemma_numeral_reads_back(g[0] as nat, 16);
        assert forall|j: int| 0 <= j < hex.len() implies text::digit_value(#[trigger] (hex + more)[j], 16) is Some by {
            assert((hex + more)[j] == hex[j]);
        }
        if more.len() > 0 {
            assert((hex + more)[hex.len() as int] == more[0]);
        }
        lemma_no_dot_no_ipv4(hex + more, hex.len() as int);
        lemma_group_reads_back(g[0], more);
        lemma_tail_reads_back(g.skip(1), 1, limit, rest);
        assert(seq![g[0]] + g.skip(1) =~= g);
    }
}

/// A run of zeros is what its length says.
proof fn lemma_zeros_from(g: Seq<u16>, i: int)
    requires
        0 <= i <= g.len(),
    ensures
        i + zeros_from(g, i) <= g.len(),
        forall|j: int| i <= j < i + zeros_from(g, i) ==> g[j] == 0,
    decreases g.len() - i,
{
    if i < g.len() && g[i] == 0 {
        lemma_zeros_from(g, i + 1);
    }
}

/// Whether an address may be followed by this text.
spec fn ends_address(rest: Seq<char>) -> bool {
    rest.len() == 0 || text::digit_value(rest[0], 16) is None && rest[0] != '.' && rest[0] != ':'
}

/// A group, a colon and a dotted address read back as three groups.
proof fn lemma_dotted_tail_reads_back(n: u16, o: Seq<u8>, rest: Seq<char>)
    requires
        o.len() == 4,
        ends_address(rest),
    ensures
        leading_groups(text::hexadecimal(n as nat) + (seq![':'] + (ipv4_text(o) + rest)), 0, 7) == (
        GroupsView { groups: seq![n] + groups_of_ipv4(o), dotted: true, rest }),
{
    let hex = text::hexadecimal(n as nat);
    let dotted = ipv4_text(o) + rest;
    let more = seq![':'] + dotted;
    let s = hex + more;
    assert(leading_ipv4(s) is None) by {
        text::lemma_numeral_reads_back(n as nat, 16);
        assert forall|j: int| 0 <= j < hex.len() implies text::digit_value(#[trigger] s[j], 16) is Some by {
            assert(s[j] == hex[j]);
        }
        assert(s[hex.len() as int] == ':');
        lemma_no_dot_no_ipv4(s, hex.len() as int);
    }
    assert(leading_group(s) == Some((n as nat, more))) by {
        lemma_group_reads_back(n, more);
    }
    assert(more.skip(1) =~= dotted);
    assert(leading_ipv4(dotted) == Some((o, rest))) by {
        if rest.len() > 0 {
            assert(text::digit_value(rest[0], 10) is None);
        }
        lemma_ipv4_reads_back(o, rest);
    }
    lemma_dotted_second(more, dotted, o, rest);
}

/// A colon and a dotted address end a list of groups.
proof fn lemma_dotted_second(more: Seq<char>, dotted: Seq<char>, o: Seq<u8>, rest: Seq<char>)
    requires
        after(more, ':') == Some(dotted),
        leading_ipv4(dotted) == Some((o, rest)),
    ensures
        leading_groups(more, 1, 7) == (GroupsView { groups: groups_of_ipv4(o), dotted: true, rest }),
{
}

/// A mapped IPv4 address reads back.
proof fn lemma_mapped_reads_back(g: Seq<u16>, rest: Seq<char>)
    requires
        g.len() == 8,
        is_mapped(g),
        ends_address(rest),
    ensures
        leading_ipv6(ipv6_text(g) + rest) == Some((g, rest)),
{
    let none = Seq::<u16>::empty();
    let o = low_octets(g);
    let written = ipv4_text(o);
    let ffff = text::hexadecimal(0xffff);
    assert(ffff =~= seq!['f', 'f', 'f', 'f']) by {
        reveal_with_fuel(text::numeral, 5);
    }
    let after_colons = ffff + (seq![':'] + (written + rest));
    let s = ipv6_text(g) + rest;
    assert(s =~= seq![':', ':'] + after_colons);
    assert(groups_text(none) + s =~= s);
    assert(leading_groups(s, 0, 8) == (GroupsView { groups: none, dotted: false, rest: s })) by {
        lemma_groups_read_back(none, 8, s);
    }
    assert(s.skip(2) =~= after_colons);
    assert(groups_of_ipv4(o) =~= seq![g[6], g[7]]) by {
        assert((g[6] / 256) * 256 + (g[6] % 256) == g[6]);
        assert((g[7] / 256) * 256 + (g[7] % 256) == g[7]);
    }
    lemma_dotted_tail_reads_back(0xffffu16, o, rest);
    let tail = seq![0xffffu16] + groups_of_ipv4(o);
    assert(around_zeros(none, tail) =~= g);
}

/// An IPv6 address with a run of zeros left out reads back.
#[verifier::rlimit(60)]
#[verifier::spinoff_prover]
proof fn lemma_shortened_reads_back(g: Seq<u16>, rest: Seq<char>)
    requires
        g.len() == 8,
        !is_mapped(g),
        zeros_from(g, longest_zeros(g, 0)) > 1,
        ends_address(rest),
    ensures
        leading_ipv6(ipv6_text(g) + rest) == Some((g, rest)),
{
    let start = longest_zeros(g, 0);
    let end = start + zeros_from(g, start);
    longest_zeros_is_the_first_longest(g, 0);
    lemma_zeros_from(g, start);
    let head = g.take(start);
    let back = g.skip(end);
    let head_text = groups_text(head);
    let back_text = groups_text(back);
    let after_colons = back_text + rest;
    let colons = seq![':', ':'] + after_colons;
    assert(head_text + seq![':', ':'] + back_text + rest =~= head_text + colons);
    assert(leading_groups(head_text + colons, 0, 8) == (GroupsView {
        groups: head,
        dotted: false,
        rest: colons,
    })) by {
        lemma_groups_read_back(head, 8, colons);
    }
    assert(colons.skip(2) =~= after_colons);
    assert(leading_groups(after_colons, 0, (7 - head.len()) as nat) == (GroupsView {
        groups: back,
        dotted: false,
        rest,
    })) by {
        lemma_groups_read_back(back, (7 - head.len()) as nat, rest);
    }
    lemma_ipv6_from_parts(head_text + colons, head, colons, back, rest);
    assert(around_zeros(head, back) =~= g) by {
        assert forall|i: int| 0 <= i < 8 implies around_zeros(head, back)[i] == g[i] by {
            if i >= end {
                assert(back[i - end] == g[i]);
            }
        }
    }
}

/// Two lists of groups around `::` are an address.
proof fn lemma_ipv6_from_parts(
    s: Seq<char>,
    head: Seq<u16>,
    colons: Seq<char>,
    back: Seq<u16>,
    rest: Seq<char>,
)
    requires
        head.len() < 8,
        leading_groups(s, 0, 8) == (GroupsView { groups: head, dotted: false, rest: colons }),
        colons.len() >= 2,
        colons[0] == ':',
        colons[1] == ':',
        leading_groups(colons.skip(2), 0, (7 - head.len()) as nat) == (GroupsView {
            groups: back,
            dotted: false,
            rest,
        }),
    ensures
        leading_ipv6(s) == Some((around_zeros(head, back), rest)),
{
}

/// An IPv6 address reads back.
proof fn lemma_ipv6_reads_back(g: Seq<u16>, rest: Seq<char>)
    requires
        g.len() == 8,
        ends_address(rest),
    ensures
        leading_ipv6(ipv6_text(g) + rest) == Some((g, rest)),
{
    if is_mapped(g) {
        lemma_mapped_reads_back(g, rest);
    } else if zeros_from(g, longest_zeros(g, 0)) > 1 {
        lemma_shortened_reads_back(g, rest);
    } else {
        lemma_groups_read_back(g, 8, rest);
    }
}

/// An IPv4 address that is written out reads back as itself.
pub proof fn ipv4_text_reads_back(a: Seq<u8>)
    requires
        a.len() == 4,
    ensures
        ipv4_value(ipv4_text(a)) == Some(a),
{
    lemma_ipv4_reads_back(a, Seq::empty());
    assert(ipv4_text(a) + Seq::<char>::empty() =~= ipv4_text(a));
}

/// An IPv6 address that is written out reads back as itself.
pub proof fn ipv6_text_reads_back(g: Seq<u16>)
    requires
        g.len() == 8,
    ensures
        ipv6_value(ipv6_text(g)) == Some(g),
{
    lemma_ipv6_reads_back(g, Seq::empty());
    assert(ipv6_text(g) + Seq::<char>::empty() =~= ipv6_text(g));
}

/// A decimal number that ends the text reads back.
proof fn lemma_last_number_reads_back(n: nat, limit: nat, rest: Seq<char>)
    requires
        n <= limit,
        rest.len() > 0 ==> text::digit_value(rest[0], 10) is None,
    ensures
        leading_number(
            text::decimal(n) + rest,
            10,
            (text::decimal(n) + rest).len(),
            true,
            limit,
        ) == Some((n, rest)),
{
    lemma_number_reads_back(n, 10, (text::decimal(n) + rest).len(), true, limit, rest);
}

/// A colon and a port read back.
proof fn lemma_port_reads_back(port: nat)
    requires
        port <= 0xffff,
    ensures
        leading_port(seq![':'] + text::decimal(port)) == Some((port, Seq::<char>::empty())),
{
    let none = Seq::<char>::empty();
    let s = seq![':'] + text::decimal(port);
    assert(s.skip(1) =~= text::decimal(port) + none);
    lemma_last_number_reads_back(port, 0xffff, none);
}

/// A zone reads back.
proof fn lemma_scope_reads_back(id: nat, rest: Seq<char>)
    requires
        id <= 0xffff_ffff,
        rest.len() > 0,
        rest[0] == ']',
    ensures
        leading_scope(
            if id == 0 {
                rest
            } else {
                seq!['%'] + (text::decimal(id) + rest)
            },
        ) == (id, rest),
{
    if id != 0 {
        let s = seq!['%'] + (text::decimal(id) + rest);
        assert(s.skip(1) =~= text::decimal(id) + rest);
        lemma_last_number_reads_back(id, 0xffff_ffff, rest);
    }
}

/// The pieces of a bracketed address, taken from the front.
proof fn lemma_bracketed(ip: Seq<char>, zone: Seq<char>, port: Seq<char>)
    ensures
        seq!['['] + ip + zone + seq![']', ':'] + port == seq!['['] + (ip + (zone + (seq![']'] + (seq![':']
            + port)))),
{
    assert(seq!['['] + ip + zone + seq![']', ':'] + port =~= seq!['['] + (ip + (zone + (seq![']'] + (
    seq![':'] + port)))));
}

/// A dotted address and its port read back.
proof fn lemma_socket_v4_reads_back(o: Seq<u8>, port: nat)
    requires
        o.len() == 4,
        port <= 0xffff,
    ensures
        socket_value(ipv4_text(o) + seq![':'] + text::decimal(port)) == Some(
            SocketView { ip: IpView::V4(o), port, scope_id: 0 },
        ),
{
    let ip = ipv4_text(o);
    let digits = text::decimal(port);
    let colon_port = seq![':'] + digits;
    let s = ip + seq![':'] + digits;
    assert(s =~= ip + colon_port);
    assert(leading_port(colon_port) == Some((port, Seq::<char>::empty()))) by {
        lemma_port_reads_back(port);
    }
    assert(leading_ipv4(s) == Some((o, colon_port))) by {
        assert(text::digit_value(':', 10) is None);
        lemma_ipv4_reads_back(o, colon_port);
    }
    lemma_socket_v4_from_parts(s, o, colon_port, port);
}

/// An address and a port, the one read where the other ended.
proof fn lemma_socket_v4_from_parts(s: Seq<char>, o: Seq<u8>, s1: Seq<char>, port: nat)
    requires
        leading_ipv4(s) == Some((o, s1)),
        leading_port(s1) == Some((port, Seq::<char>::empty())),
    ensures
        socket_value(s) == Some(SocketView { ip: IpView::V4(o), port, scope_id: 0 }),
{
}

/// A bracketed address and its port read back.
proof fn lemma_socket_v6_reads_back(g: Seq<u16>, scope_id: nat, port: nat)
    requires
        g.len() == 8,
        port <= 0xffff,
        scope_id <= 0xffff_ffff,
    ensures
        socket_value(
            socket_text(SocketView { ip: IpView::V6(g), port, scope_id }),
        ) == Some(SocketView { ip: IpView::V6(g), port, scope_id }),
{
    let s = socket_text(SocketView { ip: IpView::V6(g), port, scope_id });
    let ip = ipv6_text(g);
    let digits = text::decimal(port);
    let colon_port = seq![':'] + digits;
    let close = seq![']'] + colon_port;
    let written = if scope_id == 0 {
        Seq::<char>::empty()
    } else {
        seq!['%'] + text::decimal(scope_id)
    };
    let zone = if scope_id == 0 {
        close
    } else {
        seq!['%'] + (text::decimal(scope_id) + close)
    };
    lemma_bracketed(ip, written, digits);
    assert(written + close =~= zone);
    assert(s == seq!['['] + (ip + zone));
    assert(s.skip(1) =~= ip + zone);
    assert(zone.len() > 0 && (zone[0] == ']' || zone[0] == '%'));
    assert(leading_ipv4(s) is None) by {
        assert(s[0] == '[');
        lemma_no_dot_no_ipv4(s, 0);
    }
    assert(leading_ipv6(ip + zone) == Some((g, zone))) by {
        lemma_ipv6_reads_back(g, zone);
    }
    assert(leading_scope(zone) == (scope_id, close)) by {
        lemma_scope_reads_back(scope_id, close);
    }
    assert(close.skip(1) =~= colon_port);
    assert(leading_port(colon_port) == Some((port, Seq::<char>::empty()))) by {
        lemma_port_reads_back(port);
    }
    lemma_socket_v6_from_parts(s, ip + zone, g, zone, scope_id, close, colon_port, port);
}

/// A socket address that is written out reads back as itself.
pub proof fn socket_text_reads_back(a: SocketAddr)
    requires
        a@.ip is V4 ==> a.scope_id == 0,
    ensures
        socket_value(socket_text(a@)) == Some(a@),
{
    match a@.ip {
        IpView::V4(o) => {
            lemma_socket_v4_reads_back(o, a@.port);
        },
        IpView::V6(g) => {
            lemma_socket_v6_reads_back(g, a@.scope_id, a@.port);
        },
    }
}

/// The parts of a bracketed socket address, each read where the one before it
/// ended, are the address.
proof fn lemma_socket_v6_from_parts(
    s: Seq<char>,
    s0: Seq<char>,
    g: Seq<u16>,
    s1: Seq<char>,
    scope_id: nat,
    s2: Seq<char>,
    s3: Seq<char>,
    port: nat,
)
    requires
        leading_ipv4(s) is None,
        after(s, '[') == Some(s0),
        leading_ipv6(s0) == Some((g, s1)),
        leading_scope(s1) == (scope_id, s2),
        after(s2, ']') == Some(s3),
        leading_port(s3) == Some((port, Seq::<char>::empty())),
    ensures
        socket_value(s) == Some(SocketView { ip: IpView::V6(g), port, scope_id }),
{
}

proof fn lemma_an_octet_is_its_decimal(s: Seq<char>)
    requires
        leading_octet(s) is Some,
    ensures
        ({
            let (v, rest) = leading_octet(s)->0;
            v <= 255 && s == text::decimal(v) + rest
        }),
{
    let run = text::digit_run(s, 10);
    lemma_run_is_prefix(s, 10);
    let n = run.len() as int;
    text::lemma_digit_run(s, 10, n);
    assert(run =~= s.take(n));
    assert forall|i: int| 0 <= i < run.len() implies text::digit_value(#[trigger] run[i], 10)
        is Some by {
        assert(run[i] == s[i]);
    }
    text::a_number_has_one_numeral(run);
    assert(s =~= run + s.skip(n));
}

proof fn lemma_a_dot_octet_is_its_decimal(s: Seq<char>)
    requires
        leading_dot_octet(s) is Some,
    ensures
        ({
            let (v, rest) = leading_dot_octet(s)->0;
            v <= 255 && s == seq!['.'] + text::decimal(v) + rest
        }),
{
    lemma_an_octet_is_its_decimal(s.skip(1));
    let (v, rest) = leading_dot_octet(s)->0;
    assert(s =~= seq!['.'] + s.skip(1));
    assert(seq!['.'] + (text::decimal(v) + rest) =~= seq!['.'] + text::decimal(v) + rest);
}

proof fn lemma_four_parts(
    s: Seq<char>,
    s1: Seq<char>,
    s2: Seq<char>,
    s3: Seq<char>,
    s4: Seq<char>,
    a: Seq<char>,
    b: Seq<char>,
    c: Seq<char>,
    d: Seq<char>,
)
    requires
        s == a + s1,
        s1 == seq!['.'] + b + s2,
        s2 == seq!['.'] + c + s3,
        s3 == seq!['.'] + d + s4,
        s4.len() == 0,
    ensures
        s == a + seq!['.'] + b + seq!['.'] + c + seq!['.'] + d,
{
    assert(s3 =~= seq!['.'] + d);
    assert(s2 =~= seq!['.'] + c + (seq!['.'] + d));
    assert(s =~= a + seq!['.'] + b + seq!['.'] + c + seq!['.'] + d);
}

/// A text that spells an IPv4 address is the dotted decimal of that address: no zero
/// stands in front of an octet, no octet is missing or too many, and nothing stands
/// around them.
pub proof fn an_ipv4_address_has_one_text(s: Seq<char>)
    requires
        ipv4_value(s) is Some,
    ensures
        ipv4_value(s)->0.len() == 4,
        s == ipv4_text(ipv4_value(s)->0),
{
    let (a, s1) = leading_octet(s)->0;
    let (b, s2) = leading_dot_octet(s1)->0;
    let (c, s3) = leading_dot_octet(s2)->0;
    let (d, s4) = leading_dot_octet(s3)->0;
    lemma_an_octet_is_its_decimal(s);
    lemma_a_dot_octet_is_its_decimal(s1);
    lemma_a_dot_octet_is_its_decimal(s2);
    lemma_a_dot_octet_is_its_decimal(s3);
    lemma_four_parts(
        s,
        s1,
        s2,
        s3,
        s4,
        text::decimal(a),
        text::decimal(b),
        text::decimal(c),
        text::decimal(d),
    );
    let o = seq![a as u8, b as u8, c as u8, d as u8];
    assert(o[0] == a && o[1] == b && o[2] == c && o[3] == d);
}

/// Wherever two colons stand between groups they stand for the groups that are
/// missing, at least one, all zero; eight groups need none.
pub proof fn two_colons_stand_for_the_missing_groups(head: Seq<u16>, tail: Seq<u16>, all: Seq<u16>)
    requires
        head.len() + tail.len() <= 7,
        all.len() == 8,
    ensures
        ipv6_value(groups_text(head) + seq![':', ':'] + groups_text(tail)) == Some(
            head + Seq::new((8 - head.len() - tail.len()) as nat, |i: int| 0u16) + tail,
        ),
        ipv6_value(groups_text(all)) == Some(all),
{
    let none = Seq::<char>::empty();
    let after_colons = groups_text(tail) + none;
    let colons = seq![':', ':'] + after_colons;
    let s = groups_text(head) + seq![':', ':'] + groups_text(tail);
    assert(s =~= groups_text(head) + colons);
    assert(colons.skip(2) =~= after_colons);
    assert(leading_groups(s, 0, 8) == (GroupsView { groups: head, dotted: false, rest: colons }))
        by {
        lemma_groups_read_back(head, 8, colons);
    }
    assert(leading_groups(after_colons, 0, (7 - head.len()) as nat) == (GroupsView {
        groups: tail,
        dotted: false,
        rest: none,
    })) by {
        lemma_groups_read_back(tail, (7 - head.len()) as nat, none);
    }
    lemma_ipv6_from_parts(s, head, colons, tail, none);
    lemma_groups_read_back(all, 8, none);
    assert(groups_text(all) + none =~= groups_text(all));
}

/// Are the groups of an address from one place up to another all zero?
pub open spec fn are_zeros(g: Seq<u16>, from: int, to: int) -> bool {
    forall|i: int| from <= i < to ==> #[trigger] g[i] == 0
}

proof fn lemma_zeros_reach(g: Seq<u16>, i: int, to: int)
    requires
        0 <= i <= to <= g.len(),
        are_zeros(g, i, to),
    ensures
        zeros_from(g, i) >= to - i,
        to < g.len() && g[to] != 0 ==> zeros_from(g, i) == to - i,
        to == g.len() ==> zeros_from(g, i) == to - i,
    decreases to - i,
{
    if i < to {
        assert(g[i] == 0);
        lemma_zeros_reach(g, i + 1, to);
    }
}

/// An address that stands for no IPv4 one is written with the longest run of zero
/// groups left out, the first of them where several are as long, and it has to be at
/// least two groups long. Without two zero groups next to one another every group is
/// written.
pub proof fn the_first_longest_run_of_zeros_is_left_out(g: Seq<u16>, from: int, to: int)
    requires
        g.len() == 8,
        !is_mapped(g),
    ensures
        0 <= from && from + 2 <= to && to <= 8 && are_zeros(g, from, to) && (to == 8 || g[to] != 0)
            && (forall|a: int, b: int|
            0 <= a < b <= 8 && #[trigger] are_zeros(g, a, b) ==> b - a <= to - from && (b - a == to
                - from ==> a >= from)) ==> ipv6_text(g) == groups_text(g.take(from)) + seq![
            ':',
            ':',
        ] + groups_text(g.skip(to)),
        (forall|i: int| 0 <= i < 7 ==> !(#[trigger] g[i] == 0 && g[i + 1] == 0)) ==> ipv6_text(g)
            == groups_text(g),
{
    longest_zeros_is_the_first_longest(g, 0);
    let start = longest_zeros(g, 0);
    lemma_zeros_from(g, start);
    let end = start + zeros_from(g, start);
    assert(are_zeros(g, start, end));
    if 0 <= from && from + 2 <= to && to <= 8 && are_zeros(g, from, to) && (to == 8 || g[to] != 0)
        && (forall|a: int, b: int|
        0 <= a < b <= 8 && #[trigger] are_zeros(g, a, b) ==> b - a <= to - from && (b - a == to
            - from ==> a >= from)) {
        lemma_zeros_reach(g, from, to);
        assert(zeros_from(g, from) <= zeros_from(g, start));
        assert(end - start == to - from);
        if from < start {
            assert(zeros_from(g, from) < zeros_from(g, start));
        }
        assert(from == start && to == end);
    }
    if forall|i: int| 0 <= i < 7 ==> !(#[trigger] g[i] == 0 && g[i + 1] == 0) {
        if zeros_from(g, start) > 1 {
            assert(g[start] == 0 && g[start + 1] == 0);
        }
    }
}

/// An address that stands for an IPv4 one is written with it.
pub proof fn a_mapped_address_is_written_dotted(o: Seq<u8>)
    requires
        o.len() == 4,
    ensures
        ({
            let g = seq![0u16, 0u16, 0u16, 0u16, 0u16, 0xffffu16] + groups_of_ipv4(o);
            ipv6_text(g) == seq![':', ':', 'f', 'f', 'f', 'f', ':'] + ipv4_text(o)
        }),
{
    let g = seq![0u16, 0u16, 0u16, 0u16, 0u16, 0xffffu16] + groups_of_ipv4(o);
    assert(low_octets(g) =~= o) by {
        assert((o[0] * 256 + o[1]) / 256 == o[0] && (o[0] * 256 + o[1]) % 256 == o[1]);
        assert((o[2] * 256 + o[3]) / 256 == o[2] && (o[2] * 256 + o[3]) % 256 == o[3]);
    }
    assert(is_mapped(g));
}

/// A port is at most 65535: an address with another is none.
pub proof fn a_port_has_sixteen_bits(o: Seq<u8>, port: nat)
    requires
        o.len() == 4,
    ensures
        port <= 65535 ==> socket_value(ipv4_text(o) + seq![':'] + text::decimal(port)) == Some(
            (SocketView { ip: IpView::V4(o), port, scope_id: 0 }),
        ),
        port > 65535 ==> socket_value(ipv4_text(o) + seq![':'] + text::decimal(port)) is None,
{
    if port <= 65535 {
        lemma_socket_v4_reads_back(o, port);
    } else {
        let none = Seq::<char>::empty();
        let digits = text::decimal(port);
        let s = ipv4_text(o) + seq![':'] + digits;
        let rest = seq![':'] + digits;
        assert(s =~= ipv4_text(o) + rest);
        lemma_ipv4_reads_back(o, rest);
        assert(rest.skip(1) =~= digits);
        text::lemma_numeral_reads_back(port, 10);
        text::lemma_numeral_is_a_run(port, 10, none);
        assert(digits + none =~= digits);
        assert(leading_port(rest) is None);
        assert(leading_socket_v4(s) is None);
        text::lemma_numeral_reads_back(o[0] as nat, 10);
        assert(s[0] == text::decimal(o[0] as nat)[0]);
        assert(text::digit_value(text::decimal(o[0] as nat)[0], 10) is Some);
        assert(s[0] != '[');
    }
}

} // verus!
