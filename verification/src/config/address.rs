//! IP addresses and blocks of them, as text and as numbers.

use vstd::arithmetic::power2::*;
use vstd::prelude::*;

use crate::dbus_wire::message::hex_digit;
use crate::dbus_wire::signature::char_at;
use crate::text::{chars_of, decimal, decimal_digits, joined, push_text};

verus! {

/// An IP address, as the number its bytes are.
#[derive(Debug, Clone, Copy, PartialEq, Eq, Structural)]
pub enum IpAddr {
    V4(u32),
    V6(u128),
}

/// The value of a digit in bases up to 16.
pub open spec fn digit_value(c: char) -> Option<nat> {
    if '0' <= c && c <= '9' {
        Some((c as nat - '0' as nat) as nat)
    } else if 'a' <= c && c <= 'f' {
        Some((c as nat - 'a' as nat + 10) as nat)
    } else if 'A' <= c && c <= 'F' {
        Some((c as nat - 'A' as nat + 10) as nat)
    } else {
        None
    }
}

/// Whether a character is a digit of a base.
pub open spec fn is_digit_of(c: char, base: nat) -> bool {
    digit_value(c) matches Some(d) && d < base
}

/// Where the digits that start at `at` end.
pub open spec fn digits_end(s: Seq<char>, at: int, base: nat) -> int
    decreases s.len() - at,
{
    if 0 <= at < s.len() && is_digit_of(s[at], base) {
        digits_end(s, at + 1, base)
    } else {
        at
    }
}

/// The number that digits stand for.
pub open spec fn digits_value(s: Seq<char>, base: nat) -> nat
    decreases s.len(),
{
    if s.len() == 0 {
        0
    } else {
        digits_value(s.drop_last(), base) * base + digit_value(s.last())->Some_0
    }
}

/// The number of at most `max` digits that starts at `at`, and where it ends.
pub open spec fn number_at(s: Seq<char>, at: int, base: nat, max: nat) -> Option<(nat, int)> {
    let end = digits_end(s, at, base);
    if end - at < 1 || end - at > max {
        None
    } else {
        Some((digits_value(s.subrange(at, end), base), end))
    }
}

/// A decimal number from 0 to 255 without a leading zero.
pub open spec fn octet_at(s: Seq<char>, at: int) -> Option<(nat, int)> {
    match number_at(s, at, 10, 3) {
        Some((n, end)) => if n > 255 || (end - at > 1 && s[at] == '0') {
            None
        } else {
            Some((n, end))
        },
        None => None,
    }
}

/// `n` more octets of an IPv4 address, each after a dot, that follow the
/// ones `value` is made of.
pub open spec fn octets_at(s: Seq<char>, at: int, n: nat, value: nat) -> Option<(nat, int)>
    decreases n,
{
    if n == 0 {
        Some((value, at))
    } else if !char_at(s, at, '.') {
        None
    } else {
        match octet_at(s, at + 1) {
            None => None,
            Some((octet, end)) => octets_at(s, end, (n - 1) as nat, value * 256 + octet),
        }
    }
}

/// The IPv4 address that starts at `at`: four octets joined by dots.
pub open spec fn ipv4_at(s: Seq<char>, at: int) -> Option<(nat, int)> {
    match octet_at(s, at) {
        None => None,
        Some((octet, end)) => octets_at(s, end, 3, octet),
    }
}

/// Up to `limit` groups of an IPv6 address joined by colons, from `at` on
/// and after the ones in `groups`; where they end, and whether the last two
/// of them were written as an IPv4 address.
pub open spec fn groups_at(s: Seq<char>, at: int, limit: nat, groups: Seq<nat>) -> (
    Seq<nat>,
    int,
    bool,
)
    decreases limit - groups.len(),
{
    if groups.len() >= limit || (groups.len() > 0 && !char_at(s, at, ':')) {
        (groups, at, false)
    } else {
        let from = if groups.len() > 0 {
            at + 1
        } else {
            at
        };
        match ipv4_at(s, from) {
            Some((n, end)) if groups.len() + 1 < limit => (
                groups + seq![n / 65536, n % 65536],
                end,
                true,
            ),
            _ => match number_at(s, from, 16, 4) {
                None => (groups, at, false),
                Some((group, end)) => groups_at(s, end, limit, groups.push(group)),
            },
        }
    }
}

/// The eight groups of an IPv6 address: all of them, or fewer with one `::`
/// that stands for at least one group of zeros.
pub open spec fn ipv6_groups(s: Seq<char>) -> Option<Seq<nat>> {
    let (head, end, dotted) = groups_at(s, 0, 8, Seq::empty());
    if head.len() == 8 {
        if end == s.len() {
            Some(head)
        } else {
            None
        }
    } else if dotted || !char_at(s, end, ':') || !char_at(s, end + 1, ':') {
        None
    } else {
        let (tail, stop, _) = groups_at(s, end + 2, (7 - head.len()) as nat, Seq::empty());
        if stop == s.len() {
            Some(head + Seq::new((8 - head.len() - tail.len()) as nat, |i: int| 0nat) + tail)
        } else {
            None
        }
    }
}

/// The number that groups of sixteen bits stand for.
pub open spec fn groups_value(groups: Seq<nat>) -> nat
    decreases groups.len(),
{
    if groups.len() == 0 {
        0
    } else {
        groups_value(groups.drop_last()) * 65536 + groups.last()
    }
}

/// The address a text is.
pub open spec fn ip_of(s: Seq<char>) -> Option<IpAddr> {
    match ipv4_at(s, 0) {
        Some((n, end)) if end == s.len() => Some(IpAddr::V4(n as u32)),
        _ => match ipv6_groups(s) {
            Some(groups) => Some(IpAddr::V6(groups_value(groups) as u128)),
            None => None,
        },
    }
}

proof fn lemma_digits_end(s: Seq<char>, at: int, base: nat)
    requires
        0 <= at <= s.len(),
    ensures
        at <= digits_end(s, at, base) <= s.len(),
        forall|i: int|
            at <= i < digits_end(s, at, base) ==> is_digit_of(#[trigger] s[i], base),
    decreases s.len() - at,
{
    if at < s.len() && is_digit_of(s[at], base) {
        lemma_digits_end(s, at + 1, base);
    }
}

fn digit_of(c: char, base: u64) -> (r: Option<u64>)
    ensures
        match r {
            Some(d) => digit_value(c) == Some(d as nat) && d < base && d < 16,
            None => !is_digit_of(c, base as nat),
        },
{
    let d: u64 = if c >= '0' && c <= '9' {
        (c as u64) - 48
    } else if c >= 'a' && c <= 'f' {
        (c as u64) - 87
    } else if c >= 'A' && c <= 'F' {
        (c as u64) - 55
    } else {
        return None;
    };
    if d < base {
        Some(d)
    } else {
        None
    }
}

/// The number of at most `max` digits that starts at `at`, and where it ends.
fn read_number(s: &[char], at: usize, base: u64, max: usize) -> (r: Option<(u64, usize)>)
    requires
        at <= s@.len(),
        2 <= base <= 16,
        max <= 4,
    ensures
        match r {
            Some((n, end)) => number_at(s@, at as int, base as nat, max as nat) == Some(
                (n as nat, end as int),
            ) && at < end <= s@.len() && n < 65536,
            None => number_at(s@, at as int, base as nat, max as nat) is None,
        },
{
    let mut i: usize = at;
    let mut n: u64 = 0;
    proof {
        lemma_digits_end(s@, at as int, base as nat);
        assert(s@.subrange(at as int, i as int) =~= Seq::empty());
        lemma_power_bound(0);
    }
    while i < s.len()
        invariant_except_break
            digits_end(s@, at as int, base as nat) == digits_end(s@, i as int, base as nat),
            i - at <= max,
            n < bound((i - at) as nat),
        invariant
            at <= i <= s@.len(),
            2 <= base <= 16,
            max <= 4,
            n == digits_value(s@.subrange(at as int, i as int), base as nat),
        ensures
            i == digits_end(s@, at as int, base as nat),
            i - at <= max,
            n < bound((i - at) as nat),
        decreases s@.len() - i,
    {
        match digit_of(s[i], base) {
            None => {
                break;
            },
            Some(d) => {
                if i - at >= max {
                    proof {
                        lemma_digits_end(s@, i + 1, base as nat);
                    }
                    return None;
                }
                proof {
                    let more = s@.subrange(at as int, i + 1);
                    assert(more.drop_last() =~= s@.subrange(at as int, i as int));
                    lemma_power_bound((i - at) as nat);
                    assert(n * base + d < bound((i - at) as nat) * 16) by (nonlinear_arith)
                        requires
                            n < bound((i - at) as nat),
                            d < base <= 16,
                    ;
                    assert(bound((i - at + 1) as nat) == bound((i - at) as nat) * 16);
                }
                n = n * base + d;
                i = i + 1;
            },
        }
    }
    if i == at {
        return None;
    }
    proof {
        lemma_power_bound((i - at) as nat);
    }
    Some((n, i))
}

/// Sixteen to the power of `n`.
spec fn bound(n: nat) -> nat
    decreases n,
{
    if n == 0 {
        1
    } else {
        bound((n - 1) as nat) * 16
    }
}

proof fn lemma_power_bound(n: nat)
    ensures
        n <= 4 ==> bound(n) <= 65536,
        bound(n) >= 1,
    decreases n,
{
    reveal_with_fuel(bound, 5);
    if n > 0 {
        lemma_power_bound((n - 1) as nat);
    }
}

fn read_octet(s: &[char], at: usize) -> (r: Option<(u64, usize)>)
    requires
        at <= s@.len(),
    ensures
        match r {
            Some((n, end)) => octet_at(s@, at as int) == Some((n as nat, end as int)) && at < end
                <= s@.len() && n < 256,
            None => octet_at(s@, at as int) is None,
        },
{
    match read_number(s, at, 10, 3) {
        Some((n, end)) => {
            if n > 255 || (end - at > 1 && s[at] == '0') {
                None
            } else {
                Some((n, end))
            }
        },
        None => None,
    }
}

fn read_ipv4(s: &[char], at: usize) -> (r: Option<(u64, usize)>)
    requires
        at <= s@.len(),
    ensures
        match r {
            Some((n, end)) => ipv4_at(s@, at as int) == Some((n as nat, end as int)) && at < end
                <= s@.len() && n < 0x1_0000_0000,
            None => ipv4_at(s@, at as int) is None,
        },
{
    let (a, end) = match read_octet(s, at) {
        Some(x) => x,
        None => {
            return None;
        },
    };
    proof {
        reveal_with_fuel(octets_at, 4);
    }
    if end >= s.len() || s[end] != '.' {
        return None;
    }
    let (b, end) = match read_octet(s, end + 1) {
        Some(x) => x,
        None => {
            return None;
        },
    };
    if end >= s.len() || s[end] != '.' {
        return None;
    }
    let (c, end) = match read_octet(s, end + 1) {
        Some(x) => x,
        None => {
            return None;
        },
    };
    if end >= s.len() || s[end] != '.' {
        return None;
    }
    match read_octet(s, end + 1) {
        Some((d, end)) => Some((((a * 256 + b) * 256 + c) * 256 + d, end)),
        None => None,
    }
}

/// The groups as numbers.
pub open spec fn group_nats(groups: Seq<u16>) -> Seq<nat> {
    Seq::new(groups.len(), |i: int| groups[i] as nat)
}

fn read_groups(s: &[char], at: usize, limit: usize) -> (r: (Vec<u16>, usize, bool))
    requires
        at <= s@.len(),
        limit <= 8,
    ensures
        groups_at(s@, at as int, limit as nat, Seq::empty()) == (
            group_nats(r.0@),
            r.1 as int,
            r.2,
        ),
        r.0@.len() <= limit,
        at <= r.1 <= s@.len(),
{
    let mut groups: Vec<u16> = Vec::new();
    let mut i: usize = at;
    assert(group_nats(groups@) =~= Seq::empty());
    while groups.len() < limit
        invariant
            at <= i <= s@.len(),
            limit <= 8,
            groups@.len() <= limit,
            groups_at(s@, at as int, limit as nat, Seq::empty()) == groups_at(
                s@,
                i as int,
                limit as nat,
                group_nats(groups@),
            ),
        decreases limit - groups@.len(),
    {
        if groups.len() > 0 && (i >= s.len() || s[i] != ':') {
            return (groups, i, false);
        }
        let from = if groups.len() > 0 {
            i + 1
        } else {
            i
        };
        let ghost before = group_nats(groups@);
        if groups.len() + 1 < limit {
            match read_ipv4(s, from) {
                Some((n, end)) => {
                    groups.push((n / 65536) as u16);
                    groups.push((n % 65536) as u16);
                    assert(group_nats(groups@) =~= before + seq![
                        n as nat / 65536,
                        n as nat % 65536,
                    ]);
                    return (groups, end, true);
                },
                None => {},
            }
        }
        match read_number(s, from, 16, 4) {
            Some((n, end)) => {
                groups.push(n as u16);
                assert(group_nats(groups@) =~= before.push(n as nat));
                i = end;
            },
            None => {
                return (groups, i, false);
            },
        }
    }
    (groups, i, false)
}

fn read_ipv6(s: &[char]) -> (r: Option<Vec<u16>>)
    ensures
        match r {
            Some(groups) => ipv6_groups(s@) == Some(group_nats(groups@)) && groups@.len() == 8,
            None => ipv6_groups(s@) is None,
        },
{
    let (mut head, end, dotted) = read_groups(s, 0, 8);
    if head.len() == 8 {
        if end == s.len() {
            return Some(head);
        }
        return None;
    }
    if dotted || s.len() - end < 2 || s[end] != ':' || s[end + 1] != ':' {
        return None;
    }
    let (tail, stop, _dotted) = read_groups(s, end + 2, 7 - head.len());
    if stop != s.len() {
        return None;
    }
    let ghost first = group_nats(head@);
    let gap = 8 - head.len() - tail.len();
    let mut i: usize = 0;
    assert(group_nats(head@) =~= first + Seq::new(0, |j: int| 0nat));
    while i < gap
        invariant
            i <= gap,
            group_nats(head@) == first + Seq::new(i as nat, |j: int| 0nat),
            head@.len() == first.len() + i,
        decreases gap - i,
    {
        let ghost before = group_nats(head@);
        head.push(0);
        i = i + 1;
        assert(group_nats(head@) =~= before.push(0));
        assert(group_nats(head@) =~= first + Seq::new(i as nat, |j: int| 0nat));
    }
    let ghost filled = group_nats(head@);
    let mut j: usize = 0;
    assert(filled + group_nats(tail@).take(0) =~= filled);
    while j < tail.len()
        invariant
            j <= tail@.len(),
            group_nats(head@) == filled + group_nats(tail@).take(j as int),
            head@.len() == filled.len() + j,
        decreases tail@.len() - j,
    {
        let ghost before = group_nats(head@);
        head.push(tail[j]);
        j = j + 1;
        assert(group_nats(head@) =~= before.push(group_nats(tail@)[j - 1]));
        assert(group_nats(head@) =~= filled + group_nats(tail@).take(j as int));
    }
    assert(group_nats(tail@).take(j as int) =~= group_nats(tail@));
    Some(head)
}

proof fn lemma_groups_value(groups: Seq<u16>)
    requires
        groups.len() <= 8,
    ensures
        groups_value(group_nats(groups)) < pow2(16 * groups.len()),
    decreases groups.len(),
{
    lemma2_to64();
    if groups.len() > 0 {
        let rest = groups.drop_last();
        lemma_groups_value(rest);
        assert(group_nats(groups).drop_last() =~= group_nats(rest));
        lemma_pow2_adds(16 * rest.len(), 16);
        assert(16 * groups.len() == 16 * rest.len() + 16);
        assert(pow2(16) == 65536);
        let a = groups_value(group_nats(rest)) as int;
        let p = pow2(16 * rest.len()) as int;
        assert(a * 65536 + 65535 < p * 65536) by (nonlinear_arith)
            requires
                a < p,
        ;
    }
}

fn value_of_groups(groups: &Vec<u16>) -> (r: u128)
    requires
        groups@.len() == 8,
    ensures
        r == groups_value(group_nats(groups@)),
{
    let mut n: u128 = 0;
    let mut i: usize = 0;
    assert(group_nats(groups@).take(0) =~= Seq::empty());
    while i < 8
        invariant
            groups@.len() == 8,
            i <= 8,
            n == groups_value(group_nats(groups@).take(i as int)),
        decreases 8 - i,
    {
        proof {
            let more = group_nats(groups@).take(i + 1);
            assert(more.drop_last() =~= group_nats(groups@).take(i as int));
            assert(more =~= group_nats(groups@.take(i + 1)));
            lemma_groups_value(groups@.take(i + 1));
            lemma_pow2_128();
            if i < 7 {
                lemma_pow2_strictly_increases((16 * (i + 1)) as nat, 128);
            }
        }
        n = n * 65536 + groups[i] as u128;
        i = i + 1;
    }
    assert(group_nats(groups@).take(8) =~= group_nats(groups@));
    n
}

proof fn lemma_pow2_128()
    ensures
        pow2(128) == 0x1_0000_0000_0000_0000 * 0x1_0000_0000_0000_0000,
        pow2(128) == u128::MAX + 1,
{
    lemma2_to64();
    lemma_pow2_adds(64, 64);
    assert(pow2(64) == 0x1_0000_0000_0000_0000);
}

/// The address a text is, IPv4 or IPv6.
pub fn parse_ip(s: &str) -> (r: Option<IpAddr>)
    ensures
        r == ip_of(s@),
{
    let chars = chars_of(s);
    match read_ipv4(&chars, 0) {
        Some((n, end)) => {
            if end == chars.len() {
                return Some(IpAddr::V4(n as u32));
            }
        },
        None => {},
    }
    match read_ipv6(&chars) {
        Some(groups) => Some(IpAddr::V6(value_of_groups(&groups))),
        None => None,
    }
}

/// Whether an address is of the sixth version.
pub open spec fn ipv6(ip: IpAddr) -> bool {
    ip is V6
}

/// `127.0.0.0/8` and `::1`.
pub open spec fn loopback(ip: IpAddr) -> bool {
    match ip {
        IpAddr::V4(n) => n / 0x100_0000 == 127,
        IpAddr::V6(n) => n == 1,
    }
}

impl IpAddr {
    /// Whether this is an address of the sixth version.
    pub fn is_ipv6(&self) -> (r: bool)
        ensures
            r == ipv6(*self),
    {
        match self {
            IpAddr::V4(_) => false,
            IpAddr::V6(_) => true,
        }
    }

    /// Whether this is a loopback address: `127.0.0.0/8` or `::1`.
    pub fn is_loopback(&self) -> (r: bool)
        ensures
            r == loopback(*self),
    {
        match self {
            IpAddr::V4(n) => *n / 0x100_0000 == 127,
            IpAddr::V6(n) => *n == 1,
        }
    }
}

/// Lower-case hexadecimal digits of a number, without leading zeros.
pub open spec fn hex_digits(n: nat) -> Seq<char>
    decreases n,
{
    if n < 16 {
        seq![hex_digit(n)]
    } else {
        hex_digits(n / 16).push(hex_digit(n % 16))
    }
}

/// The last `k` groups of sixteen bits of a number, the highest first.
pub open spec fn groups_of(n: nat, k: nat) -> Seq<nat>
    decreases k,
{
    if k == 0 {
        Seq::empty()
    } else {
        groups_of(n / 65536, (k - 1) as nat).push(n % 65536)
    }
}

/// Groups in hexadecimal, joined by colons.
pub open spec fn groups_text(groups: Seq<nat>) -> Seq<char>
    decreases groups.len(),
{
    if groups.len() == 0 {
        Seq::empty()
    } else if groups.len() == 1 {
        hex_digits(groups[0])
    } else {
        groups_text(groups.drop_last()) + ":"@ + hex_digits(groups.last())
    }
}

/// How many groups of zeros there are from `i` on.
pub open spec fn zero_run(groups: Seq<nat>, i: int) -> nat
    decreases groups.len() - i,
{
    if 0 <= i < groups.len() && groups[i] == 0 {
        zero_run(groups, i + 1) + 1
    } else {
        0
    }
}

/// Where the longest run of zeros from `i` on begins and how long it is, if
/// it is longer than `len`; the first of two of one length.
pub open spec fn longest_run(groups: Seq<nat>, i: int, start: int, len: nat) -> (int, nat)
    decreases groups.len() - i,
{
    if i >= groups.len() {
        (start, len)
    } else if zero_run(groups, i) > len {
        longest_run(groups, i + 1, i, zero_run(groups, i))
    } else {
        longest_run(groups, i + 1, start, len)
    }
}

/// An IPv4 address as text.
pub open spec fn ipv4_text(n: nat) -> Seq<char> {
    decimal_digits(n / 0x100_0000) + "."@ + decimal_digits(n / 0x1_0000 % 256) + "."@
        + decimal_digits(n / 0x100 % 256) + "."@ + decimal_digits(n % 256)
}

/// An address as text. The longest run of two or more groups of zeros of an
/// IPv6 address is left out, and an IPv4 address mapped into IPv6 shows as
/// one.
pub open spec fn ip_text(ip: IpAddr) -> Seq<char> {
    match ip {
        IpAddr::V4(n) => ipv4_text(n as nat),
        IpAddr::V6(n) => if n / 0x1_0000_0000 == 0xffff {
            "::ffff:"@ + ipv4_text(n as nat % 0x1_0000_0000)
        } else {
            let groups = groups_of(n as nat, 8);
            let (start, len) = longest_run(groups, 0, 0, 0);
            if len > 1 {
                groups_text(groups.take(start)) + "::"@ + groups_text(groups.skip(start + len))
            } else {
                groups_text(groups)
            }
        },
    }
}

fn hex_text_of(n: u64) -> (r: String)
    ensures
        r@ == hex_digits(n as nat),
    decreases n,
{
    let mut out = if n < 16 {
        String::new()
    } else {
        hex_text_of(n / 16)
    };
    out.push(crate::dbus_wire::message::hex((n % 16) as u8));
    assert(out@ =~= hex_digits(n as nat));
    out
}

fn ipv4_string(n: u32) -> (r: String)
    ensures
        r@ == ipv4_text(n as nat),
{
    let mut out = decimal((n / 0x100_0000) as u64);
    push_text(&mut out, ".");
    push_text(&mut out, &decimal((n / 0x1_0000 % 256) as u64));
    push_text(&mut out, ".");
    push_text(&mut out, &decimal((n / 0x100 % 256) as u64));
    push_text(&mut out, ".");
    push_text(&mut out, &decimal((n % 256) as u64));
    out
}

fn split_groups(n: u128, k: usize) -> (r: Vec<u16>)
    ensures
        group_nats(r@) == groups_of(n as nat, k as nat),
    decreases k,
{
    if k == 0 {
        let r: Vec<u16> = Vec::new();
        assert(group_nats(r@) =~= Seq::empty());
        return r;
    }
    let mut r = split_groups(n / 65536, k - 1);
    let ghost before = group_nats(r@);
    r.push((n % 65536) as u16);
    assert(group_nats(r@) =~= before.push((n % 65536) as nat));
    r
}

fn groups_string(groups: &Vec<u16>, from: usize, to: usize) -> (r: String)
    requires
        from <= to <= groups@.len(),
    ensures
        r@ == groups_text(group_nats(groups@).subrange(from as int, to as int)),
{
    let mut out = String::new();
    let mut i: usize = from;
    let ghost all = group_nats(groups@);
    assert(all.subrange(from as int, from as int) =~= Seq::empty());
    while i < to
        invariant
            from <= i <= to <= groups@.len(),
            all == group_nats(groups@),
            out@ == groups_text(all.subrange(from as int, i as int)),
        decreases to - i,
    {
        let ghost before = out@;
        if i > from {
            push_text(&mut out, ":");
        }
        push_text(&mut out, &hex_text_of(groups[i] as u64));
        i = i + 1;
        proof {
            let more = all.subrange(from as int, i as int);
            assert(more.drop_last() =~= all.subrange(from as int, i - 1));
            if more.len() == 1 {
                assert(before =~= Seq::empty());
                assert(out@ =~= hex_digits(more[0]));
            }
        }
    }
    out
}

fn zeros_from(groups: &Vec<u16>, i: usize) -> (r: usize)
    requires
        i <= groups@.len(),
    ensures
        r == zero_run(group_nats(groups@), i as int),
        i + r <= groups@.len(),
    decreases groups@.len() - i,
{
    if i < groups.len() && groups[i] == 0 {
        zeros_from(groups, i + 1) + 1
    } else {
        0
    }
}

impl IpAddr {
    /// This address as text.
    pub fn to_text(&self) -> (r: String)
        ensures
            r@ == ip_text(*self),
    {
        match self {
            IpAddr::V4(n) => ipv4_string(*n),
            IpAddr::V6(n) => {
                if *n / 0x1_0000_0000 == 0xffff {
                    return joined("::ffff:", &ipv4_string((*n % 0x1_0000_0000) as u32));
                }
                let groups = split_groups(*n, 8);
                let ghost all = group_nats(groups@);
                let mut start: usize = 0;
                let mut len: usize = 0;
                let mut i: usize = 0;
                while i < groups.len()
                    invariant
                        all == group_nats(groups@),
                        i <= groups@.len(),
                        start + len <= groups@.len(),
                        longest_run(all, 0, 0, 0) == longest_run(
                            all,
                            i as int,
                            start as int,
                            len as nat,
                        ),
                    decreases groups@.len() - i,
                {
                    let run = zeros_from(&groups, i);
                    if run > len {
                        start = i;
                        len = run;
                    }
                    i = i + 1;
                }
                if len > 1 {
                    let mut out = groups_string(&groups, 0, start);
                    push_text(&mut out, "::");
                    push_text(&mut out, &groups_string(&groups, start + len, groups.len()));
                    assert(all.subrange(0, start as int) =~= all.take(start as int));
                    assert(all.subrange(start + len, all.len() as int) =~= all.skip(start + len));
                    out
                } else {
                    let out = groups_string(&groups, 0, groups.len());
                    assert(all.subrange(0, all.len() as int) =~= all);
                    out
                }
            },
        }
    }
}

/// A block of addresses: an address whose bits past the first `len` are
/// zero.
#[derive(Debug, Clone, Copy, PartialEq, Eq, Structural)]
pub struct Cidr {
    pub addr: IpAddr,
    pub len: u8,
}

/// How many bits an address has.
pub open spec fn address_bits(ip: IpAddr) -> nat {
    match ip {
        IpAddr::V4(_) => 32,
        IpAddr::V6(_) => 128,
    }
}

/// The number an address is.
pub open spec fn address_number(ip: IpAddr) -> nat {
    match ip {
        IpAddr::V4(n) => n as nat,
        IpAddr::V6(n) => n as nat,
    }
}

/// Where the first `c` from `i` on stands.
pub open spec fn find_char(s: Seq<char>, c: char, i: int) -> Option<int>
    decreases s.len() - i,
{
    if i < 0 || i >= s.len() {
        None
    } else if s[i] == c {
        Some(i)
    } else {
        find_char(s, c, i + 1)
    }
}

/// The length of a prefix: a decimal number without a leading zero, of at
/// most `bits`.
pub open spec fn prefix_length(s: Seq<char>, bits: nat) -> Option<nat> {
    match number_at(s, 0, 10, 3) {
        Some((n, end)) => if end != s.len() || n > bits || (end > 1 && s[0] == '0') {
            None
        } else {
            Some(n)
        },
        None => None,
    }
}

/// The block a text names: an address, or an address and the length of its
/// prefix after a `/`, with no bit set past the prefix.
pub open spec fn cidr_of(s: Seq<char>) -> Option<Cidr> {
    match find_char(s, '/', 0) {
        None => match ip_of(s) {
            Some(addr) => Some(Cidr { addr, len: address_bits(addr) as u8 }),
            None => None,
        },
        Some(at) => match ip_of(s.take(at)) {
            None => None,
            Some(addr) => match prefix_length(s.skip(at + 1), address_bits(addr)) {
                None => None,
                Some(len) => if address_number(addr) % pow2((address_bits(addr) - len) as nat)
                    != 0 {
                    None
                } else {
                    Some(Cidr { addr, len: len as u8 })
                },
            },
        },
    }
}

/// A block as text: the address, and the length of the prefix where that is
/// not the whole address.
pub open spec fn cidr_text(c: Cidr) -> Seq<char> {
    if c.len == address_bits(c.addr) {
        ip_text(c.addr)
    } else {
        ip_text(c.addr) + "/"@ + decimal_digits(c.len as nat)
    }
}

/// Whether the last `k` bits of a number are zero.
fn low_bits_zero(n: u128, k: usize) -> (r: bool)
    requires
        k <= 128,
    ensures
        r == (n as nat % pow2(k as nat) == 0),
    decreases k,
{
    proof {
        lemma2_to64();
    }
    if k == 0 {
        return true;
    }
    proof {
        lemma_pow2_unfold(k as nat);
        let m = pow2((k - 1) as nat) as int;
        lemma_pow2_pos((k - 1) as nat);
        vstd::arithmetic::div_mod::lemma_mod_breakdown(n as int, 2, m);
        assert(n as int % (2 * m) == 2 * ((n as int / 2) % m) + n as int % 2);
        assert(2 * ((n as int / 2) % m) + n as int % 2 == 0 <==> (n as int / 2) % m == 0 && n as int
            % 2 == 0) by {
            vstd::arithmetic::div_mod::lemma_mod_bound(n as int / 2, m);
        }
    }
    n % 2 == 0 && low_bits_zero(n / 2, k - 1)
}

/// Where the first `c` stands.
pub fn position(s: &[char], c: char) -> (r: Option<usize>)
    ensures
        match r {
            Some(i) => find_char(s@, c, 0) == Some(i as int) && i < s@.len() && s@[i as int] == c,
            None => find_char(s@, c, 0) is None,
        },
{
    let mut i: usize = 0;
    while i < s.len()
        invariant
            i <= s@.len(),
            find_char(s@, c, 0) == find_char(s@, c, i as int),
        decreases s@.len() - i,
    {
        if s[i] == c {
            return Some(i);
        }
        i = i + 1;
    }
    None
}

impl Cidr {
    /// The block a text names: `1.1.1.1`, `140.82.112.0/20`,
    /// `2606:4700::/32`.
    pub fn parse(s: &str) -> (r: Option<Cidr>)
        ensures
            r == cidr_of(s@),
    {
        let chars = chars_of(s);
        let at = match position(&chars, '/') {
            None => {
                return match parse_ip(s) {
                    Some(IpAddr::V4(n)) => Some(Cidr { addr: IpAddr::V4(n), len: 32 }),
                    Some(IpAddr::V6(n)) => Some(Cidr { addr: IpAddr::V6(n), len: 128 }),
                    None => None,
                };
            },
            Some(at) => at,
        };
        let head = vstd::slice::slice_subrange(chars.as_slice(), 0, at);
        assert(head@ =~= s@.take(at as int));
        let tail = vstd::slice::slice_subrange(chars.as_slice(), at + 1, chars.len());
        assert(tail@ =~= s@.skip(at + 1));
        let addr = match parse_ip(&crate::text::text_of(head)) {
            Some(a) => a,
            None => {
                return None;
            },
        };
        let (bits, number): (u64, u128) = match addr {
            IpAddr::V4(n) => (32, n as u128),
            IpAddr::V6(n) => (128, n),
        };
        match read_number(tail, 0, 10, 3) {
            Some((n, end)) => {
                if end != tail.len() || n > bits || (end > 1 && tail[0] == '0') {
                    return None;
                }
                if !low_bits_zero(number, (bits - n) as usize) {
                    return None;
                }
                Some(Cidr { addr, len: n as u8 })
            },
            None => None,
        }
    }

    /// This block as text.
    pub fn to_text(&self) -> (r: String)
        ensures
            r@ == cidr_text(*self),
    {
        let whole = match self.addr {
            IpAddr::V4(_) => self.len == 32,
            IpAddr::V6(_) => self.len == 128,
        };
        let mut out = self.addr.to_text();
        if !whole {
            push_text(&mut out, "/");
            push_text(&mut out, &decimal(self.len as u64));
        }
        out
    }
}

} // verus!
