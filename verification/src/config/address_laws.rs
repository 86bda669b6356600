//! An address is read back as it was written.

use vstd::arithmetic::power2::*;
use vstd::prelude::*;

use crate::config::address::{
    address_bits, address_number, cidr_of, cidr_text, digits_end, digits_value, find_char,
    groups_at, groups_of, groups_text, groups_value, hex_digits, ip_of, ip_text, ipv4_at, ipv4_text,
    ipv6_groups, is_digit_of, longest_run, number_at, octet_at, octets_at, zero_run, Cidr, IpAddr,
};
use crate::dbus_wire::message::hex_digit;
use crate::dbus_wire::signature::char_at;
use crate::text::{decimal_digits, digit_char, lemma_joined};

verus! {

/// Whether a text stands in another at a place.
spec fn stands(s: Seq<char>, at: int, t: Seq<char>) -> bool {
    0 <= at && at + t.len() <= s.len() && s.subrange(at, at + t.len()) == t
}

/// Whether a character, if there is one at a place, is no digit of a base.
spec fn stops(s: Seq<char>, at: int, base: nat) -> bool {
    at >= s.len() || !is_digit_of(s[at], base)
}

/// A number is written in the digits that read back as it, without a zero
/// before them: so no two numbers are written alike.
pub proof fn a_number_is_written_in_its_digits(n: nat)
    ensures
        digits_value(decimal_digits(n), 10) == n,
        decimal_digits(n).len() > 0,
        decimal_digits(n).len() > 1 ==> decimal_digits(n)[0] != '0',
        forall|i: int|
            0 <= i < decimal_digits(n).len() ==> '0' <= #[trigger] decimal_digits(n)[i] <= '9',
        forall|m: nat| #[trigger] decimal_digits(m) == decimal_digits(n) ==> m == n,
{
    lemma_decimal(n);
    assert forall|m: nat| #[trigger] decimal_digits(m) == decimal_digits(n) implies m == n by {
        lemma_decimal(m);
    }
}

proof fn lemma_decimal(n: nat)
    ensures
        decimal_digits(n).len() > 0,
        forall|i: int|
            0 <= i < decimal_digits(n).len() ==> is_digit_of(#[trigger] decimal_digits(n)[i], 10),
        digits_value(decimal_digits(n), 10) == n,
        n >= 10 ==> decimal_digits(n).len() > 1,
        n > 0 ==> decimal_digits(n)[0] != '0',
        n < 10 ==> decimal_digits(n).len() == 1,
        n < 100 ==> decimal_digits(n).len() <= 2,
        n < 1000 ==> decimal_digits(n).len() <= 3,
    decreases n,
{
    let all = decimal_digits(n);
    if n < 10 {
        assert(all.drop_last() =~= Seq::empty());
        assert(all.last() == digit_char(n));
        reveal_with_fuel(digits_value, 2);
    } else {
        lemma_decimal(n / 10);
        let rest = decimal_digits(n / 10);
        assert(all.drop_last() =~= rest);
        assert(all.last() == digit_char(n % 10));
        assert(all[0] == rest[0]);
        assert forall|i: int| 0 <= i < all.len() implies is_digit_of(#[trigger] all[i], 10) by {
            if i < rest.len() {
                assert(all[i] == rest[i]);
            }
        }
    }
}

proof fn lemma_hex(n: nat)
    ensures
        hex_digits(n).len() > 0,
        forall|i: int|
            0 <= i < hex_digits(n).len() ==> is_digit_of(#[trigger] hex_digits(n)[i], 16),
        digits_value(hex_digits(n), 16) == n,
        n < 16 ==> hex_digits(n).len() == 1,
        n < 256 ==> hex_digits(n).len() <= 2,
        n < 4096 ==> hex_digits(n).len() <= 3,
        n < 65536 ==> hex_digits(n).len() <= 4,
    decreases n,
{
    let all = hex_digits(n);
    if n < 16 {
        assert(all.drop_last() =~= Seq::empty());
        assert(all.last() == hex_digit(n));
        reveal_with_fuel(digits_value, 2);
    } else {
        lemma_hex(n / 16);
        let rest = hex_digits(n / 16);
        assert(all.drop_last() =~= rest);
        assert(all.last() == hex_digit(n % 16));
        assert forall|i: int| 0 <= i < all.len() implies is_digit_of(#[trigger] all[i], 16) by {
            if i < rest.len() {
                assert(all[i] == rest[i]);
            }
        }
    }
}

proof fn lemma_digits_stop(s: Seq<char>, at: int, end: int, base: nat)
    requires
        0 <= at <= end <= s.len(),
        forall|i: int| at <= i < end ==> is_digit_of(#[trigger] s[i], base),
        stops(s, end, base),
    ensures
        digits_end(s, at, base) == end,
    decreases end - at,
{
    if at < end {
        lemma_digits_stop(s, at + 1, end, base);
    }
}

/// Digits that stand at a place are the number read there.
proof fn lemma_number(s: Seq<char>, at: int, t: Seq<char>, base: nat, max: nat)
    requires
        stands(s, at, t),
        1 <= t.len() <= max,
        forall|i: int| 0 <= i < t.len() ==> is_digit_of(#[trigger] t[i], base),
        stops(s, at + t.len(), base),
    ensures
        number_at(s, at, base, max) == Some((digits_value(t, base), at + t.len())),
{
    let end = at + t.len();
    assert forall|i: int| at <= i < end implies is_digit_of(#[trigger] s[i], base) by {
        assert(s.subrange(at, end)[i - at] == s[i]);
    }
    lemma_digits_stop(s, at, end, base);
}

proof fn lemma_octet(s: Seq<char>, at: int, n: nat)
    requires
        n < 256,
        stands(s, at, decimal_digits(n)),
        stops(s, at + decimal_digits(n).len(), 10),
    ensures
        octet_at(s, at) == Some((n, at + decimal_digits(n).len())),
{
    let t = decimal_digits(n);
    lemma_decimal(n);
    lemma_number(s, at, t, 10, 3);
    assert(s.subrange(at, at + t.len())[0] == s[at]);
}

/// A text that follows another is where that one ends.
proof fn lemma_follows(s: Seq<char>, head: Seq<char>, t: Seq<char>, tail: Seq<char>)
    requires
        s == head + (t + tail),
    ensures
        stands(s, head.len() as int, t),
        s == (head + t) + tail,
        t.len() > 0 ==> s[head.len() as int] == t[0],
{
    let at = head.len() as int;
    assert(s =~= (head + t) + tail);
    assert(s.subrange(at, at + t.len()) =~= t);
}

/// One more octet, after a dot.
proof fn lemma_dotted(
    s: Seq<char>,
    head: Seq<char>,
    n: nat,
    tail: Seq<char>,
    k: nat,
    value: nat,
)
    requires
        k > 0,
        n < 256,
        s == head + (seq!['.'] + (decimal_digits(n) + tail)),
        tail.len() == 0 || !is_digit_of(tail[0], 10),
    ensures
        octets_at(s, head.len() as int, k, value) == octets_at(
            s,
            s.len() - tail.len(),
            (k - 1) as nat,
            value * 256 + n,
        ),
        s == ((head + seq!['.']) + decimal_digits(n)) + tail,
{
    let t = decimal_digits(n);
    let dot = seq!['.'];
    lemma_follows(s, head, dot, t + tail);
    lemma_follows(s, head + dot, t, tail);
    lemma_octet(s, head.len() as int + 1, n);
}

/// Four octets with dots between them are read where they stand.
proof fn lemma_four_octets(
    s: Seq<char>,
    head: Seq<char>,
    a: nat,
    b: nat,
    c: nat,
    d: nat,
    tail: Seq<char>,
)
    requires
        a < 256,
        b < 256,
        c < 256,
        d < 256,
        s == head + (decimal_digits(a) + (seq!['.'] + (decimal_digits(b) + (seq!['.'] + (
        decimal_digits(c) + (seq!['.'] + (decimal_digits(d) + tail))))))),
        tail.len() == 0 || !is_digit_of(tail[0], 10),
    ensures
        ipv4_at(s, head.len() as int) == Some(
            (((a * 256 + b) * 256 + c) * 256 + d, s.len() - tail.len()),
        ),
{
    let dot = seq!['.'];
    let r3 = dot + (decimal_digits(d) + tail);
    let r2 = dot + (decimal_digits(c) + r3);
    let r1 = dot + (decimal_digits(b) + r2);
    let h1 = head + decimal_digits(a);
    let h2 = (h1 + dot) + decimal_digits(b);
    let h3 = (h2 + dot) + decimal_digits(c);
    assert(octet_at(s, head.len() as int) == Some((a, h1.len() as int)) && s == h1 + r1) by {
        lemma_follows(s, head, decimal_digits(a), r1);
        lemma_octet(s, head.len() as int, a);
    }
    lemma_dotted(s, h1, b, r2, 3, a);
    lemma_dotted(s, h2, c, r3, 2, a * 256 + b);
    lemma_dotted(s, h3, d, tail, 1, (a * 256 + b) * 256 + c);
}

proof fn lemma_quarters(n: nat)
    requires
        n < 0x1_0000_0000,
    ensures
        n / 0x100_0000 < 256,
        ((n / 0x100_0000 * 256 + n / 0x1_0000 % 256) * 256 + n / 0x100 % 256) * 256 + n % 256 == n,
{
    let a = n / 0x100;
    let b = a / 0x100;
    assert(n / 0x1_0000 == b);
    assert(n / 0x100_0000 == b / 0x100);
}

proof fn lemma_regrouped(
    a: Seq<char>,
    b: Seq<char>,
    c: Seq<char>,
    d: Seq<char>,
    dot: Seq<char>,
    tail: Seq<char>,
)
    ensures
        (a + dot + b + dot + c + dot + d) + tail == a + (dot + (b + (dot + (c + (dot + (d
            + tail)))))),
{
    assert((a + dot + b + dot + c + dot + d) + tail =~= a + (dot + (b + (dot + (c + (dot + (d
        + tail)))))));
}

/// The dotted form of an IPv4 address is read back where it stands.
proof fn lemma_ipv4(s: Seq<char>, head: Seq<char>, n: nat, tail: Seq<char>)
    requires
        n < 0x1_0000_0000,
        s == head + (ipv4_text(n) + tail),
        tail.len() == 0 || !is_digit_of(tail[0], 10),
    ensures
        ipv4_at(s, head.len() as int) == Some((n, s.len() - tail.len())),
{
    reveal_strlit(".");
    let dot = seq!['.'];
    assert("."@ =~= dot);
    let (a, b, c, d) = (n / 0x100_0000, n / 0x1_0000 % 256, n / 0x100 % 256, n % 256);
    lemma_regrouped(
        decimal_digits(a),
        decimal_digits(b),
        decimal_digits(c),
        decimal_digits(d),
        dot,
        tail,
    );
    lemma_quarters(n);
    lemma_four_octets(s, head, a, b, c, d, tail);
}

/// An IPv4 address is read back as it was written.
pub proof fn an_ipv4_address_is_read_back(n: u32)
    ensures
        ip_of(ip_text(IpAddr::V4(n))) == Some(IpAddr::V4(n)),
{
    let t = ipv4_text(n as nat);
    let none = Seq::<char>::empty();
    assert(none + (t + none) =~= t);
    lemma_ipv4(t, none, n as nat, none);
}

/// Without a dot nothing is an IPv4 address.
proof fn lemma_no_dots(s: Seq<char>, at: int)
    requires
        !s.contains('.'),
    ensures
        ipv4_at(s, at) is None,
{
    if let Some((octet, end)) = octet_at(s, at) {
        reveal_with_fuel(octets_at, 2);
        assert(!char_at(s, end, '.')) by {
            if char_at(s, end, '.') {
                assert(s.contains(s[end]));
            }
        }
    }
}

/// Groups as text, from the first on.
proof fn lemma_groups_front(gs: Seq<nat>)
    requires
        gs.len() >= 2,
    ensures
        groups_text(gs) == hex_digits(gs[0]) + (seq![':'] + groups_text(gs.drop_first())),
    decreases gs.len(),
{
    reveal_strlit(":");
    let colon = seq![':'];
    assert(":"@ =~= colon);
    let front = gs.drop_last();
    let back = gs.drop_first();
    let last = hex_digits(gs.last());
    assert(back.last() == gs.last());
    if gs.len() == 2 {
        assert(front[0] == gs[0]);
        assert(back[0] == gs[1]);
        assert(groups_text(gs) =~= hex_digits(gs[0]) + (colon + groups_text(back)));
    } else {
        lemma_groups_front(front);
        assert(front.drop_first() =~= back.drop_last());
        let mid = groups_text(back.drop_last());
        assert(groups_text(front) == hex_digits(gs[0]) + (colon + mid));
        assert((hex_digits(gs[0]) + (colon + mid)) + colon + last =~= hex_digits(gs[0]) + (colon + (
        mid + colon + last)));
    }
}

/// What may follow groups: nothing, or the `::` that stands for zeros.
spec fn after_groups(tail: Seq<char>) -> bool {
    tail.len() == 0 || (tail.len() >= 2 && tail[0] == ':' && tail[1] == ':')
}

/// Groups are read where they stand.
proof fn lemma_groups_read(
    s: Seq<char>,
    at: int,
    limit: nat,
    acc: Seq<nat>,
    head: Seq<char>,
    gs: Seq<nat>,
    tail: Seq<char>,
)
    requires
        !s.contains('.'),
        gs.len() > 0,
        acc.len() + gs.len() <= limit,
        forall|i: int| 0 <= i < gs.len() ==> #[trigger] gs[i] < 65536,
        s == head + (groups_text(gs) + tail),
        head.len() == (if acc.len() > 0 {
            at + 1
        } else {
            at
        }),
        acc.len() > 0 ==> char_at(s, at, ':'),
        after_groups(tail),
    ensures
        groups_at(s, at, limit, acc) == (acc + gs, s.len() - tail.len(), false),
    decreases gs.len(),
{
    let from = head.len() as int;
    let t = hex_digits(gs[0]);
    let colon = seq![':'];
    lemma_no_dots(s, from);
    lemma_hex(gs[0]);
    let rest = gs.drop_first();
    let next = acc.push(gs[0]);
    if gs.len() == 1 {
        assert(groups_text(gs) == t);
        lemma_follows(s, head, t, tail);
        if tail.len() > 0 {
            lemma_follows(s, head + t, tail, Seq::empty());
            assert(tail + Seq::<char>::empty() =~= tail);
        }
        lemma_number(s, from, t, 16, 4);
        let end = from + t.len();
        assert(acc + gs =~= next);
        assert(groups_at(s, at, limit, acc) == groups_at(s, end, limit, next));
        if next.len() < limit && tail.len() > 0 {
            lemma_no_dots(s, end + 1);
            assert(s[end + 1] == tail[1]);
            assert(number_at(s, end + 1, 16, 4) is None);
        }
    } else {
        lemma_groups_front(gs);
        let more = groups_text(rest);
        assert((t + (colon + more)) + tail =~= t + (colon + (more + tail)));
        lemma_follows(s, head, t, colon + (more + tail));
        lemma_follows(s, head + t, colon, more + tail);
        lemma_number(s, from, t, 16, 4);
        let end = from + t.len();
        assert(char_at(s, end, ':'));
        assert(s == ((head + t) + colon) + (more + tail));
        assert forall|i: int| 0 <= i < rest.len() implies #[trigger] rest[i] < 65536 by {
            assert(rest[i] == gs[i + 1]);
        }
        lemma_groups_read(s, end, limit, next, (head + t) + colon, rest, tail);
        assert(acc + gs =~= next + rest);
    }
}

/// No group is read where a colon or nothing stands.
proof fn lemma_no_group(s: Seq<char>, at: int, limit: nat)
    requires
        !s.contains('.'),
        0 <= at <= s.len(),
        at < s.len() ==> s[at] == ':',
    ensures
        groups_at(s, at, limit, Seq::empty()) == (Seq::<nat>::empty(), at, false),
{
    lemma_no_dots(s, at);
    assert(number_at(s, at, 16, 4) is None);
}

proof fn lemma_zero_run(groups: Seq<nat>, i: int)
    requires
        0 <= i <= groups.len(),
    ensures
        i + zero_run(groups, i) <= groups.len(),
        forall|j: int| i <= j < i + zero_run(groups, i) ==> #[trigger] groups[j] == 0,
    decreases groups.len() - i,
{
    if i < groups.len() && groups[i] == 0 {
        lemma_zero_run(groups, i + 1);
    }
}

/// Whether a run is of zeros and inside.
spec fn run_of_zeros(groups: Seq<nat>, start: int, len: nat) -> bool {
    len > 0 ==> 0 <= start && start + len <= groups.len() && forall|j: int|
        start <= j < start + len ==> #[trigger] groups[j] == 0
}

proof fn lemma_longest_run(groups: Seq<nat>, i: int, start: int, len: nat)
    requires
        0 <= i,
        run_of_zeros(groups, start, len),
    ensures
        run_of_zeros(
            groups,
            longest_run(groups, i, start, len).0,
            longest_run(groups, i, start, len).1,
        ),
    decreases groups.len() - i,
{
    if i < groups.len() {
        lemma_zero_run(groups, i);
        if zero_run(groups, i) > len {
            lemma_longest_run(groups, i + 1, i, zero_run(groups, i));
        } else {
            lemma_longest_run(groups, i + 1, start, len);
        }
    }
}

/// How many numbers `k` groups tell apart.
spec fn cap(k: nat) -> nat
    decreases k,
{
    if k == 0 {
        1
    } else {
        65536 * cap((k - 1) as nat)
    }
}

proof fn lemma_groups_of(n: nat, k: nat)
    requires
        n < cap(k),
    ensures
        groups_of(n, k).len() == k,
        forall|i: int| 0 <= i < k ==> #[trigger] groups_of(n, k)[i] < 65536,
        groups_value(groups_of(n, k)) == n,
    decreases k,
{
    if k > 0 {
        let rest = (k - 1) as nat;
        assert(n / 65536 < cap(rest)) by (nonlinear_arith)
            requires
                n < 65536 * cap(rest),
        ;
        lemma_groups_of(n / 65536, rest);
        let all = groups_of(n, k);
        assert(all.drop_last() =~= groups_of(n / 65536, rest));
        assert(all.last() == n % 65536);
    }
}

proof fn lemma_text_plain(gs: Seq<nat>)
    ensures
        !groups_text(gs).contains('.'),
        !groups_text(gs).contains('/'),
    decreases gs.len(),
{
    reveal_strlit(":");
    let t = groups_text(gs);
    if gs.len() > 0 {
        lemma_hex(gs.last());
        let h = hex_digits(gs.last());
        assert forall|i: int| 0 <= i < h.len() implies #[trigger] h[i] != '.' && h[i] != '/' by {
            assert(is_digit_of(h[i], 16));
        }
        if gs.len() > 1 {
            lemma_text_plain(gs.drop_last());
            let front = groups_text(gs.drop_last());
            assert forall|i: int| 0 <= i < t.len() implies #[trigger] t[i] != '.' && t[i]
                != '/' by {
                if i < front.len() {
                    assert(t[i] == front[i]);
                    assert(front.contains(front[i]));
                } else if i > front.len() {
                    assert(t[i] == h[i - front.len() - 1]);
                }
            }
        } else {
            assert(gs.last() == gs[0]);
        }
    }
}

/// The groups of an IPv6 address written with a `::` are read back.
proof fn lemma_shortened(groups: Seq<nat>, start: int, len: nat)
    requires
        groups.len() == 8,
        len > 1,
        run_of_zeros(groups, start, len),
        forall|i: int| 0 <= i < 8 ==> #[trigger] groups[i] < 65536,
    ensures
        ipv6_groups(
            groups_text(groups.take(start)) + "::"@ + groups_text(groups.skip(start + len)),
        ) == Some(groups),
{
    reveal_strlit("::");
    let first = groups.take(start);
    let last = groups.skip(start + len);
    let (a, b) = (groups_text(first), groups_text(last));
    let two = "::"@;
    let s = a + two + b;
    let none = Seq::<char>::empty();
    lemma_text_plain(first);
    lemma_text_plain(last);
    assert(!s.contains('.')) by {
        assert forall|i: int| 0 <= i < s.len() implies s[i] != '.' by {
            if i < a.len() {
                assert(a.contains(a[i]));
            } else if i >= a.len() + 2 {
                assert(b.contains(b[i - a.len() - 2]));
            }
        }
    }
    let end = a.len() as int;
    assert(s[end] == ':' && s[end + 1] == ':');
    assert(groups_at(s, 0, 8, Seq::empty()) == (first, end, false)) by {
        if start > 0 {
            assert(s =~= none + (a + (two + b)));
            lemma_groups_read(s, 0, 8, Seq::empty(), none, first, two + b);
            assert(Seq::<nat>::empty() + first =~= first);
        } else {
            assert(a =~= none);
            lemma_no_group(s, 0, 8);
            assert(first =~= Seq::empty());
        }
    }
    let limit = (7 - first.len()) as nat;
    assert(groups_at(s, end + 2, limit, Seq::empty()) == (last, s.len() as int, false)) by {
        if last.len() > 0 {
            assert(s =~= (a + two) + (b + none));
            lemma_groups_read(s, end + 2, limit, Seq::empty(), a + two, last, none);
            assert(Seq::<nat>::empty() + last =~= last);
        } else {
            assert(b =~= none);
            lemma_no_group(s, end + 2, limit);
            assert(last =~= Seq::empty());
        }
    }
    assert(first + Seq::new((8 - first.len() - last.len()) as nat, |i: int| 0nat) + last
        =~= groups);
}

proof fn lemma_value_push(groups: Seq<nat>, group: nat)
    ensures
        groups_value(groups.push(group)) == groups_value(groups) * 65536 + group,
{
    assert(groups.push(group).drop_last() =~= groups);
}

/// The number of a mapped address, from its groups.
proof fn lemma_mapped_value(n: nat)
    requires
        n < 0x1_0000_0000,
    ensures
        groups_value(seq![0nat, 0, 0, 0, 0, 65535, n / 65536, n % 65536]) == 0xffff_0000_0000 + n,
{
    let zero = Seq::<nat>::empty();
    let g1 = zero.push(0);
    let g2 = g1.push(0);
    let g3 = g2.push(0);
    let g4 = g3.push(0);
    let g5 = g4.push(0);
    let g6 = g5.push(65535);
    let g7 = g6.push(n / 65536);
    lemma_value_push(zero, 0);
    lemma_value_push(g1, 0);
    lemma_value_push(g2, 0);
    lemma_value_push(g3, 0);
    lemma_value_push(g4, 0);
    lemma_value_push(g5, 65535);
    lemma_value_push(g6, n / 65536);
    lemma_value_push(g7, n % 65536);
    assert(g7.push(n % 65536) =~= seq![0nat, 0, 0, 0, 0, 65535, n / 65536, n % 65536]);
}

/// The one group before the octets of a mapped address.
proof fn lemma_mapped_group(s: Seq<char>, low: Seq<char>)
    requires
        s == "::ffff:"@ + low,
    ensures
        number_at(s, 2, 16, 4) == Some((65535nat, 6int)),
        number_at(s, 2, 10, 3) is None,
        number_at(s, 0, 10, 3) is None,
        number_at(s, 0, 16, 4) is None,
        char_at(s, 0, ':'),
        char_at(s, 1, ':'),
        char_at(s, 6, ':'),
{
    reveal_strlit("::ffff:");
    let t = seq!['f', 'f', 'f', 'f'];
    assert(s.subrange(2, 6) =~= t);
    assert(s[6] == ':');
    assert(digits_value(t, 16) == 65535) by {
        reveal_with_fuel(digits_value, 5);
        assert(t.drop_last() =~= seq!['f', 'f', 'f']);
        assert(t.drop_last().drop_last() =~= seq!['f', 'f']);
        assert(t.drop_last().drop_last().drop_last() =~= seq!['f']);
        assert(t.drop_last().drop_last().drop_last().drop_last() =~= Seq::empty());
    }
    assert forall|i: int| 0 <= i < t.len() implies is_digit_of(#[trigger] t[i], 16) by {}
    lemma_number(s, 2, t, 16, 4);
}

/// The groups of an IPv4 address mapped into IPv6 are read back.
proof fn lemma_mapped(n: nat)
    requires
        n < 0x1_0000_0000,
    ensures
        ipv4_at("::ffff:"@ + ipv4_text(n), 0) is None,
        ipv6_groups("::ffff:"@ + ipv4_text(n)) == Some(
            seq![0nat, 0, 0, 0, 0, 65535, n / 65536, n % 65536],
        ),
{
    let low = ipv4_text(n);
    let s = "::ffff:"@ + low;
    let none = Seq::<char>::empty();
    lemma_mapped_group(s, low);
    assert(low + none =~= low);
    lemma_ipv4(s, "::ffff:"@, n, none);
    assert("::ffff:"@.len() == 7) by {
        reveal_strlit("::ffff:");
    }
    let one = Seq::<nat>::empty().push(65535);
    let tail = one + seq![n / 65536, n % 65536];
    assert(groups_at(s, 0, 8, Seq::empty()) == (Seq::<nat>::empty(), 0int, false));
    assert(groups_at(s, 6, 7, one) == (tail, s.len() as int, true));
    assert(groups_at(s, 2, 7, Seq::empty()) == groups_at(s, 6, 7, one));
    assert(Seq::<nat>::empty() + Seq::new(5, |i: int| 0nat) + tail
        =~= seq![0nat, 0, 0, 0, 0, 65535, n / 65536, n % 65536]);
}

/// The groups of an IPv6 address that shows all of them are read back.
proof fn lemma_whole(groups: Seq<nat>)
    requires
        groups.len() == 8,
        forall|i: int| 0 <= i < 8 ==> #[trigger] groups[i] < 65536,
    ensures
        ipv6_groups(groups_text(groups)) == Some(groups),
{
    let s = groups_text(groups);
    let none = Seq::<char>::empty();
    lemma_text_plain(groups);
    assert(none + (s + none) =~= s);
    lemma_groups_read(s, 0, 8, Seq::empty(), none, groups, none);
    assert(Seq::<nat>::empty() + groups =~= groups);
}

/// An IPv6 address is read back as it was written.
pub proof fn an_ipv6_address_is_read_back(n: u128)
    ensures
        ip_of(ip_text(IpAddr::V6(n))) == Some(IpAddr::V6(n)),
{
    let s = ip_text(IpAddr::V6(n));
    if n / 0x1_0000_0000 == 0xffff {
        lemma_mapped(n as nat % 0x1_0000_0000);
        lemma_mapped_value(n as nat % 0x1_0000_0000);
    } else {
        assert(cap(8) == 0x1_0000_0000_0000_0000_0000_0000_0000_0000) by {
            reveal_with_fuel(cap, 9);
        }
        lemma_groups_of(n as nat, 8);
        let groups = groups_of(n as nat, 8);
        lemma_longest_run(groups, 0, 0, 0);
        let (start, len) = longest_run(groups, 0, 0, 0);
        if len > 1 {
            lemma_shortened(groups, start, len);
        } else {
            lemma_whole(groups);
        }
        lemma_ip_plain(IpAddr::V6(n));
        lemma_no_dots(s, 0);
    }
}

/// An IPv4 address holds no slash.
proof fn lemma_ipv4_plain(n: nat)
    ensures
        !ipv4_text(n).contains('/'),
{
    reveal_strlit(".");
    let dot = "."@;
    let (a, b, c, d) = (
        decimal_digits(n / 0x100_0000),
        decimal_digits(n / 0x1_0000 % 256),
        decimal_digits(n / 0x100 % 256),
        decimal_digits(n % 256),
    );
    lemma_decimal(n / 0x100_0000);
    lemma_decimal(n / 0x1_0000 % 256);
    lemma_decimal(n / 0x100 % 256);
    lemma_decimal(n % 256);
    assert(!is_digit_of('/', 10));
    lemma_joined(a, dot, '/');
    lemma_joined(a + dot, b, '/');
    lemma_joined(a + dot + b, dot, '/');
    lemma_joined(a + dot + b + dot, c, '/');
    lemma_joined(a + dot + b + dot + c, dot, '/');
    lemma_joined(a + dot + b + dot + c + dot, d, '/');
}

/// An address holds no slash, and an IPv6 address that maps no IPv4 address
/// no dot.
proof fn lemma_ip_plain(ip: IpAddr)
    ensures
        !ip_text(ip).contains('/'),
        match ip {
            IpAddr::V4(_) => true,
            IpAddr::V6(n) => n / 0x1_0000_0000 != 0xffff ==> !ip_text(ip).contains('.'),
        },
{
    match ip {
        IpAddr::V4(n) => lemma_ipv4_plain(n as nat),
        IpAddr::V6(n) => {
            if n / 0x1_0000_0000 == 0xffff {
                reveal_strlit("::ffff:");
                lemma_ipv4_plain(n as nat % 0x1_0000_0000);
                lemma_joined("::ffff:"@, ipv4_text(n as nat % 0x1_0000_0000), '/');
            } else {
                reveal_strlit("::");
                let groups = groups_of(n as nat, 8);
                let (start, len) = longest_run(groups, 0, 0, 0);
                let (a, b) = (
                    groups_text(groups.take(start)),
                    groups_text(groups.skip(start + len)),
                );
                lemma_text_plain(groups);
                lemma_text_plain(groups.take(start));
                lemma_text_plain(groups.skip(start + len));
                lemma_joined(a, "::"@, '/');
                lemma_joined(a + "::"@, b, '/');
                lemma_joined(a, "::"@, '.');
                lemma_joined(a + "::"@, b, '.');
            }
        },
    }
}

proof fn lemma_find(s: Seq<char>, c: char, i: int, at: int)
    requires
        0 <= i <= at <= s.len(),
        forall|j: int| i <= j < at ==> #[trigger] s[j] != c,
        at < s.len() ==> s[at] == c,
    ensures
        find_char(s, c, i) == (if at < s.len() {
            Some(at)
        } else {
            None
        }),
    decreases at - i,
{
    if i < at {
        lemma_find(s, c, i + 1, at);
    }
}

/// A block of addresses, of which no bit past the prefix is set, is read back
/// as it was written.
pub proof fn a_block_is_read_back(c: Cidr)
    requires
        c.len <= address_bits(c.addr),
        address_number(c.addr) % pow2((address_bits(c.addr) - c.len) as nat) == 0,
    ensures
        cidr_of(cidr_text(c)) == Some(c),
{
    let ip = ip_text(c.addr);
    let s = cidr_text(c);
    match c.addr {
        IpAddr::V4(n) => an_ipv4_address_is_read_back(n),
        IpAddr::V6(n) => an_ipv6_address_is_read_back(n),
    }
    lemma_ip_plain(c.addr);
    let at = ip.len() as int;
    assert forall|j: int| 0 <= j < at implies #[trigger] s[j] != '/' by {
        assert(s[j] == ip[j]);
        assert(ip.contains(ip[j]));
    }
    if c.len == address_bits(c.addr) {
        lemma_find(s, '/', 0, at);
    } else {
        reveal_strlit("/");
        let t = decimal_digits(c.len as nat);
        lemma_find(s, '/', 0, at);
        assert(s.take(at) =~= ip);
        assert(s.skip(at + 1) =~= t);
        lemma_decimal(c.len as nat);
        assert(t.subrange(0, t.len() as int) =~= t);
        lemma_number(t, 0, t, 10, 3);
    }
}

} // verus!
