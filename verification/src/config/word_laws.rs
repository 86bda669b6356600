//! Which words are accepted, letter by letter.

use vstd::prelude::*;

use crate::config::address::{
    digit_value, digits_end, digits_value, find_char, groups_at, groups_value, ip_of, ip_text,
    ipv4_at, ipv4_text, is_digit_of, loopback, number_at, octet_at, octets_at, prefix_length,
    IpAddr,
};
use crate::config::address_laws::a_number_is_written_in_its_digits;
use crate::config::bus::{member_rule, name_element, name_glob};
use crate::config::grants::{geometry_of, positive, share_fault, ShareKind};
use crate::config::node::{digit, letter};
use crate::config::settings::{
    check_severity, env_key, listed, syscall_word, Severity, RESERVED_ENV,
};
use crate::config::value_laws::lemma_find;
use crate::paths::{components, ComponentView};
use crate::dbus_wire::signature::char_at;
use crate::split::{join_with, split_on};
use crate::text::{decimal_digits, digit_char, utf8, white_space};

verus! {

/// Whether a text is a number as it is written: digits, the first no zero but
/// where it is all there is.
pub open spec fn written_number(s: Seq<char>) -> bool {
    &&& s.len() > 0
    &&& forall|i: int| 0 <= i < s.len() ==> '0' <= #[trigger] s[i] <= '9'
    &&& s.len() > 1 ==> s[0] != '0'
}

proof fn lemma_not_zero(s: Seq<char>)
    requires
        s.len() > 0,
        s[0] != '0',
        forall|i: int| 0 <= i < s.len() ==> '0' <= #[trigger] s[i] <= '9',
    ensures
        digits_value(s, 10) >= 1,
    decreases s.len(),
{
    if s.len() > 1 {
        lemma_not_zero(s.drop_last());
    } else {
        assert(s.drop_last() =~= Seq::empty());
        assert(digits_value(s.drop_last(), 10) == 0);
        assert(s.last() == s[0]);
    }
}

/// A number as it is written is the digits of its value.
pub proof fn a_written_number_is_its_digits(s: Seq<char>)
    requires
        written_number(s),
    ensures
        decimal_digits(digits_value(s, 10)) == s,
    decreases s.len(),
{
    let d = digit_value(s.last())->Some_0;
    let rest = s.drop_last();
    assert('0' <= s.last() <= '9');
    assert(d < 10 && digit_char(d) == s.last());
    if s.len() > 1 {
        assert(rest[0] == s[0]);
        assert forall|i: int| 0 <= i < rest.len() implies '0' <= #[trigger] rest[i] <= '9' by {
            assert(rest[i] == s[i]);
        }
        lemma_not_zero(rest);
        a_written_number_is_its_digits(rest);
        let v = digits_value(s, 10);
        assert(v == digits_value(rest, 10) * 10 + d);
        assert(v >= 10 && v / 10 == digits_value(rest, 10) && v % 10 == d);
        assert(decimal_digits(v) =~= s);
    } else {
        assert(rest =~= Seq::empty());
        assert(digits_value(rest, 10) == 0);
        assert(digits_value(s, 10) == d);
        assert(decimal_digits(d) =~= s);
    }
}

proof fn lemma_digits_end(s: Seq<char>, at: int)
    requires
        0 <= at <= s.len(),
    ensures
        at <= digits_end(s, at, 10) <= s.len(),
        forall|i: int| at <= i < digits_end(s, at, 10) ==> '0' <= #[trigger] s[i] <= '9',
    decreases s.len() - at,
{
    if at < s.len() && is_digit_of(s[at], 10) {
        lemma_digits_end(s, at + 1);
    }
}

proof fn lemma_octet(s: Seq<char>, at: int)
    requires
        0 <= at <= s.len(),
    ensures
        octet_at(s, at) matches Some((n, end)) ==> at < end <= s.len() && n <= 255 && s.subrange(
            at,
            end,
        ) == decimal_digits(n),
{
    lemma_digits_end(s, at);
    if let Some((n, end)) = octet_at(s, at) {
        let part = s.subrange(at, end);
        assert forall|i: int| 0 <= i < part.len() implies '0' <= #[trigger] part[i] <= '9' by {
            assert(part[i] == s[at + i]);
        }
        a_written_number_is_its_digits(part);
    }
}

proof fn lemma_four(a: nat, b: nat, c: nat, d: nat)
    requires
        a <= 255,
        b <= 255,
        c <= 255,
        d <= 255,
    ensures
        ({
            let v = ((a * 256 + b) * 256 + c) * 256 + d;
            v <= 0xffff_ffff && v / 0x100_0000 == a && v / 0x1_0000 % 256 == b && v / 0x100 % 256
                == c && v % 256 == d
        }),
{
}

proof fn lemma_parts(s: Seq<char>, i: int, j: int, k: int)
    requires
        0 <= i < j < k < s.len(),
        s[i] == '.',
        s[j] == '.',
        s[k] == '.',
    ensures
        s == s.subrange(0, i) + "."@ + s.subrange(i + 1, j) + "."@ + s.subrange(j + 1, k) + "."@
            + s.subrange(k + 1, s.len() as int),
{
    reveal_strlit(".");
    assert(s =~= s.subrange(0, i) + "."@ + s.subrange(i + 1, j) + "."@ + s.subrange(j + 1, k)
        + "."@ + s.subrange(k + 1, s.len() as int));
}

/// The next of the numbers after a dot.
proof fn lemma_next_octet(s: Seq<char>, at: int, n: nat, value: nat)
    requires
        0 <= at <= s.len(),
        n > 0,
    ensures
        octets_at(s, at, n, value) matches Some((v, end)) ==> at < s.len() && s[at] == '.' && (
        octet_at(s, at + 1) matches Some((octet, next)) && at + 1 < next <= s.len() && octet <= 255
            && s.subrange(at + 1, next) == decimal_digits(octet) && octets_at(
            s,
            next,
            (n - 1) as nat,
            value * 256 + octet,
        ) == Some((v, end))),
{
    if at < s.len() {
        lemma_octet(s, at + 1);
    }
}

proof fn lemma_dotted(s: Seq<char>)
    ensures
        ipv4_at(s, 0) matches Some((v, end)) ==> end == s.len() ==> v <= 0xffff_ffff && s
            == ipv4_text(v),
{
    lemma_octet(s, 0);
    if ipv4_at(s, 0) is Some && ipv4_at(s, 0)->Some_0.1 == s.len() {
        let (a, i) = octet_at(s, 0)->Some_0;
        lemma_next_octet(s, i, 3, a);
        let (b, j) = octet_at(s, i + 1)->Some_0;
        lemma_next_octet(s, j, 2, a * 256 + b);
        let (c, k) = octet_at(s, j + 1)->Some_0;
        lemma_next_octet(s, k, 1, (a * 256 + b) * 256 + c);
        let (d, end) = octet_at(s, k + 1)->Some_0;
        lemma_four(a, b, c, d);
        lemma_parts(s, i, j, k);
    }
}

/// A dotted address is read only of its own text: four numbers up to 255,
/// written without zeros before them and with a dot between each two.
pub proof fn a_dotted_address_is_read_of_its_own_text(s: Seq<char>, n: u32)
    ensures
        ip_of(s) == Some(IpAddr::V4(n)) ==> s == ip_text(IpAddr::V4(n)),
{
    lemma_dotted(s);
}

/// A prefix length is read exactly of the digits of a number up to the bits of
/// the address.
pub proof fn a_prefix_length_is_read_of_its_digits(s: Seq<char>, bits: nat, n: nat)
    requires
        bits < 1000,
    ensures
        prefix_length(s, bits) == Some(n) <==> s == decimal_digits(n) && n <= bits,
{
    lemma_digits_end(s, 0);
    if prefix_length(s, bits) == Some(n) {
        assert(s.subrange(0, s.len() as int) =~= s);
        a_written_number_is_its_digits(s);
    }
    if s == decimal_digits(n) && n <= bits {
        a_number_is_written_in_its_digits(n);
        lemma_all_digits(s, 0);
        lemma_short(n);
        assert(s.subrange(0, s.len() as int) =~= s);
    }
}

proof fn lemma_short(n: nat)
    requires
        n < 1000,
    ensures
        decimal_digits(n).len() <= 3,
{
    reveal_with_fuel(decimal_digits, 4);
}

proof fn lemma_all_digits(s: Seq<char>, at: int)
    requires
        0 <= at <= s.len(),
        forall|i: int| 0 <= i < s.len() ==> '0' <= #[trigger] s[i] <= '9',
    ensures
        digits_end(s, at, 10) == s.len(),
    decreases s.len() - at,
{
    if at < s.len() {
        lemma_all_digits(s, at + 1);
    }
}

/// Loopback is all of 127.0.0.0/8 and the one address of IPv6.
pub proof fn loopback_is_127_and_one(n: u32, m: u128)
    ensures
        loopback(IpAddr::V4(n)) <==> 0x7f00_0000 <= n <= 0x7fff_ffff,
        loopback(IpAddr::V6(m)) <==> m == 1,
{
}

/// A window size is accepted exactly where it is two numbers with an `x`
/// between them, each at least one and no more than 32 bits hold, and is what
/// was written.
pub proof fn a_window_size_is_two_numbers(s: Seq<char>)
    ensures
        geometry_of(s) is Some <==> exists|w: nat, h: nat|
            1 <= w <= 0xffff_ffff && 1 <= h <= 0xffff_ffff && s == #[trigger] size_text(w, h),
        geometry_of(s) matches Some(t) ==> t == s,
{
    lemma_find(s, 'x', 0);
    if geometry_of(s) is Some {
        let at = find_char(s, 'x', 0)->Some_0;
        let (a, b) = (s.take(at), s.skip(at + 1));
        lemma_positive(a);
        lemma_positive(b);
        let (w, h) = (digits_value(a, 10), digits_value(b, 10));
        assert(s =~= size_text(w, h));
    }
    assert forall|w: nat, h: nat|
        1 <= w <= 0xffff_ffff && 1 <= h <= 0xffff_ffff && s == #[trigger] size_text(
            w,
            h,
        ) implies geometry_of(s) is Some by {
        let (a, b) = (decimal_digits(w), decimal_digits(h));
        a_number_is_written_in_its_digits(w);
        a_number_is_written_in_its_digits(h);
        assert(s[a.len() as int] == 'x');
        let at = find_char(s, 'x', 0)->Some_0;
        if at < a.len() {
            assert(a[at] == s[at]);
        }
        assert(at == a.len());
        assert(s.take(at) =~= a);
        assert(s.skip(at + 1) =~= b);
        lemma_written_positive(w);
        lemma_written_positive(h);
    }
}

/// A window size as it is written.
pub open spec fn size_text(w: nat, h: nat) -> Seq<char> {
    decimal_digits(w).push('x') + decimal_digits(h)
}

proof fn lemma_positive(part: Seq<char>)
    requires
        positive(part),
    ensures
        decimal_digits(digits_value(part, 10)) == part,
        1 <= digits_value(part, 10) <= 0xffff_ffff,
{
    assert forall|i: int| 0 <= i < part.len() implies '0' <= #[trigger] part[i] <= '9' by {
        assert(digit(part[i]));
    }
    a_written_number_is_its_digits(part);
    lemma_not_zero(part);
}

proof fn lemma_written_positive(n: nat)
    requires
        1 <= n <= 0xffff_ffff,
    ensures
        positive(decimal_digits(n)),
{
    let s = decimal_digits(n);
    a_number_is_written_in_its_digits(n);
    assert(s[0] != '0') by {
        if s[0] == '0' {
            assert(s.len() == 1);
            assert(s.drop_last() =~= Seq::empty());
            assert(digits_value(s.drop_last(), 10) == 0);
            assert(digits_value(s, 10) == 0);
        }
    }
    assert forall|i: int| 0 <= i < s.len() implies digit(#[trigger] s[i]) by {}
}

/// The key of a variable is letters, digits and underscores, and begins with
/// no digit.
pub proof fn a_variables_key_is_a_word(key: Seq<char>)
    ensures
        env_key(key) <==> {
            &&& key.len() > 0
            &&& !('0' <= key[0] <= '9')
            &&& forall|i: int|
                0 <= i < key.len() ==> ('A' <= #[trigger] key[i] <= 'Z' || 'a' <= key[i] <= 'z'
                    || '0' <= key[i] <= '9' || key[i] == '_')
        },
{
}

/// A name on the bus is elements with a dot between each two, each of letters,
/// digits, underscores and hyphens with no digit first; the last may be a `*`
/// alone, and no other.
pub proof fn a_bus_name_is_elements_with_dots(s: Seq<char>, min: nat)
    ensures
        name_glob(s, min) <==> {
            let elements = split_on(s, '.');
            &&& elements.len() >= min
            &&& forall|k: int|
                0 <= k < elements.len() ==> {
                    let e = #[trigger] elements[k];
                    ||| k == elements.len() - 1 && e == seq!['*']
                    ||| {
                        &&& e.len() > 0
                        &&& !('0' <= e[0] <= '9')
                        &&& forall|i: int|
                            0 <= i < e.len() ==> ('A' <= #[trigger] e[i] <= 'Z' || 'a' <= e[i]
                                <= 'z' || '0' <= e[i] <= '9' || e[i] == '_' || e[i] == '-')
                    }
                }
        },
{
    let elements = split_on(s, '.');
    assert forall|k: int| 0 <= k < elements.len() implies (name_element(#[trigger] elements[k])
        <==> {
        let e = elements[k];
        &&& e.len() > 0
        &&& !('0' <= e[0] <= '9')
        &&& forall|i: int|
            0 <= i < e.len() ==> ('A' <= #[trigger] e[i] <= 'Z' || 'a' <= e[i] <= 'z' || '0'
                <= e[i] <= '9' || e[i] == '_' || e[i] == '-')
    }) by {
        assert(forall|c: char| #[trigger] letter(c) <==> 'A' <= c <= 'Z' || 'a' <= c <= 'z');
    }
}

/// A filter of messages has something in it, and no white space and no NUL.
pub proof fn a_filter_is_one_word(s: Seq<char>)
    ensures
        member_rule(s) <==> s.len() > 0 && !s.contains('\0') && forall|i: int|
            0 <= i < s.len() ==> !white_space(#[trigger] s[i]),
{
    if member_rule(s) {
        assert forall|i: int| 0 <= i < s.len() implies s[i] != '\0' by {
            assert(!white_space(s[i]) && s[i] != '\0');
        }
    } else if s.len() > 0 && !s.contains('\0') {
        assert forall|i: int| 0 <= i < s.len() implies #[trigger] s[i] != '\0' by {
            assert(s.contains(s[i]));
        }
    }
}

/// A name of a system call is lower-case letters, digits and underscores.
pub proof fn a_system_call_is_a_lower_case_word(s: Seq<char>)
    ensures
        syscall_word(s) <==> s.len() > 0 && forall|i: int|
            0 <= i < s.len() ==> ('a' <= #[trigger] s[i] <= 'z' || '0' <= s[i] <= '9' || s[i]
                == '_'),
{
}

proof fn lemma_severity(checks: Seq<(Seq<char>, Severity)>, id: Seq<char>, i: int)
    requires
        0 <= i <= checks.len(),
    ensures
        match check_severity(checks, id, i) {
            None => forall|k: int| i <= k < checks.len() ==> (#[trigger] checks[k]).0 != id,
            Some(level) => exists|k: int|
                i <= k < checks.len() && (#[trigger] checks[k]) == (id, level) && forall|j: int|
                    i <= j < k ==> (#[trigger] checks[j]).0 != id,
        },
    decreases checks.len() - i,
{
    if i < checks.len() && checks[i].0 != id {
        lemma_severity(checks, id, i + 1);
    } else if i < checks.len() {
        assert(checks[i] == (id, checks[i].1));
    }
}

/// A check has the severity that the first of its id has, and one of no id is
/// no check.
pub proof fn a_check_has_the_severity_of_its_id(checks: Seq<(Seq<char>, Severity)>, id: Seq<char>)
    ensures
        match check_severity(checks, id, 0) {
            None => forall|k: int| 0 <= k < checks.len() ==> (#[trigger] checks[k]).0 != id,
            Some(level) => exists|k: int|
                0 <= k < checks.len() && (#[trigger] checks[k]) == (id, level) && forall|j: int|
                    0 <= j < k ==> (#[trigger] checks[j]).0 != id,
        },
{
    lemma_severity(checks, id, 0);
}

/// A share of the home is of a relative path without dots, one of the host of
/// an absolute path without dots.
pub proof fn a_share_is_of_a_path_without_dots(s: Seq<char>)
    ensures
        share_fault(ShareKind::Home, s) is None <==> s.len() > 0 && forall|i: int|
            0 <= i < components(utf8(s)).len() ==> #[trigger] components(utf8(s))[i] is Normal,
        share_fault(ShareKind::Path, s) is None <==> {
            let parts = components(utf8(s));
            &&& parts.len() > 0
            &&& parts[0] == ComponentView::Root
            &&& forall|i: int| 1 <= i < parts.len() ==> #[trigger] parts[i] is Normal
        },
{
}

/// What the sandbox sets itself cannot be set: the home, the search path, the
/// runtime directory, the user, and where the display, the sound and the buses
/// are.
pub proof fn what_the_sandbox_sets_is_reserved(key: Seq<char>)
    ensures
        listed(RESERVED_ENV@, key) <==> {
            ||| key == "HOME"@
            ||| key == "PATH"@
            ||| key == "XDG_RUNTIME_DIR"@
            ||| key == "USER"@
            ||| key == "LOGNAME"@
            ||| key == "WAYLAND_DISPLAY"@
            ||| key == "DISPLAY"@
            ||| key == "XAUTHORITY"@
            ||| key == "XDG_SESSION_TYPE"@
            ||| key == "PULSE_SERVER"@
            ||| key == "DBUS_SESSION_BUS_ADDRESS"@
            ||| key == "DBUS_SYSTEM_BUS_ADDRESS"@
        },
{
    let all = RESERVED_ENV@;
    assert(all[0]@ == "HOME"@ && all[1]@ == "PATH"@ && all[2]@ == "XDG_RUNTIME_DIR"@);
    assert(all[3]@ == "USER"@ && all[4]@ == "LOGNAME"@ && all[5]@ == "WAYLAND_DISPLAY"@);
    assert(all[6]@ == "DISPLAY"@ && all[7]@ == "XAUTHORITY"@ && all[8]@ == "XDG_SESSION_TYPE"@);
    assert(all[9]@ == "PULSE_SERVER"@);
    assert(all[10]@ == "DBUS_SESSION_BUS_ADDRESS"@);
    assert(all[11]@ == "DBUS_SYSTEM_BUS_ADDRESS"@);
}

/// Whether a text is a group of an address: one to four hexadecimal digits.
pub open spec fn group_text(s: Seq<char>) -> bool {
    1 <= s.len() <= 4 && forall|i: int| 0 <= i < s.len() ==> is_digit_of(#[trigger] s[i], 16)
}

/// Whether every text of a list is a group.
pub open spec fn all_groups(parts: Seq<Seq<char>>) -> bool {
    forall|i: int| 0 <= i < parts.len() ==> group_text(#[trigger] parts[i])
}

/// The values of a list of groups.
pub open spec fn group_values(parts: Seq<Seq<char>>) -> Seq<nat> {
    parts.map_values(|p: Seq<char>| digits_value(p, 16))
}

proof fn lemma_hex_end(s: Seq<char>, at: int)
    requires
        0 <= at <= s.len(),
    ensures
        at <= digits_end(s, at, 16) <= s.len(),
        forall|i: int| at <= i < digits_end(s, at, 16) ==> is_digit_of(#[trigger] s[i], 16),
    decreases s.len() - at,
{
    if at < s.len() && is_digit_of(s[at], 16) {
        lemma_hex_end(s, at + 1);
    }
}

proof fn lemma_undotted(s: Seq<char>, at: int)
    requires
        !s.contains('.'),
    ensures
        ipv4_at(s, at) is None,
{
    if let Some((octet, end)) = octet_at(s, at) {
        assert(!char_at(s, end, '.')) by {
            if char_at(s, end, '.') {
                assert(s.contains(s[end]));
            }
        }
    }
}

proof fn lemma_join_more(parts: Seq<Seq<char>>, part: Seq<char>)
    ensures
        join_with(parts.push(part), ':') == if parts.len() == 0 {
            part
        } else {
            join_with(parts, ':').push(':') + part
        },
{
    assert(parts.push(part).drop_last() =~= parts);
}

proof fn lemma_groups(
    s: Seq<char>,
    start: int,
    at: int,
    limit: nat,
    parts: Seq<Seq<char>>,
) -> (all: Seq<Seq<char>>)
    requires
        !s.contains('.'),
        0 <= start <= at <= s.len(),
        all_groups(parts),
        parts.len() <= limit,
        s.subrange(start, at) == join_with(parts, ':'),
    ensures
        ({
            let (groups, end, dotted) = groups_at(s, at, limit, group_values(parts));
            &&& !dotted
            &&& at <= end <= s.len()
            &&& all_groups(all)
            &&& group_values(all) == groups
            &&& all.len() <= limit
            &&& s.subrange(start, end) == join_with(all, ':')
        }),
    decreases limit - parts.len(),
{
    let groups = group_values(parts);
    assert(groups.len() == parts.len());
    if groups.len() >= limit || (groups.len() > 0 && !char_at(s, at, ':')) {
        parts
    } else {
        let from = if groups.len() > 0 {
            at + 1
        } else {
            at
        };
        lemma_undotted(s, from);
        lemma_hex_end(s, from);
        match number_at(s, from, 16, 4) {
            None => parts,
            Some((group, end)) => {
                let part = s.subrange(from, end);
                let more = parts.push(part);
                assert forall|i: int| 0 <= i < part.len() implies is_digit_of(
                    #[trigger] part[i],
                    16,
                ) by {
                    assert(part[i] == s[from + i]);
                }
                assert(group_values(more) =~= groups.push(group));
                lemma_join_more(parts, part);
                let before = s.subrange(start, at);
                assert(before.len() == at - start);
                if parts.len() == 0 {
                    assert(join_with(parts, ':').len() == 0);
                    assert(at == start);
                    assert(s.subrange(start, end) =~= part);
                } else {
                    assert(s[at] == ':');
                    assert(s.subrange(start, end) =~= before.push(':') + part);
                }
                assert(s.subrange(start, end) == join_with(more, ':'));
                lemma_groups(s, start, end, limit, more)
            },
        }
    }
}

/// Whether a text spells an address of eight groups: all of them with a colon
/// between each two, or with `::` for the zeros between the first and the last
/// of them.
pub open spec fn spells(
    s: Seq<char>,
    head: Seq<Seq<char>>,
    tail: Seq<Seq<char>>,
    n: u128,
) -> bool {
    &&& all_groups(head)
    &&& all_groups(tail)
    &&& {
        ||| head.len() == 8 && tail.len() == 0 && s == join_with(head, ':') && n
            == groups_value(group_values(head)) as u128
        ||| {
            let zeros = Seq::new((8 - head.len() - tail.len()) as nat, |i: int| 0nat);
            &&& head.len() + tail.len() <= 7
            &&& s == join_with(head, ':') + seq![':', ':'] + join_with(tail, ':')
            &&& n == groups_value(group_values(head) + zeros + group_values(tail)) as u128
        }
    }
}

/// An address without a dot in it is read only of a text that spells it.
pub proof fn an_address_is_read_of_a_text_that_spells_it(s: Seq<char>, n: u128)
    requires
        !s.contains('.'),
    ensures
        ip_of(s) == Some(IpAddr::V6(n)) ==> exists|head: Seq<Seq<char>>, tail: Seq<Seq<char>>|
            spells(s, head, tail, n),
{
    if ip_of(s) == Some(IpAddr::V6(n)) {
        lemma_undotted(s, 0);
        let none = Seq::<Seq<char>>::empty();
        assert(group_values(none) =~= Seq::empty());
        assert(s.subrange(0, 0) =~= join_with(none, ':'));
        let head = lemma_groups(s, 0, 0, 8, none);
        let (groups, end, dotted) = groups_at(s, 0, 8, Seq::empty());
        if groups.len() == 8 {
            assert(s.subrange(0, end) =~= s);
            assert(spells(s, head, none, n));
        } else {
            let limit = (7 - groups.len()) as nat;
            assert(s.subrange(end + 2, end + 2) =~= join_with(none, ':'));
            let tail = lemma_groups(s, end + 2, end + 2, limit, none);
            assert(s =~= s.subrange(0, end) + seq![':', ':'] + s.subrange(
                end + 2,
                s.len() as int,
            ));
            assert(spells(s, head, tail, n));
        }
    }
}

} // verus!
