//! What the written form of an address tells.
use crate::chars;
use crate::net;
use crate::net::SocketAddr;
use crate::number;
use vstd::arithmetic::div_mod::{lemma_div_denominator, lemma_fundamental_div_mod};
use vstd::prelude::*;

verus! {

/// Two addresses are the same, but for the flow label.
pub open spec fn same_but_flow_label(a: SocketAddr, b: SocketAddr) -> bool {
    match (a, b) {
        (SocketAddr::V4 { ip, port }, SocketAddr::V4 { ip: i, port: p }) => ip == i && port == p,
        (
            SocketAddr::V6 { ip, port, scope_id, .. },
            SocketAddr::V6 { ip: i, port: p, scope_id: s, .. },
        ) => ip == i && port == p && scope_id == s,
        _ => false,
    }
}

/// A character of a written version 6 address.
spec fn form_char(c: char) -> bool {
    '0' <= c <= '9' || 'a' <= c <= 'f' || c == ':' || c == '.'
}

spec fn form_text(s: Seq<char>) -> bool {
    forall|i: int| 0 <= i < s.len() ==> form_char(#[trigger] s[i])
}

proof fn lemma_form_join(a: Seq<char>, b: Seq<char>)
    requires
        form_text(a),
        form_text(b),
    ensures
        form_text(a + b),
{
    assert forall|i: int| 0 <= i < (a + b).len() implies form_char(#[trigger] (a + b)[i]) by {
        if i < a.len() {
            assert(form_char(a[i]));
        } else {
            assert(form_char(b[i - a.len()]));
        }
    }
}

proof fn lemma_form_push(a: Seq<char>, c: char)
    requires
        form_text(a),
        form_char(c),
    ensures
        form_text(a.push(c)),
{
    assert forall|i: int| 0 <= i < a.push(c).len() implies form_char(#[trigger] a.push(c)[i]) by {
        if i < a.len() {
            assert(form_char(a[i]));
        }
    }
}

proof fn lemma_form_number(n: nat, radix: nat)
    requires
        radix == 10 || radix == 16,
    ensures
        form_text(number::digits(n, radix)),
        !number::digits(n, radix).contains('.'),
        !number::digits(n, radix).contains(':'),
        number::digits(n, radix).len() > 0,
{
    number::lemma_digits_plain(n, radix);
    let s = number::digits(n, radix);
    assert(forall|i: int| 0 <= i < s.len() ==> s[i] != '.' && s[i] != ':');
    assert forall|i: int| 0 <= i < s.len() implies form_char(#[trigger] s[i]) by {
        lemma_digit_char(s[i]);
    }
}

proof fn lemma_digit_char(c: char)
    requires
        '0' as u32 <= c as u32 <= '9' as u32 || 'a' as u32 <= c as u32 <= 'f' as u32,
    ensures
        form_char(c),
{
}

proof fn lemma_lacks_join(a: Seq<char>, b: Seq<char>, c: char)
    requires
        !a.contains(c),
        !b.contains(c),
    ensures
        !(a + b).contains(c),
{
    if (a + b).contains(c) {
        let k = (a + b).index_of(c);
        if k < a.len() {
            assert(a[k] == c);
        } else {
            assert(b[k - a.len()] == c);
        }
    }
}

proof fn lemma_row_form(s: Seq<nat>)
    ensures
        form_text(net::colon_row(s)),
        !net::colon_row(s).contains('.'),
    decreases s.len(),
{
    if s.len() == 1 {
        lemma_form_number(s[0], 16);
    } else if s.len() > 1 {
        lemma_row_form(s.drop_last());
        lemma_form_number(s.last(), 16);
        let row = net::colon_row(s.drop_last());
        lemma_form_push(row, ':');
        lemma_form_join(row.push(':'), number::hexadecimal(s.last()));
        assert(!row.push(':').contains('.')) by {
            if row.push(':').contains('.') {
                let k = row.push(':').index_of('.');
                assert(row[k] == '.');
            }
        }
        lemma_lacks_join(row.push(':'), number::hexadecimal(s.last()), '.');
    }
}

proof fn lemma_ipv4_form(ip: u32)
    ensures
        form_text(net::ipv4_text(ip)),
        net::ipv4_text(ip).contains('.'),
        !net::ipv4_text(ip).contains(':'),
{
    let a = number::decimal(net::octet(ip, 0) as nat);
    let b = number::decimal(net::octet(ip, 1) as nat);
    let c = number::decimal(net::octet(ip, 2) as nat);
    let d = number::decimal(net::octet(ip, 3) as nat);
    lemma_form_number(net::octet(ip, 0) as nat, 10);
    lemma_form_number(net::octet(ip, 1) as nat, 10);
    lemma_form_number(net::octet(ip, 2) as nat, 10);
    lemma_form_number(net::octet(ip, 3) as nat, 10);
    lemma_form_push(a, '.');
    lemma_form_push(b, '.');
    lemma_form_push(c, '.');
    lemma_form_join(a.push('.'), b.push('.'));
    lemma_form_join(a.push('.') + b.push('.'), c.push('.'));
    lemma_form_join(a.push('.') + b.push('.') + c.push('.'), d);
    assert(net::ipv4_text(ip) == a.push('.') + b.push('.') + c.push('.') + d);
    assert(net::ipv4_text(ip)[a.len() as int] == '.');
    net::lemma_ipv4_text_lacks(ip, ':');
}

/// The pieces between the colons of a row.
spec fn hexes(s: Seq<nat>) -> Seq<Seq<char>> {
    s.map_values(|n: nat| number::hexadecimal(n))
}

proof fn lemma_row_pieces(s: Seq<nat>)
    ensures
        chars::pieces(net::colon_row(s), ':') == if s.len() == 0 {
            seq![Seq::<char>::empty()]
        } else {
            hexes(s)
        },
    decreases s.len(),
{
    if s.len() == 1 {
        lemma_form_number(s[0], 16);
        chars::lemma_pieces_plain(number::hexadecimal(s[0]), ':');
        assert(hexes(s) =~= seq![number::hexadecimal(s[0])]);
    } else if s.len() > 1 {
        let init = s.drop_last();
        lemma_row_pieces(init);
        lemma_form_number(s.last(), 16);
        chars::lemma_pieces_plain(number::hexadecimal(s.last()), ':');
        chars::lemma_pieces_joined(net::colon_row(init), number::hexadecimal(s.last()), ':');
        assert(hexes(s) =~= hexes(init) + seq![number::hexadecimal(s.last())]);
    }
}

/// How many pieces in front are not empty.
spec fn filled(p: Seq<Seq<char>>) -> int
    decreases p.len(),
{
    if p.len() > 0 && p[0].len() > 0 {
        1 + filled(p.skip(1))
    } else {
        0
    }
}

proof fn lemma_filled(s: Seq<nat>, rest: Seq<Seq<char>>)
    requires
        rest.len() == 0 || rest[0].len() == 0,
    ensures
        filled(hexes(s) + rest) == s.len(),
    decreases s.len(),
{
    let p = hexes(s) + rest;
    if s.len() == 0 {
        assert(p =~= rest);
    } else {
        lemma_form_number(s[0], 16);
        lemma_filled(s.skip(1), rest);
        assert(p.skip(1) =~= hexes(s.skip(1)) + rest);
        assert(p[0] == number::hexadecimal(s[0]));
    }
}

/// The numbers of pieces.
spec fn numbers(p: Seq<Seq<char>>) -> Seq<nat> {
    p.map_values(|t: Seq<char>| number::number_in(t, 16)->0)
}

proof fn lemma_numbers(s: Seq<nat>)
    ensures
        numbers(hexes(s)) == s,
{
    assert forall|i: int| 0 <= i < s.len() implies #[trigger] numbers(hexes(s))[i] == s[i] by {
        number::law_number_round_trip(s[i], 16);
    }
    assert(numbers(hexes(s)) =~= s);
}

/// The parts of an address that pieces stand for; what is left out is zeros.
spec fn parts_of(p: Seq<Seq<char>>) -> Seq<nat> {
    let n = filled(p);
    if n == p.len() {
        numbers(p)
    } else {
        let front = if n == 0 {
            1
        } else {
            n
        };
        let behind = p.skip(front + 1);
        let head = numbers(p.take(n));
        let tail = if behind.len() == 1 && behind[0].len() == 0 {
            Seq::empty()
        } else {
            numbers(behind)
        };
        head + Seq::new((8 - head.len() - tail.len()) as nat, |i: int| 0nat) + tail
    }
}

proof fn lemma_zeros_from(s: Seq<nat>, i: int)
    requires
        0 <= i <= s.len(),
    ensures
        0 <= net::zeros_from(s, i) <= s.len() - i,
        forall|k: int| i <= k < i + net::zeros_from(s, i) ==> s[k] == 0,
    decreases s.len() - i,
{
    if i < s.len() {
        lemma_zeros_from(s, i + 1);
    }
}

proof fn lemma_longest(s: Seq<nat>, i: int)
    requires
        0 <= i <= s.len(),
    ensures
        i <= net::longest_zeros(s, i) <= s.len(),
    decreases s.len() - i,
{
    if i < s.len() {
        lemma_longest(s, i + 1);
    }
}

/// A version 6 address that is no mapped one is read back, part by part, from its form.
proof fn lemma_parts_read(ip: u128)
    requires
        ip / 0x1_0000_0000 != 0xffff,
    ensures
        parts_of(chars::pieces(net::ipv6_text(ip), ':')) == net::segments(ip),
        form_text(net::ipv6_text(ip)),
        !net::ipv6_text(ip).contains('.'),
{
    let s = net::segments(ip);
    let z = net::longest_zeros(s, 0);
    lemma_longest(s, 0);
    lemma_zeros_from(s, z);
    let len = net::zeros_from(s, z);
    if len >= 2 {
        let head = s.take(z);
        let tail = s.skip(z + len);
        let h = net::colon_row(head);
        let t = net::colon_row(tail);
        lemma_row_form(head);
        lemma_row_form(tail);
        lemma_row_pieces(head);
        lemma_row_pieces(tail);
        let none = Seq::<char>::empty();
        let rest = none.push(':') + t;
        assert(net::ipv6_text(ip) =~= h.push(':') + rest);
        lemma_form_push(h, ':');
        lemma_form_push(none, ':');
        lemma_form_join(none.push(':'), t);
        lemma_form_join(h.push(':'), rest);
        assert(!h.push(':').contains('.')) by {
            if h.push(':').contains('.') {
                let k = h.push(':').index_of('.');
                assert(h[k] == '.');
            }
        }
        assert(!none.push(':').contains('.'));
        lemma_lacks_join(none.push(':'), t, '.');
        lemma_lacks_join(h.push(':'), rest, '.');
        chars::lemma_pieces_plain(none, ':');
        chars::lemma_pieces_joined(none, t, ':');
        chars::lemma_pieces_joined(h, rest, ':');
        let b = chars::pieces(t, ':');
        let p = chars::pieces(net::ipv6_text(ip), ':');
        let empty = seq![none];
        assert(p =~= chars::pieces(h, ':') + empty + b);
        chars::lemma_pieces_some(t, ':');
        lemma_numbers(head);
        lemma_numbers(tail);
        if z == 0 {
            assert(p[0].len() == 0);
            assert(filled(p) == 0);
            assert(p.skip(2) =~= b);
            assert(p.take(0) =~= hexes(head));
        } else {
            assert(p =~= hexes(head) + (empty + b));
            lemma_filled(head, empty + b);
            assert(p.skip(z + 1) =~= b);
            assert(p.take(z) =~= hexes(head));
        }
        if tail.len() > 0 {
            lemma_form_number(tail[0], 16);
            assert(b[0] == number::hexadecimal(tail[0]));
        }
        let tail_read = if b.len() == 1 && b[0].len() == 0 {
            Seq::empty()
        } else {
            numbers(b)
        };
        assert(tail_read =~= tail);
        assert(parts_of(p) =~= head + Seq::new(
            (8 - head.len() - tail.len()) as nat,
            |i: int| 0nat,
        ) + tail);
        assert(parts_of(p) =~= s);
    } else {
        lemma_row_form(s);
        lemma_row_pieces(s);
        lemma_filled(s, Seq::empty());
        assert(hexes(s) + Seq::<Seq<char>>::empty() =~= hexes(s));
        lemma_numbers(s);
    }
}

/// The parts of an address make it up.
proof fn lemma_same_parts(a: u128, b: u128)
    requires
        net::segments(a) == net::segments(b),
    ensures
        a == b,
{
    let s = net::segments(a);
    let t = net::segments(b);
    assert(a as int / 0x1_0000_0000_0000_0000_0000_0000_0000 < 0x1_0000);
    assert(b as int / 0x1_0000_0000_0000_0000_0000_0000_0000 < 0x1_0000);
    lemma_part(a, 0, 0x1_0000_0000_0000_0000_0000_0000_0000);
    lemma_part(b, 0, 0x1_0000_0000_0000_0000_0000_0000_0000);
    assert(s[0] == t[0]);
    assert(a as int / 0x1_0000_0000_0000_0000_0000_0000_0000 == b as int / 0x1_0000_0000_0000_0000_0000_0000_0000);
    lemma_next_part(a, 0x1_0000_0000_0000_0000_0000_0000_0000, 0x1_0000_0000_0000_0000_0000_0000);
    lemma_next_part(b, 0x1_0000_0000_0000_0000_0000_0000_0000, 0x1_0000_0000_0000_0000_0000_0000);
    lemma_part(a, 1, 0x1_0000_0000_0000_0000_0000_0000);
    lemma_part(b, 1, 0x1_0000_0000_0000_0000_0000_0000);
    assert(s[1] == t[1]);
    assert(a as int / 0x1_0000_0000_0000_0000_0000_0000 == b as int / 0x1_0000_0000_0000_0000_0000_0000);
    lemma_next_part(a, 0x1_0000_0000_0000_0000_0000_0000, 0x1_0000_0000_0000_0000_0000);
    lemma_next_part(b, 0x1_0000_0000_0000_0000_0000_0000, 0x1_0000_0000_0000_0000_0000);
    lemma_part(a, 2, 0x1_0000_0000_0000_0000_0000);
    lemma_part(b, 2, 0x1_0000_0000_0000_0000_0000);
    assert(s[2] == t[2]);
    assert(a as int / 0x1_0000_0000_0000_0000_0000 == b as int / 0x1_0000_0000_0000_0000_0000);
    lemma_next_part(a, 0x1_0000_0000_0000_0000_0000, 0x1_0000_0000_0000_0000);
    lemma_next_part(b, 0x1_0000_0000_0000_0000_0000, 0x1_0000_0000_0000_0000);
    lemma_part(a, 3, 0x1_0000_0000_0000_0000);
    lemma_part(b, 3, 0x1_0000_0000_0000_0000);
    assert(s[3] == t[3]);
    assert(a as int / 0x1_0000_0000_0000_0000 == b as int / 0x1_0000_0000_0000_0000);
    lemma_next_part(a, 0x1_0000_0000_0000_0000, 0x1_0000_0000_0000);
    lemma_next_part(b, 0x1_0000_0000_0000_0000, 0x1_0000_0000_0000);
    lemma_part(a, 4, 0x1_0000_0000_0000);
    lemma_part(b, 4, 0x1_0000_0000_0000);
    assert(s[4] == t[4]);
    assert(a as int / 0x1_0000_0000_0000 == b as int / 0x1_0000_0000_0000);
    lemma_next_part(a, 0x1_0000_0000_0000, 0x1_0000_0000);
    lemma_next_part(b, 0x1_0000_0000_0000, 0x1_0000_0000);
    lemma_part(a, 5, 0x1_0000_0000);
    lemma_part(b, 5, 0x1_0000_0000);
    assert(s[5] == t[5]);
    assert(a as int / 0x1_0000_0000 == b as int / 0x1_0000_0000);
    lemma_next_part(a, 0x1_0000_0000, 0x1_0000);
    lemma_next_part(b, 0x1_0000_0000, 0x1_0000);
    lemma_part(a, 6, 0x1_0000);
    lemma_part(b, 6, 0x1_0000);
    assert(s[6] == t[6]);
    assert(a as int / 0x1_0000 == b as int / 0x1_0000);
    lemma_next_part(a, 0x1_0000, 1);
    lemma_next_part(b, 0x1_0000, 1);
    lemma_part(a, 7, 1);
    lemma_part(b, 7, 1);
    assert(s[7] == t[7]);
    assert(a as int / 1 == b as int / 1);
}

proof fn lemma_part(ip: u128, i: int, unit: u128)
    requires
        0 <= i < 8,
        unit == net::segment_unit(i),
    ensures
        net::segments(ip)[i] as int == (ip as int / unit as int) % 0x1_0000,
{
}

proof fn lemma_next_part(ip: u128, unit: int, next: int)
    requires
        next > 0,
        unit == next * 0x1_0000,
    ensures
        ip as int / next == (ip as int / unit) * 0x1_0000 + (ip as int / next) % 0x1_0000,
{
    let t = ip as int / next;
    lemma_div_denominator(ip as int, next, 0x1_0000);
    lemma_fundamental_div_mod(t, 0x1_0000);
}

/// The form of a version 6 address tells it from all others.
proof fn lemma_ipv6_text_tells(a: u128, b: u128)
    requires
        net::ipv6_text(a) == net::ipv6_text(b),
    ensures
        a == b,
{
    let front = seq![':', ':', 'f', 'f', 'f', 'f', ':'];
    if a / 0x1_0000_0000 == 0xffff {
        lemma_mapped(a);
    } else {
        lemma_parts_read(a);
    }
    if b / 0x1_0000_0000 == 0xffff {
        lemma_mapped(b);
    } else {
        lemma_parts_read(b);
    }
    if a / 0x1_0000_0000 == 0xffff && b / 0x1_0000_0000 == 0xffff {
        let x = net::ipv4_text((a % 0x1_0000_0000) as u32);
        let y = net::ipv4_text((b % 0x1_0000_0000) as u32);
        assert((front + x).skip(7) =~= x);
        assert((front + y).skip(7) =~= y);
        net::law_ipv4_round_trip((a % 0x1_0000_0000) as u32);
        net::law_ipv4_round_trip((b % 0x1_0000_0000) as u32);
    } else if a / 0x1_0000_0000 != 0xffff && b / 0x1_0000_0000 != 0xffff {
        lemma_same_parts(a, b);
    }
}

proof fn lemma_mapped(ip: u128)
    requires
        ip / 0x1_0000_0000 == 0xffff,
    ensures
        form_text(net::ipv6_text(ip)),
        net::ipv6_text(ip).contains('.'),
{
    let front = seq![':', ':', 'f', 'f', 'f', 'f', ':'];
    let x = net::ipv4_text((ip % 0x1_0000_0000) as u32);
    lemma_ipv4_form((ip % 0x1_0000_0000) as u32);
    assert(form_text(front));
    lemma_form_join(front, x);
    let k = x.index_of('.');
    assert((front + x)[7 + k] == '.');
}

proof fn lemma_ipv6_form(ip: u128)
    ensures
        form_text(net::ipv6_text(ip)),
{
    if ip / 0x1_0000_0000 == 0xffff {
        lemma_mapped(ip);
    } else {
        lemma_parts_read(ip);
    }
}

proof fn lemma_form_lacks(s: Seq<char>, c: char)
    requires
        form_text(s),
        !form_char(c),
    ensures
        !s.contains(c),
{
    if s.contains(c) {
        assert(form_char(s[s.index_of(c)]));
    }
}

/// What stands between the brackets of a version 6 address.
spec fn inner_text(ip: u128, scope_id: u32) -> Seq<char> {
    if scope_id == 0 {
        net::ipv6_text(ip)
    } else {
        net::ipv6_text(ip).push('%') + number::decimal(scope_id as nat)
    }
}

proof fn lemma_inner(ip: u128, scope_id: u32)
    ensures
        !inner_text(ip, scope_id).contains(']'),
        chars::pieces(inner_text(ip, scope_id), '%') == if scope_id == 0 {
            seq![net::ipv6_text(ip)]
        } else {
            seq![net::ipv6_text(ip), number::decimal(scope_id as nat)]
        },
{
    let t = net::ipv6_text(ip);
    let d = number::decimal(scope_id as nat);
    lemma_ipv6_form(ip);
    lemma_form_number(scope_id as nat, 10);
    lemma_form_lacks(t, ']');
    lemma_form_lacks(t, '%');
    lemma_form_lacks(d, ']');
    lemma_form_lacks(d, '%');
    chars::lemma_pieces_plain(t, '%');
    chars::lemma_pieces_plain(d, '%');
    chars::lemma_pieces_joined(t, d, '%');
    assert(!t.push('%').contains(']')) by {
        if t.push('%').contains(']') {
            let k = t.push('%').index_of(']');
            assert(t[k] == ']');
        }
    }
    lemma_lacks_join(t.push('%'), d, ']');
    assert(seq![t] + seq![d] =~= seq![t, d]);
}

proof fn lemma_v6_pieces(ip: u128, port: u16, flowinfo: u32, scope_id: u32)
    ensures
        chars::pieces(
            net::addr_text(SocketAddr::V6 { ip, port, flowinfo, scope_id }),
            ']',
        ) == seq![
            seq!['['] + inner_text(ip, scope_id),
            seq![':'] + number::decimal(port as nat),
        ],
{
    let a = seq!['['] + inner_text(ip, scope_id);
    let b = seq![':'] + number::decimal(port as nat);
    lemma_inner(ip, scope_id);
    lemma_form_number(port as nat, 10);
    lemma_form_lacks(number::decimal(port as nat), ']');
    assert(!seq!['['].contains(']'));
    assert(!seq![':'].contains(']'));
    lemma_lacks_join(seq!['['], inner_text(ip, scope_id), ']');
    lemma_lacks_join(seq![':'], number::decimal(port as nat), ']');
    chars::lemma_pieces_plain(a, ']');
    chars::lemma_pieces_plain(b, ']');
    chars::lemma_pieces_joined(a, b, ']');
    assert(net::addr_text(SocketAddr::V6 { ip, port, flowinfo, scope_id }) =~= a.push(']') + b);
    assert(seq![a] + seq![b] =~= seq![a, b]);
}

proof fn lemma_same_decimal(m: nat, n: nat)
    requires
        number::decimal(m) == number::decimal(n),
    ensures
        m == n,
{
    number::law_number_round_trip(m, 10);
    number::law_number_round_trip(n, 10);
}

proof fn lemma_v6_tells(
    ip: u128,
    port: u16,
    flowinfo: u32,
    scope_id: u32,
    ip2: u128,
    port2: u16,
    flowinfo2: u32,
    scope_id2: u32,
)
    requires
        net::addr_text(SocketAddr::V6 { ip, port, flowinfo, scope_id }) == net::addr_text(
            SocketAddr::V6 { ip: ip2, port: port2, flowinfo: flowinfo2, scope_id: scope_id2 },
        ),
    ensures
        ip == ip2,
        port == port2,
        scope_id == scope_id2,
{
    lemma_v6_pieces(ip, port, flowinfo, scope_id);
    lemma_v6_pieces(ip2, port2, flowinfo2, scope_id2);
    let x = inner_text(ip, scope_id);
    let y = inner_text(ip2, scope_id2);
    let p = number::decimal(port as nat);
    let q = number::decimal(port2 as nat);
    let left = seq![seq!['['] + x, seq![':'] + p];
    let right = seq![seq!['['] + y, seq![':'] + q];
    assert(left == right);
    assert(left[0] == right[0] && left[1] == right[1]);
    assert((seq!['['] + x).skip(1) =~= x && (seq!['['] + y).skip(1) =~= y);
    assert((seq![':'] + p).skip(1) =~= p && (seq![':'] + q).skip(1) =~= q);
    lemma_same_decimal(port as nat, port2 as nat);
    lemma_inner(ip, scope_id);
    lemma_inner(ip2, scope_id2);
    let u = chars::pieces(x, '%');
    let w = chars::pieces(y, '%');
    assert(u == w);
    assert(u[0] == w[0]);
    lemma_ipv6_text_tells(ip, ip2);
    if scope_id != 0 && scope_id2 != 0 {
        assert(u[1] == w[1]);
        lemma_same_decimal(scope_id as nat, scope_id2 as nat);
    } else {
        assert(u.len() == w.len());
    }
}

/// No dash stands in the written form of an address.
pub proof fn lemma_no_dash(a: SocketAddr)
    ensures
        !net::addr_text(a).contains('-'),
{
    match a {
        SocketAddr::V4 { ip, port } => net::law_addr_text_distinct(ip, port, ip, port),
        SocketAddr::V6 { ip, port, scope_id, .. } => {
            let t = net::ipv6_text(ip);
            let d = number::decimal(scope_id as nat);
            let p = number::decimal(port as nat);
            lemma_ipv6_form(ip);
            lemma_form_number(scope_id as nat, 10);
            lemma_form_number(port as nat, 10);
            lemma_form_lacks(t, '-');
            lemma_form_lacks(d, '-');
            lemma_form_lacks(p, '-');
            let zone = if scope_id == 0 {
                Seq::empty()
            } else {
                seq!['%'] + d
            };
            assert(!seq!['%'].contains('-') && !seq!['['].contains('-') && !seq![
                ']',
                ':',
            ].contains('-'));
            lemma_lacks_join(seq!['%'], d, '-');
            lemma_lacks_join(seq!['['], t, '-');
            lemma_lacks_join(seq!['['] + t, zone, '-');
            lemma_lacks_join(seq!['['] + t + zone, seq![']', ':'], '-');
            lemma_lacks_join(seq!['['] + t + zone + seq![']', ':'], p, '-');
        },
    }
}

/// The written forms of two addresses are the same exactly where the addresses are the
/// same but for the flow label.
pub proof fn law_addr_text_tells(a: SocketAddr, b: SocketAddr)
    ensures
        net::addr_text(a) == net::addr_text(b) <==> same_but_flow_label(a, b),
{
    if net::addr_text(a) == net::addr_text(b) {
        match (a, b) {
            (SocketAddr::V4 { ip, port }, SocketAddr::V4 { ip: i, port: p }) => {
                net::law_addr_text_distinct(ip, port, i, p);
            },
            (
                SocketAddr::V6 { ip, port, flowinfo, scope_id },
                SocketAddr::V6 { ip: i, port: p, flowinfo: f, scope_id: s },
            ) => {
                lemma_v6_tells(ip, port, flowinfo, scope_id, i, p, f, s);
            },
            (SocketAddr::V4 { ip, .. }, SocketAddr::V6 { .. }) => {
                lemma_v4_first(a);
                assert(net::addr_text(b)[0] == '[');
            },
            (SocketAddr::V6 { .. }, SocketAddr::V4 { ip, .. }) => {
                lemma_v4_first(b);
                assert(net::addr_text(a)[0] == '[');
            },
        }
    }
}

proof fn lemma_v4_first(a: SocketAddr)
    requires
        a is V4,
    ensures
        net::addr_text(a).len() > 0,
        net::addr_text(a)[0] != '[',
{
    match a {
        SocketAddr::V4 { ip, port } => {
            let d = number::decimal(net::octet(ip, 0) as nat);
            lemma_form_number(net::octet(ip, 0) as nat, 10);
            assert(form_char(d[0]));
            assert(net::addr_text(a)[0] == d[0]);
        },
        _ => {},
    }
}

} // verus!
