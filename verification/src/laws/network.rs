//! The local network: own addresses, heeded peers, broadcasts.
use crate::chars;
use crate::chat_shell::conversation;
use crate::laws::numerals;
use crate::laws::texts;
use crate::net;
use crate::net::{Interface, LocalNet, NetSettings, SocketAddr};
use crate::number;
use vstd::prelude::*;

verus! {

/// An address of a private network: from 10.0.0.0, 172.16.0.0 or 192.168.0.0 on.
pub open spec fn in_private_range(ip: u32) -> bool {
    ||| 0x0a00_0000 <= ip <= 0x0aff_ffff
    ||| 0xac10_0000 <= ip <= 0xac1f_ffff
    ||| 0xc0a8_0000 <= ip <= 0xc0a8_ffff
}

/// The two addresses differ in nothing but the last of the four numbers.
pub open spec fn neighbours(a: u32, b: u32) -> bool {
    a / 256 == b / 256
}

/// The word, in letters of either case.
pub open spec fn spells(s: Seq<char>, word: Seq<char>) -> bool {
    &&& s.len() == word.len()
    &&& forall|i: int|
        0 <= i < s.len() ==> (#[trigger] s[i] == word[i] || (97 <= word[i] as u32 <= 122
            && s[i] as u32 + 32 == word[i] as u32))
}

/// The word stands in the text, in letters of either case.
pub open spec fn mentions(s: Seq<char>, word: Seq<char>) -> bool {
    exists|at: int|
        0 <= at && at + word.len() <= s.len() && #[trigger] spells(
            s.subrange(at, at + word.len()),
            word,
        )
}

/// The interface belongs to a virtual machine, by its name.
pub open spec fn of_virtual_machine(name: Seq<char>) -> bool {
    ||| mentions(name, seq!['v', 'm', 'w', 'a', 'r', 'e'])
    ||| mentions(name, seq!['v', 'b', 'o', 'x'])
    ||| mentions(name, seq!['v', 'i', 'r', 't', 'u', 'a', 'l'])
    ||| mentions(name, seq!['h', 'y', 'p', 'e', 'r', '-', 'v'])
    ||| mentions(name, seq!['h', 'y', 'p', 'e', 'r', 'v'])
}

/// The interface leads to a private network and is no virtual one.
pub open spec fn leads_to_lan(iface: Interface) -> bool {
    iface.v4 is Some && in_private_range(iface.v4->0) && !of_virtual_machine(iface.name@)
}

proof fn lemma_private(ip: u32)
    ensures
        net::private(ip) <==> in_private_range(ip),
        net::home(ip) <==> 0xc0a8_0000 <= ip <= 0xc0a8_ffff,
{
}

proof fn lemma_same_code(a: char, b: char)
    requires
        a as u32 == b as u32,
    ensures
        a == b,
{
}

proof fn lemma_spells(s: Seq<char>, word: Seq<char>)
    requires
        forall|i: int| 0 <= i < word.len() ==> !(65 <= #[trigger] word[i] as u32 <= 90),
    ensures
        spells(s, word) <==> chars::lowered(s) == word,
{
    let low = chars::lowered(s);
    if spells(s, word) {
        assert forall|i: int| 0 <= i < s.len() implies low[i] == word[i] by {
            assert(s[i] == word[i] || (97 <= word[i] as u32 <= 122 && s[i] as u32 + 32
                == word[i] as u32));
            assert(!(65 <= word[i] as u32 <= 90));
            assert(low[i] == chars::ascii_lower(s[i]));
            if s[i] != word[i] {
                let c = s[i];
                assert(65 <= c as u32 <= 90);
                assert(chars::ascii_lower(c) as u32 == c as u32 + 32);
                lemma_same_code(low[i], word[i]);
            }
        }
        assert(low =~= word);
    }
    if low == word {
        assert forall|i: int| 0 <= i < s.len() implies (#[trigger] s[i] == word[i] || (97
            <= word[i] as u32 <= 122 && s[i] as u32 + 32 == word[i] as u32)) by {
            assert(low[i] == chars::ascii_lower(s[i]));
        }
    }
}

proof fn lemma_mentions(s: Seq<char>, word: Seq<char>)
    requires
        forall|i: int| 0 <= i < word.len() ==> !(65 <= #[trigger] word[i] as u32 <= 90),
    ensures
        mentions(s, word) <==> chars::occurs_in(chars::lowered(s), word),
{
    let low = chars::lowered(s);
    if mentions(s, word) {
        let at = choose|at: int|
            0 <= at && at + word.len() <= s.len() && #[trigger] spells(
                s.subrange(at, at + word.len()),
                word,
            );
        let part = s.subrange(at, at + word.len());
        lemma_spells(part, word);
        assert(low.subrange(at, at + word.len()) =~= chars::lowered(part));
        assert(chars::occurs_at(low, word, at));
    }
    if chars::occurs_in(low, word) {
        let at = choose|at: int| chars::occurs_at(low, word, at);
        let part = s.subrange(at, at + word.len());
        assert(low.subrange(at, at + word.len()) =~= chars::lowered(part));
        lemma_spells(part, word);
        assert(spells(part, word));
    }
}

/// A virtual interface is known by the words that its name holds, in either case.
pub proof fn law_virtual_names(name: &str, r: bool)
    requires
        call_ensures(net::is_virtual_name, (name,), r),
    ensures
        r <==> of_virtual_machine(name@),
{
    lemma_virtual(name@);
}

proof fn lemma_virtual(name: Seq<char>)
    ensures
        net::virtual_name(name) <==> of_virtual_machine(name),
{
    reveal_strlit("vmware");
    reveal_strlit("vbox");
    reveal_strlit("virtual");
    reveal_strlit("hyper-v");
    reveal_strlit("hyperv");
    assert("vmware"@ =~= seq!['v', 'm', 'w', 'a', 'r', 'e']);
    assert("vbox"@ =~= seq!['v', 'b', 'o', 'x']);
    assert("virtual"@ =~= seq!['v', 'i', 'r', 't', 'u', 'a', 'l']);
    assert("hyper-v"@ =~= seq!['h', 'y', 'p', 'e', 'r', '-', 'v']);
    assert("hyperv"@ =~= seq!['h', 'y', 'p', 'e', 'r', 'v']);
    lemma_mentions(name, "vmware"@);
    lemma_mentions(name, "vbox"@);
    lemma_mentions(name, "virtual"@);
    lemma_mentions(name, "hyper-v"@);
    lemma_mentions(name, "hyperv"@);
}

proof fn lemma_first_usable(ifs: Seq<Interface>, at_home: bool)
    ensures
        match net::first_usable(ifs, at_home) {
            Some(ip) => exists|i: int|
                {
                    &&& 0 <= i < ifs.len()
                    &&& #[trigger] leads_to_lan(ifs[i])
                    &&& ifs[i].v4 == Some(ip)
                    &&& net::home(ip) == at_home
                    &&& forall|k: int|
                        0 <= k < i ==> !(#[trigger] leads_to_lan(ifs[k]) && net::home(ifs[k].v4->0)
                            == at_home)
                },
            None => forall|k: int|
                0 <= k < ifs.len() ==> !(#[trigger] leads_to_lan(ifs[k]) && net::home(ifs[k].v4->0)
                    == at_home),
        },
    decreases ifs.len(),
{
    if ifs.len() > 0 {
        let rest = ifs.skip(1);
        lemma_first_usable(rest, at_home);
        lemma_virtual(ifs[0].name@);
        if ifs[0].v4 is Some {
            lemma_private(ifs[0].v4->0);
        }
        let first = leads_to_lan(ifs[0]) && net::home(ifs[0].v4->0) == at_home;
        assert(net::usable(ifs[0]) <==> leads_to_lan(ifs[0]));
        if !first {
            match net::first_usable(ifs, at_home) {
                Some(ip) => {
                    let i = choose|i: int|
                        {
                            &&& 0 <= i < rest.len()
                            &&& #[trigger] leads_to_lan(rest[i])
                            &&& rest[i].v4 == Some(ip)
                            &&& net::home(ip) == at_home
                            &&& forall|k: int|
                                0 <= k < i ==> !(#[trigger] leads_to_lan(rest[k]) && net::home(
                                    rest[k].v4->0,
                                ) == at_home)
                        };
                    assert(leads_to_lan(ifs[i + 1]));
                    assert forall|k: int| 0 <= k < i + 1 implies !(#[trigger] leads_to_lan(ifs[k])
                        && net::home(ifs[k].v4->0) == at_home) by {
                        if k > 0 {
                            assert(rest[k - 1] == ifs[k]);
                            assert(!(leads_to_lan(rest[k - 1]) && net::home(rest[k - 1].v4->0)
                                == at_home));
                        }
                    }
                },
                None => {
                    assert forall|k: int| 0 <= k < ifs.len() implies !(#[trigger] leads_to_lan(
                        ifs[k],
                    ) && net::home(ifs[k].v4->0) == at_home) by {
                        if k > 0 {
                            assert(rest[k - 1] == ifs[k]);
                            assert(!(leads_to_lan(rest[k - 1]) && net::home(rest[k - 1].v4->0)
                                == at_home));
                        }
                    }
                },
            }
        } else {
            assert(leads_to_lan(ifs[0]));
        }
    }
}

/// The own address is that of the first interface of the form 192.168.*; where there is
/// none, of the first other one that leads to a private network. Virtual interfaces and
/// public addresses are never taken, and there is none only where no interface will do.
pub proof fn law_own_address(ifs: &Vec<Interface>, r: Option<u32>, port: u16, a: Option<SocketAddr>)
    requires
        call_ensures(net::choose_local_ip, (ifs,), r),
        call_ensures(net::choose_self_addr, (ifs, port), a),
    ensures
        r is None ==> a is None && forall|k: int|
            0 <= k < ifs@.len() ==> !leads_to_lan(#[trigger] ifs@[k]),
        r matches Some(ip) ==> {
            let home = 0xc0a8_0000 <= ip <= 0xc0a8_ffff;
            &&& a == Some(SocketAddr::V4 { ip, port })
            &&& exists|i: int|
                {
                    &&& 0 <= i < ifs@.len()
                    &&& #[trigger] leads_to_lan(ifs@[i])
                    &&& ifs@[i].v4 == Some(ip)
                    &&& home ==> forall|k: int|
                        0 <= k < i && #[trigger] leads_to_lan(ifs@[k]) ==> !(0xc0a8_0000
                            <= ifs@[k].v4->0 <= 0xc0a8_ffff)
                    &&& !home ==> forall|k: int| 0 <= k < i ==> !#[trigger] leads_to_lan(ifs@[k])
                }
            &&& !home ==> forall|k: int|
                0 <= k < ifs@.len() && #[trigger] leads_to_lan(ifs@[k]) ==> !(0xc0a8_0000
                    <= ifs@[k].v4->0 <= 0xc0a8_ffff)
        },
{
    lemma_first_usable(ifs@, true);
    lemma_first_usable(ifs@, false);
    assert forall|k: int| 0 <= k < ifs@.len() && #[trigger] leads_to_lan(ifs@[k]) implies (
    net::home(ifs@[k].v4->0) <==> 0xc0a8_0000 <= ifs@[k].v4->0 <= 0xc0a8_ffff) by {
        lemma_private(ifs@[k].v4->0);
    }
    if r is Some {
        lemma_private(r->0);
        let at_home = net::first_usable(ifs@, true) is Some;
        let ip = r->0;
        let i = choose|i: int|
            {
                &&& 0 <= i < ifs@.len()
                &&& #[trigger] leads_to_lan(ifs@[i])
                &&& ifs@[i].v4 == Some(ip)
                &&& net::home(ip) == at_home
                &&& forall|k: int|
                    0 <= k < i ==> !(#[trigger] leads_to_lan(ifs@[k]) && net::home(ifs@[k].v4->0)
                        == at_home)
            };
        assert(leads_to_lan(ifs@[i]));
    }
}

/// Where no own address was found, the client takes that by which a machine reaches itself.
pub proof fn law_own_address_or_localhost(found: Option<SocketAddr>, port: u16, r: SocketAddr)
    requires
        call_ensures(net::self_addr_or_localhost, (found, port), r),
    ensures
        found is Some ==> r == found->0,
        found is None ==> r == (SocketAddr::V4 { ip: 0x7f00_0001, port }),
{
}

proof fn lemma_octets(ip: u32)
    ensures
        net::octet(ip, 0) <= 255,
        net::octet(ip, 1) <= 255,
        net::octet(ip, 2) <= 255,
        net::octet(ip, 3) <= 255,
        net::octet(ip, 0) * 0x1_0000 + net::octet(ip, 1) * 0x100 + net::octet(ip, 2) == ip / 256,
{
}

proof fn lemma_octet_text(n: u32)
    ensures
        !number::decimal(n as nat).contains('.'),
        number::number_in(number::decimal(n as nat), 10) == Some(n as nat),
{
    let s = number::decimal(n as nat);
    number::lemma_digits_plain(n as nat, 10);
    number::law_number_round_trip(n as nat, 10);
    if s.contains('.') {
        let k = s.index_of('.');
        assert(s[k] == '.');
    }
}

/// The numbers of an address, as they are written.
pub open spec fn written_octets(ip: u32) -> Seq<Seq<char>> {
    seq![
        number::decimal((ip / 0x100_0000) as nat),
        number::decimal(((ip / 0x1_0000) % 256) as nat),
        number::decimal(((ip / 256) % 256) as nat),
        number::decimal((ip % 256) as nat),
    ]
}

proof fn lemma_written(ip: u32)
    ensures
        net::ipv4_text(ip) == texts::joined(written_octets(ip), '.'),
        texts::none_holds(written_octets(ip), '.'),
{
    let w = written_octets(ip);
    assert(w.skip(1) =~= seq![w[1], w[2], w[3]]);
    assert(w.skip(1).skip(1) =~= seq![w[2], w[3]]);
    assert(w.skip(1).skip(1).skip(1) =~= seq![w[3]]);
    reveal_with_fuel(texts::joined, 5);
    assert(net::ipv4_text(ip) =~= texts::joined(w, '.'));
    lemma_octet_text(ip / 0x100_0000);
    lemma_octet_text((ip / 0x1_0000) % 256);
    lemma_octet_text((ip / 256) % 256);
    lemma_octet_text(ip % 256);
}

/// An address is written as four decimal numbers with dots between them, and its port
/// behind a colon.
pub proof fn law_address_written(ip: u32, port: u16, r: String)
    requires
        call_ensures(net::addr_to_string, (&(SocketAddr::V4 { ip, port }),), r),
    ensures
        r@ == texts::joined(written_octets(ip), '.') + seq![':'] + number::decimal(port as nat),
{
    lemma_written(ip);
    assert(r@ =~= texts::joined(written_octets(ip), '.') + seq![':'] + number::decimal(
        port as nat,
    ));
}

proof fn lemma_prefix(a: u32, b: u32)
    ensures
        net::subnet_text(a).is_prefix_of(net::ipv4_text(b)) <==> neighbours(a, b),
{
    lemma_octets(a);
    lemma_octets(b);
    if neighbours(a, b) {
        assert(net::octet(a, 0) == net::octet(b, 0));
        assert(net::octet(a, 1) == net::octet(b, 1));
        assert(net::octet(a, 2) == net::octet(b, 2));
        assert(net::subnet_text(a) == net::subnet_text(b));
        assert(net::ipv4_text(b).take(net::subnet_text(a).len() as int) =~= net::subnet_text(a));
    }
    if net::subnet_text(a).is_prefix_of(net::ipv4_text(b)) {
        let text = net::ipv4_text(b);
        let front = net::subnet_text(a);
        let rest = text.skip(front.len() as int);
        assert(text =~= front + rest);
        lemma_written(b);
        let w = written_octets(b);
        texts::law_parting(w, '.');
        let x = number::decimal(net::octet(a, 0) as nat);
        let y = number::decimal(net::octet(a, 1) as nat);
        let z = number::decimal(net::octet(a, 2) as nat);
        lemma_octet_text(net::octet(a, 0));
        lemma_octet_text(net::octet(a, 1));
        lemma_octet_text(net::octet(a, 2));
        let s2 = z.push('.') + rest;
        let s1 = y.push('.') + s2;
        assert(front + rest =~= x.push('.') + s1);
        chars::lemma_pieces_joined(x, s1, '.');
        chars::lemma_pieces_joined(y, s2, '.');
        chars::lemma_pieces_joined(z, rest, '.');
        chars::lemma_pieces_plain(x, '.');
        chars::lemma_pieces_plain(y, '.');
        chars::lemma_pieces_plain(z, '.');
        let p = chars::pieces(text, '.');
        assert(p[0] == x && p[1] == y && p[2] == z);
        assert(w[0] == x && w[1] == y && w[2] == z);
        lemma_octet_text(b / 0x100_0000);
        lemma_octet_text((b / 0x1_0000) % 256);
        lemma_octet_text((b / 256) % 256);
    }
}

/// The local network is that of the own address: its packets come from addresses that
/// differ in nothing but the last number, and its broadcasts go to the one of them that
/// ends in 255.
pub proof fn law_own_network(
    ifs: &Vec<Interface>,
    own: Option<u32>,
    r: Option<LocalNet>,
    peer: u32,
)
    requires
        call_ensures(net::choose_local_ip, (ifs,), own),
        call_ensures(net::choose_net, (ifs,), r),
    ensures
        r is Some <==> own is Some,
        r is Some ==> neighbours(r->0.broadcast, own->0) && r->0.broadcast % 256 == 255,
        r is Some ==> (r->0.prefix@.is_prefix_of(net::ipv4_text(peer)) <==> neighbours(
            own->0,
            peer,
        )),
{
    if own is Some {
        lemma_prefix(own->0, peer);
        lemma_octets(own->0);
    }
}

/// Heeded are all peers of version 6; of version 4 those whose address begins with the text
/// that was set, or, where none was, those of the own network; and all where that is not
/// known either.
pub proof fn law_heeded_peers(settings: &NetSettings, addr: SocketAddr, r: bool, own: u32)
    requires
        call_ensures(net::addr_allowed, (settings, &addr), r),
    ensures
        addr is V6 ==> r,
        settings.prefix is None && settings.detected is None ==> r,
        addr matches SocketAddr::V4 { ip, .. } ==> {
            &&& settings.prefix is Some ==> (r <==> settings.prefix->0@.is_prefix_of(
                texts::joined(written_octets(ip), '.'),
            ))
            &&& settings.prefix is None && settings.detected is Some
                && settings.detected->0.prefix@ == net::subnet_text(own) ==> (r <==> neighbours(
                own,
                ip,
            ))
        },
{
    if let SocketAddr::V4 { ip, .. } = addr {
        lemma_written(ip);
        lemma_prefix(own, ip);
    }
}

/// Broadcasts go to the address that was set, if it is one; else to that of the own
/// network; else to everybody. The port is always the common one.
pub proof fn law_broadcasts(settings: &NetSettings, r: SocketAddr)
    requires
        call_ensures(net::broadcast_target, (settings,), r),
    ensures
        r is V4,
        r->V4_port == 2425,
        settings.broadcast is Some && net::ipv4_in(settings.broadcast->0@) is Some ==> r->V4_ip
            == net::ipv4_in(settings.broadcast->0@)->0,
        (settings.broadcast is None || net::ipv4_in(settings.broadcast->0@) is None)
            && settings.detected is Some ==> r->V4_ip == settings.detected->0.broadcast,
        (settings.broadcast is None || net::ipv4_in(settings.broadcast->0@) is None)
            && settings.detected is None ==> r->V4_ip == 0xffff_ffff,
{
}

/// A number between 0 and 255 in decimal, without zeros in front.
pub open spec fn byte_text(s: Seq<char>) -> bool {
    &&& numerals::numeral(s, 10)
    &&& s.len() <= 3
    &&& s.len() > 1 ==> s[0] != '0'
    &&& number::number_in(s, 10)->0 <= 255
}

proof fn lemma_byte_text(s: Seq<char>)
    ensures
        net::octet_in(s) is Some <==> byte_text(s),
        byte_text(s) ==> net::octet_in(s)->0 == number::number_in(s, 10)->0,
{
    if numerals::numeral(s, 10) {
        assert(numerals::digit_value(s[0], 10) is Some);
        numerals::lemma_numeral(s, 10);
    } else if s.len() > 0 {
        let i = choose|i: int| 0 <= i < s.len() && numerals::digit_value(#[trigger] s[i], 10) is None;
        lemma_strange(s, i);
    }
}

proof fn lemma_strange(s: Seq<char>, i: int)
    requires
        0 <= i < s.len(),
        numerals::digit_value(s[i], 10) is None,
    ensures
        number::value_of(s, 10) is None,
    decreases s.len(),
{
    if i < s.len() - 1 {
        lemma_strange(s.drop_last(), i);
    }
}

/// An address in dotted decimal is four numbers between 0 and 255, the first of which counts
/// most; anything else is none.
pub proof fn law_address_read(parts: Seq<Seq<char>>)
    requires
        parts.len() > 0,
        texts::none_holds(parts, '.'),
    ensures
        ({
            let r = net::ipv4_in(texts::joined(parts, '.'));
            let n = |i: int| number::number_in(parts[i], 10)->0;
            &&& r is Some <==> parts.len() == 4 && byte_text(parts[0]) && byte_text(parts[1])
                && byte_text(parts[2]) && byte_text(parts[3])
            &&& r is Some ==> r->0 == n(0) * 0x100_0000 + n(1) * 0x1_0000 + n(2) * 0x100 + n(3)
        }),
{
    texts::law_parting(parts, '.');
    if parts.len() == 4 {
        lemma_byte_text(parts[0]);
        lemma_byte_text(parts[1]);
        lemma_byte_text(parts[2]);
        lemma_byte_text(parts[3]);
    }
}

/// Addresses are ordered as numbers are: those of version 4 first, then by the address, then
/// by the port.
pub proof fn law_order_of_addresses(a: SocketAddr, b: SocketAddr)
    ensures
        a is V4 && b is V6 ==> net::addr_before(a, b) && !net::addr_before(b, a),
        a is V4 && b is V4 && a->V4_ip < b->V4_ip ==> net::addr_before(a, b),
        a is V4 && b is V4 && a->V4_ip == b->V4_ip && a->V4_port < b->V4_port ==> net::addr_before(
            a,
            b,
        ),
        a is V6 && b is V6 && a->V6_ip < b->V6_ip ==> net::addr_before(a, b),
        a is V6 && b is V6 && a->V6_ip == b->V6_ip && a->V6_port < b->V6_port ==> net::addr_before(
            a,
            b,
        ),
{
}

/// Names are ordered as in a dictionary: by the first character in which they differ, and
/// the shorter first where there is none.
pub proof fn law_order_of_names(a: Seq<char>, b: Seq<char>, k: int)
    requires
        0 <= k <= a.len(),
        k <= b.len(),
        forall|i: int| 0 <= i < k ==> a[i] == b[i],
    ensures
        k < a.len() && k < b.len() && a[k] < b[k] ==> conversation::text_before(a, b),
        k < a.len() && k < b.len() && b[k] < a[k] ==> !conversation::text_before(a, b),
        k == a.len() && k < b.len() ==> conversation::text_before(a, b),
        k == b.len() ==> !conversation::text_before(a, b),
    decreases k,
{
    if k > 0 {
        assert forall|i: int| 0 <= i < k - 1 implies a.skip(1)[i] == b.skip(1)[i] by {
            assert(a[i + 1] == b[i + 1]);
        }
        law_order_of_names(a.skip(1), b.skip(1), k - 1);
    }
}

/// An address of version 6 is written between brackets, with its zone behind it where it has
/// one, and its port behind a colon.
pub proof fn law_long_address_written(ip: u128, port: u16, flowinfo: u32, scope_id: u32, r: String)
    requires
        call_ensures(
            net::addr_to_string,
            (&(SocketAddr::V6 { ip, port, flowinfo, scope_id }),),
            r,
        ),
    ensures
        scope_id == 0 ==> r@ == seq!['['] + net::ipv6_text(ip) + seq![']', ':'] + number::decimal(
            port as nat,
        ),
        scope_id != 0 ==> r@ == seq!['['] + net::ipv6_text(ip) + seq!['%'] + number::decimal(
            scope_id as nat,
        ) + seq![']', ':'] + number::decimal(port as nat),
{
    if scope_id == 0 {
        assert(r@ =~= seq!['['] + net::ipv6_text(ip) + seq![']', ':'] + number::decimal(
            port as nat,
        ));
    } else {
        assert(r@ =~= seq!['['] + net::ipv6_text(ip) + seq!['%'] + number::decimal(
            scope_id as nat,
        ) + seq![']', ':'] + number::decimal(port as nat));
    }
}

/// So many numbers from here on are zero.
pub open spec fn zero_row(s: Seq<nat>, at: int, n: int) -> bool {
    &&& 0 <= at
    &&& 0 <= n
    &&& at + n <= s.len()
    &&& forall|i: int| at <= i < at + n ==> #[trigger] s[i] == 0
}

/// The longest row of zeros, and the first of them where several are longest.
pub open spec fn longest_row(s: Seq<nat>, at: int, n: int) -> bool {
    &&& zero_row(s, at, n)
    &&& forall|y: int, m: int| #[trigger] zero_row(s, y, m) ==> m <= n && (m == n ==> at <= y)
}

proof fn lemma_zeros_from(s: Seq<nat>, i: int)
    requires
        0 <= i <= s.len(),
    ensures
        zero_row(s, i, net::zeros_from(s, i)),
        forall|m: int| #[trigger] zero_row(s, i, m) ==> m <= net::zeros_from(s, i),
    decreases s.len() - i,
{
    if i < s.len() && s[i] == 0 {
        lemma_zeros_from(s, i + 1);
        assert forall|m: int| #[trigger] zero_row(s, i, m) implies m <= net::zeros_from(s, i) by {
            if m > 0 {
                assert(zero_row(s, i + 1, m - 1));
            }
        }
        let n = net::zeros_from(s, i + 1);
        assert forall|k: int| i <= k < i + 1 + n implies #[trigger] s[k] == 0 by {}
    } else {
        assert forall|m: int| #[trigger] zero_row(s, i, m) implies m <= 0 by {
            if m > 0 {
                assert(s[i] == 0);
            }
        }
    }
}

proof fn lemma_longest(s: Seq<nat>, i: int)
    requires
        0 <= i <= s.len(),
    ensures
        ({
            let b = net::longest_zeros(s, i);
            &&& i <= b <= s.len()
            &&& forall|k: int|
                i <= k <= s.len() ==> #[trigger] net::zeros_from(s, k) <= net::zeros_from(s, b)
            &&& forall|k: int|
                i <= k < b ==> #[trigger] net::zeros_from(s, k) < net::zeros_from(s, b)
                    || net::zeros_from(s, b) == 0
        }),
    decreases s.len() - i,
{
    lemma_zeros_from(s, i);
    if i < s.len() {
        lemma_longest(s, i + 1);
        let behind = net::longest_zeros(s, i + 1);
        lemma_zeros_from(s, behind);
        let b = net::longest_zeros(s, i);
        assert forall|k: int| i <= k <= s.len() implies #[trigger] net::zeros_from(s, k)
            <= net::zeros_from(s, b) by {
            if k > i {
                assert(net::zeros_from(s, k) <= net::zeros_from(s, behind));
            }
        }
        assert forall|k: int| i <= k < b implies #[trigger] net::zeros_from(s, k)
            < net::zeros_from(s, b) || net::zeros_from(s, b) == 0 by {
            if k > i {
                assert(net::zeros_from(s, k) < net::zeros_from(s, behind) || net::zeros_from(
                    s,
                    behind,
                ) == 0);
            }
        }
    }
}

proof fn lemma_row(s: Seq<nat>)
    ensures
        net::colon_row(s) == texts::joined(s.map_values(|n: nat| number::hexadecimal(n)), ':'),
    decreases s.len(),
{
    let f = |n: nat| number::hexadecimal(n);
    let all = s.map_values(f);
    if s.len() >= 2 {
        let init = s.drop_last();
        lemma_row(init);
        assert(all =~= init.map_values(f).push(number::hexadecimal(s.last())));
        lemma_joined_push(init.map_values(f), number::hexadecimal(s.last()), ':');
        assert(net::colon_row(init).push(':') + number::hexadecimal(s.last()) =~= texts::joined(
            init.map_values(f),
            ':',
        ) + seq![':'] + number::hexadecimal(s.last()));
    } else if s.len() == 1 {
        assert(all[0] == number::hexadecimal(s[0]));
    }
}

proof fn lemma_joined_push(parts: Seq<Seq<char>>, last: Seq<char>, sep: char)
    requires
        parts.len() > 0,
    ensures
        texts::joined(parts.push(last), sep) == texts::joined(parts, sep) + seq![sep] + last,
    decreases parts.len(),
{
    let all = parts.push(last);
    assert(all.skip(1) =~= parts.skip(1).push(last));
    if parts.len() == 1 {
        assert(parts.skip(1).push(last) =~= seq![last]);
        assert(texts::joined(seq![last], sep) == last);
        assert(texts::joined(all, sep) =~= parts[0] + seq![sep] + last);
    } else {
        lemma_joined_push(parts.skip(1), last, sep);
        assert(texts::joined(all, sep) =~= texts::joined(parts, sep) + seq![sep] + last);
    }
}

/// An address of version 6 is written as eight hexadecimal numbers with colons between them,
/// of which the longest row of two zeros or more is left out, the first one of several; one
/// that stands for an address of version 4 shows that behind `::ffff:`.
pub proof fn law_long_form(ip: u128, at: int, n: int)
    requires
        longest_row(net::segments(ip), at, n),
    ensures
        ({
            let s = net::segments(ip);
            let hex = |m: nat| number::hexadecimal(m);
            &&& s.len() == 8
            &&& ip / 0x1_0000_0000 != 0xffff && n < 2 ==> net::ipv6_text(ip) == texts::joined(
                s.map_values(hex),
                ':',
            )
            &&& ip / 0x1_0000_0000 != 0xffff && n >= 2 ==> net::ipv6_text(ip) == texts::joined(
                s.take(at).map_values(hex),
                ':',
            ) + seq![':', ':'] + texts::joined(s.skip(at + n).map_values(hex), ':')
            &&& ip / 0x1_0000_0000 == 0xffff ==> net::ipv6_text(ip) == seq![
                ':',
                ':',
                'f',
                'f',
                'f',
                'f',
                ':',
            ] + texts::joined(written_octets((ip % 0x1_0000_0000) as u32), '.')
        }),
{
    let s = net::segments(ip);
    lemma_written((ip % 0x1_0000_0000) as u32);
    lemma_longest(s, 0);
    let b = net::longest_zeros(s, 0);
    let len = net::zeros_from(s, b);
    lemma_zeros_from(s, b);
    lemma_zeros_from(s, at);
    assert(zero_row(s, b, len));
    assert(net::zeros_from(s, at) <= len);
    assert(n == len);
    lemma_row(s);
    if n >= 2 {
        assert(at <= b);
        if at < b {
            assert(net::zeros_from(s, at) < len);
        }
        assert(at == b);
        lemma_row(s.take(at));
        lemma_row(s.skip(at + n));
    }
}

} // verus!
