//! Addresses: their written form, the choice of a network interface, and whose
//! packets are heeded.
use crate::chars;
use crate::chars::{contains_text, lower, split, starts_with, to_chars, to_text};
use crate::ipmsg_core::protocol::PORT;
use crate::number;
use crate::number::{parse_up_to, push_decimal, push_hexadecimal};
use vstd::prelude::*;

verus! {

/// An IP address as the number that its bytes make, the first byte the highest.
#[derive(Debug, Clone, Copy, PartialEq, Eq, Hash, Structural)]
pub enum IpAddr {
    V4(u32),
    V6(u128),
}

#[derive(Debug, Clone, Copy, PartialEq, Eq, Hash, Structural)]
pub enum SocketAddr {
    V4 { ip: u32, port: u16 },
    V6 { ip: u128, port: u16, flowinfo: u32, scope_id: u32 },
}

impl SocketAddr {
    pub open spec fn spec_new(ip: IpAddr, port: u16) -> SocketAddr {
        match ip {
            IpAddr::V4(ip) => SocketAddr::V4 { ip, port },
            IpAddr::V6(ip) => SocketAddr::V6 { ip, port, flowinfo: 0, scope_id: 0 },
        }
    }

    pub open spec fn spec_ip(self) -> IpAddr {
        match self {
            SocketAddr::V4 { ip, .. } => IpAddr::V4(ip),
            SocketAddr::V6 { ip, .. } => IpAddr::V6(ip),
        }
    }

    pub open spec fn spec_port(self) -> u16 {
        match self {
            SocketAddr::V4 { port, .. } => port,
            SocketAddr::V6 { port, .. } => port,
        }
    }

    pub fn new(ip: IpAddr, port: u16) -> (r: SocketAddr)
        ensures
            r == Self::spec_new(ip, port),
    {
        match ip {
            IpAddr::V4(ip) => SocketAddr::V4 { ip, port },
            IpAddr::V6(ip) => SocketAddr::V6 { ip, port, flowinfo: 0, scope_id: 0 },
        }
    }

    pub fn ip(&self) -> (r: IpAddr)
        ensures
            r == self.spec_ip(),
    {
        match self {
            SocketAddr::V4 { ip, .. } => IpAddr::V4(*ip),
            SocketAddr::V6 { ip, .. } => IpAddr::V6(*ip),
        }
    }

    pub fn port(&self) -> (r: u16)
        ensures
            r == self.spec_port(),
    {
        match self {
            SocketAddr::V4 { port, .. } => *port,
            SocketAddr::V6 { port, .. } => *port,
        }
    }
}

/// The address at which the client of the same host listens.
pub open spec fn normalized(addr: SocketAddr) -> SocketAddr {
    SocketAddr::spec_new(addr.spec_ip(), PORT)
}

/// The address at which the client of the same host listens.
pub fn normalize_addr(addr: SocketAddr) -> (r: SocketAddr)
    ensures
        r == normalized(addr),
{
    SocketAddr::new(addr.ip(), PORT)
}

/// 127.0.0.1.
pub const LOCALHOST: u32 = 0x7f00_0001;

/// The own address as long as none is known.
pub fn default_self_addr() -> (r: SocketAddr)
    ensures
        r == (SocketAddr::V4 { ip: LOCALHOST, port: PORT }),
{
    SocketAddr::new(IpAddr::V4(LOCALHOST), PORT)
}

/// The order of addresses: version 4 before version 6, then by address, by port
/// and by what else a version 6 address holds.
pub open spec fn addr_before(a: SocketAddr, b: SocketAddr) -> bool {
    match (a, b) {
        (SocketAddr::V4 { ip: i, port: p }, SocketAddr::V4 { ip: j, port: q }) => i < j || (i == j
            && p < q),
        (SocketAddr::V4 { .. }, SocketAddr::V6 { .. }) => true,
        (SocketAddr::V6 { .. }, SocketAddr::V4 { .. }) => false,
        (
            SocketAddr::V6 { ip: i, port: p, flowinfo: f, scope_id: s },
            SocketAddr::V6 { ip: j, port: q, flowinfo: g, scope_id: t },
        ) => i < j || (i == j && (p < q || (p == q && (f < g || (f == g && s < t))))),
    }
}

/// Whether `a` stands before `b` in the order of addresses.
pub fn addr_precedes(a: &SocketAddr, b: &SocketAddr) -> (r: bool)
    ensures
        r == addr_before(*a, *b),
{
    match (*a, *b) {
        (SocketAddr::V4 { ip: i, port: p }, SocketAddr::V4 { ip: j, port: q }) => i < j || (i == j
            && p < q),
        (SocketAddr::V4 { .. }, SocketAddr::V6 { .. }) => true,
        (SocketAddr::V6 { .. }, SocketAddr::V4 { .. }) => false,
        (
            SocketAddr::V6 { ip: i, port: p, flowinfo: f, scope_id: s },
            SocketAddr::V6 { ip: j, port: q, flowinfo: g, scope_id: t },
        ) => i < j || (i == j && (p < q || (p == q && (f < g || (f == g && s < t))))),
    }
}

/// The order of addresses is total, and no address stands before itself.
pub proof fn law_addr_order(a: SocketAddr, b: SocketAddr, c: SocketAddr)
    ensures
        !addr_before(a, a),
        a == b || addr_before(a, b) || addr_before(b, a),
        addr_before(a, b) && addr_before(b, c) ==> addr_before(a, c),
{
}

/// The `i`-th byte of a version 4 address.
pub open spec fn octet(ip: u32, i: int) -> u32 {
    if i == 0 {
        ip / 0x100_0000
    } else if i == 1 {
        (ip / 0x1_0000) % 0x100
    } else if i == 2 {
        (ip / 0x100) % 0x100
    } else {
        ip % 0x100
    }
}

/// The first three bytes of a version 4 address, each with a dot behind it.
pub open spec fn subnet_text(ip: u32) -> Seq<char> {
    number::decimal(octet(ip, 0) as nat).push('.') + number::decimal(octet(ip, 1) as nat).push('.')
        + number::decimal(octet(ip, 2) as nat).push('.')
}

/// A version 4 address in dotted decimal.
pub open spec fn ipv4_text(ip: u32) -> Seq<char> {
    subnet_text(ip) + number::decimal(octet(ip, 3) as nat)
}

fn push_subnet(out: &mut Vec<char>, ip: u32)
    ensures
        final(out)@ == old(out)@ + subnet_text(ip),
{
    push_decimal(out, (ip / 0x100_0000) as u64);
    out.push('.');
    push_decimal(out, ((ip / 0x1_0000) % 0x100) as u64);
    out.push('.');
    push_decimal(out, ((ip / 0x100) % 0x100) as u64);
    out.push('.');
    assert(out@ =~= old(out)@ + subnet_text(ip));
}

fn push_ipv4(out: &mut Vec<char>, ip: u32)
    ensures
        final(out)@ == old(out)@ + ipv4_text(ip),
{
    push_subnet(out, ip);
    push_decimal(out, (ip % 0x100) as u64);
    assert(out@ =~= old(out)@ + ipv4_text(ip));
}

/// What divides a version 6 address so that its `i`-th sixteen bits come last.
pub open spec fn segment_unit(i: int) -> u128 {
    if i == 0 {
        0x1_0000_0000_0000_0000_0000_0000_0000
    } else if i == 1 {
        0x1_0000_0000_0000_0000_0000_0000
    } else if i == 2 {
        0x1_0000_0000_0000_0000_0000
    } else if i == 3 {
        0x1_0000_0000_0000_0000
    } else if i == 4 {
        0x1_0000_0000_0000
    } else if i == 5 {
        0x1_0000_0000
    } else if i == 6 {
        0x1_0000
    } else {
        1
    }
}

/// The eight parts of sixteen bits of a version 6 address.
pub open spec fn segments(ip: u128) -> Seq<nat> {
    Seq::new(8, |i: int| ((ip / segment_unit(i)) % 0x1_0000) as nat)
}

/// How many zeros follow each other from place `i` on.
pub open spec fn zeros_from(s: Seq<nat>, i: int) -> int
    decreases s.len() - i,
{
    if 0 <= i < s.len() && s[i] == 0 {
        1 + zeros_from(s, i + 1)
    } else {
        0
    }
}

/// Where the longest row of zeros begins that begins at `i` or behind it; the
/// first of them where several are longest.
pub open spec fn longest_zeros(s: Seq<nat>, i: int) -> int
    decreases s.len() - i,
{
    if i < 0 || i >= s.len() {
        s.len() as int
    } else {
        let behind = longest_zeros(s, i + 1);
        if zeros_from(s, i) > 0 && zeros_from(s, i) >= zeros_from(s, behind) {
            i
        } else {
            behind
        }
    }
}

/// Hexadecimal numbers with a colon between them.
pub open spec fn colon_row(s: Seq<nat>) -> Seq<char>
    decreases s.len(),
{
    if s.len() == 0 {
        Seq::empty()
    } else if s.len() == 1 {
        number::hexadecimal(s[0])
    } else {
        colon_row(s.drop_last()).push(':') + number::hexadecimal(s.last())
    }
}

/// A version 6 address in its canonical form: the longest row of two zeros or
/// more is left out, and a mapped version 4 address is shown as one.
pub open spec fn ipv6_text(ip: u128) -> Seq<char> {
    let s = segments(ip);
    let zeros = longest_zeros(s, 0);
    let len = zeros_from(s, zeros);
    if ip / 0x1_0000_0000 == 0xffff {
        seq![':', ':', 'f', 'f', 'f', 'f', ':'] + ipv4_text((ip % 0x1_0000_0000) as u32)
    } else if len >= 2 {
        colon_row(s.take(zeros)) + seq![':', ':'] + colon_row(s.skip(zeros + len))
    } else {
        colon_row(s)
    }
}

/// The written form of an address; it is what names a conversation.
pub open spec fn addr_text(addr: SocketAddr) -> Seq<char> {
    match addr {
        SocketAddr::V4 { ip, port } => ipv4_text(ip).push(':') + number::decimal(port as nat),
        SocketAddr::V6 { ip, port, scope_id, .. } => {
            let zone = if scope_id == 0 {
                Seq::empty()
            } else {
                seq!['%'] + number::decimal(scope_id as nat)
            };
            seq!['['] + ipv6_text(ip) + zone + seq![']', ':'] + number::decimal(port as nat)
        },
    }
}

fn segment_list(ip: u128) -> (r: Vec<u16>)
    ensures
        r@.len() == 8,
        segments(ip) == Seq::new(8, |i: int| r@[i] as nat),
{
    let r: Vec<u16> = vec![
        ((ip / 0x1_0000_0000_0000_0000_0000_0000_0000) % 0x1_0000) as u16,
        ((ip / 0x1_0000_0000_0000_0000_0000_0000) % 0x1_0000) as u16,
        ((ip / 0x1_0000_0000_0000_0000_0000) % 0x1_0000) as u16,
        ((ip / 0x1_0000_0000_0000_0000) % 0x1_0000) as u16,
        ((ip / 0x1_0000_0000_0000) % 0x1_0000) as u16,
        ((ip / 0x1_0000_0000) % 0x1_0000) as u16,
        ((ip / 0x1_0000) % 0x1_0000) as u16,
        (ip % 0x1_0000) as u16,
    ];
    assert(segments(ip)[0] == r@[0] as nat);
    assert(segments(ip)[1] == r@[1] as nat);
    assert(segments(ip)[2] == r@[2] as nat);
    assert(segments(ip)[3] == r@[3] as nat);
    assert(segments(ip)[4] == r@[4] as nat);
    assert(segments(ip)[5] == r@[5] as nat);
    assert(segments(ip)[6] == r@[6] as nat);
    assert(segments(ip)[7] == r@[7] as nat);
    assert(segments(ip) =~= Seq::new(8, |i: int| r@[i] as nat));
    r
}

fn count_zeros(s: &Vec<u16>, i: usize) -> (n: usize)
    requires
        i <= s@.len() == 8,
    ensures
        n == zeros_from(Seq::new(8, |k: int| s@[k] as nat), i as int),
        i + n <= 8,
    decreases 8 - i,
{
    if i < 8 && s[i] == 0 {
        1 + count_zeros(s, i + 1)
    } else {
        0
    }
}

fn push_row(out: &mut Vec<char>, s: &Vec<u16>, from: usize, to: usize)
    requires
        from <= to <= s@.len() == 8,
    ensures
        final(out)@ == old(out)@ + colon_row(
            Seq::new(8, |k: int| s@[k] as nat).subrange(from as int, to as int),
        ),
{
    let ghost all = Seq::new(8, |k: int| s@[k] as nat);
    let mut i: usize = from;
    assert(all.subrange(from as int, from as int) =~= Seq::<nat>::empty());
    assert(out@ =~= old(out)@ + colon_row(all.subrange(from as int, i as int)));
    while i < to
        invariant
            from <= i <= to <= s@.len() == 8,
            all == Seq::new(8, |k: int| s@[k] as nat),
            out@ == old(out)@ + colon_row(all.subrange(from as int, i as int)),
        decreases to - i,
    {
        if i > from {
            out.push(':');
        }
        push_hexadecimal(out, s[i] as u64);
        assert(all.subrange(from as int, i + 1).drop_last() =~= all.subrange(from as int, i as int));
        assert(all.subrange(from as int, i + 1).last() == s@[i as int]);
        assert(out@ =~= old(out)@ + colon_row(all.subrange(from as int, i + 1)));
        i += 1;
    }
}

fn push_ipv6(out: &mut Vec<char>, ip: u128)
    ensures
        final(out)@ == old(out)@ + ipv6_text(ip),
{
    let ghost s = segments(ip);
    if ip / 0x1_0000_0000 == 0xffff {
        out.push(':');
        out.push(':');
        out.push('f');
        out.push('f');
        out.push('f');
        out.push('f');
        out.push(':');
        push_ipv4(out, (ip % 0x1_0000_0000) as u32);
        assert(out@ =~= old(out)@ + ipv6_text(ip));
        return;
    }
    let list = segment_list(ip);
    let mut best: usize = 8;
    let mut best_len: usize = 0;
    let mut i: usize = 8;
    while i > 0
        invariant
            i <= 8,
            list@.len() == 8,
            s == Seq::new(8, |k: int| list@[k] as nat),
            best == longest_zeros(s, i as int),
            best_len == zeros_from(s, best as int),
            best + best_len <= 8,
        decreases i,
    {
        i -= 1;
        let len = count_zeros(&list, i);
        if len > 0 && len >= best_len {
            best = i;
            best_len = len;
        }
    }
    if best_len >= 2 {
        push_row(out, &list, 0, best);
        out.push(':');
        out.push(':');
        push_row(out, &list, best + best_len, 8);
        assert(s.subrange(0, best as int) =~= s.take(best as int));
        assert(s.subrange(best + best_len, 8) =~= s.skip(best + best_len));
    } else {
        push_row(out, &list, 0, 8);
        assert(s.subrange(0, 8) =~= s);
    }
    assert(out@ =~= old(out)@ + ipv6_text(ip));
}

/// The written form of an address.
pub fn addr_to_string(addr: &SocketAddr) -> (r: String)
    ensures
        r@ == addr_text(*addr),
{
    let mut out: Vec<char> = Vec::new();
    match *addr {
        SocketAddr::V4 { ip, port } => {
            push_ipv4(&mut out, ip);
            out.push(':');
            push_decimal(&mut out, port as u64);
        },
        SocketAddr::V6 { ip, port, scope_id, .. } => {
            out.push('[');
            push_ipv6(&mut out, ip);
            if scope_id != 0 {
                out.push('%');
                push_decimal(&mut out, scope_id as u64);
            }
            out.push(']');
            out.push(':');
            push_decimal(&mut out, port as u64);
        },
    }
    assert(out@ =~= addr_text(*addr));
    to_text(out.as_slice())
}

/// An address of a private network: 10.*, 172.16.* to 172.31.*, or 192.168.*.
pub open spec fn private(ip: u32) -> bool {
    ||| octet(ip, 0) == 10
    ||| octet(ip, 0) == 172 && 16 <= octet(ip, 1) <= 31
    ||| home(ip)
}

/// An address of the form 192.168.*.
pub open spec fn home(ip: u32) -> bool {
    octet(ip, 0) == 192 && octet(ip, 1) == 168
}

pub fn is_private(ip: u32) -> (r: bool)
    ensures
        r == private(ip),
{
    let first: u32 = ip / 0x100_0000;
    let second: u32 = (ip / 0x1_0000) % 0x100;
    first == 10 || (first == 172 && 16 <= second && second <= 31) || (first == 192 && second == 168)
}

/// The name of an interface of a virtual machine.
pub open spec fn virtual_name(name: Seq<char>) -> bool {
    let n = chars::lowered(name);
    ||| chars::occurs_in(n, "vmware"@)
    ||| chars::occurs_in(n, "vbox"@)
    ||| chars::occurs_in(n, "virtual"@)
    ||| chars::occurs_in(n, "hyper-v"@)
    ||| chars::occurs_in(n, "hyperv"@)
}

pub fn is_virtual_name(name: &str) -> (r: bool)
    ensures
        r == virtual_name(name@),
{
    let name = to_chars(name);
    let lowered = lower(name.as_slice());
    let n = lowered.as_slice();
    contains_text(n, "vmware") || contains_text(n, "vbox") || contains_text(n, "virtual")
        || contains_text(n, "hyper-v") || contains_text(n, "hyperv")
}

/// A network interface: its name, and its address where that is of version 4.
#[derive(Debug, Clone)]
pub struct Interface {
    pub name: String,
    pub v4: Option<u32>,
}

/// An interface by which the local network can be reached.
pub open spec fn usable(iface: Interface) -> bool {
    match iface.v4 {
        None => false,
        Some(ip) => !virtual_name(iface.name@) && octet(ip, 0) != 127 && private(ip),
    }
}

/// The first usable address that is, or is not, of the form 192.168.*.
pub open spec fn first_usable(ifs: Seq<Interface>, at_home: bool) -> Option<u32>
    decreases ifs.len(),
{
    if ifs.len() == 0 {
        None
    } else if usable(ifs[0]) && home(ifs[0].v4->0) == at_home {
        ifs[0].v4
    } else {
        first_usable(ifs.skip(1), at_home)
    }
}

/// The own address on the local network: addresses of the form 192.168.* come
/// before other private ones.
pub open spec fn local_ip(ifs: Seq<Interface>) -> Option<u32> {
    match first_usable(ifs, true) {
        Some(ip) => Some(ip),
        None => first_usable(ifs, false),
    }
}

/// Picks the own address on the local network.
pub fn choose_local_ip(ifs: &Vec<Interface>) -> (r: Option<u32>)
    ensures
        r == local_ip(ifs@),
        r matches Some(ip) ==> private(ip),
{
    let mut at_home: Option<u32> = None;
    let mut elsewhere: Option<u32> = None;
    let mut i: usize = ifs.len();
    assert(ifs@.skip(i as int) =~= Seq::<Interface>::empty());
    while i > 0
        invariant
            i <= ifs@.len(),
            at_home == first_usable(ifs@.skip(i as int), true),
            elsewhere == first_usable(ifs@.skip(i as int), false),
            at_home matches Some(ip) ==> private(ip),
            elsewhere matches Some(ip) ==> private(ip),
        decreases i,
    {
        i -= 1;
        assert(ifs@.skip(i as int).skip(1) =~= ifs@.skip(i + 1));
        assert(ifs@.skip(i as int)[0] == ifs@[i as int]);
        let iface = &ifs[i];
        if let Some(ip) = iface.v4 {
            if !is_virtual_name(iface.name.as_str()) && ip / 0x100_0000 != 127 && is_private(ip) {
                if ip / 0x100_0000 == 192 && (ip / 0x1_0000) % 0x100 == 168 {
                    at_home = Some(ip);
                } else {
                    elsewhere = Some(ip);
                }
            }
        }
    }
    assert(ifs@.skip(0) =~= ifs@);
    if at_home.is_some() {
        at_home
    } else {
        elsewhere
    }
}

/// `get_if_addrs::get_if_addrs`: the interfaces of this machine, or `None` where
/// they cannot be listed. Nothing is claimed of what the machine answers.
#[verifier::external_body]
fn interfaces() -> (r: Option<Vec<Interface>>) {
    match get_if_addrs::get_if_addrs() {
        Ok(list) => Some(list.into_iter().map(|i| Interface {
            v4: match i.addr {
                get_if_addrs::IfAddr::V4(a) => Some(u32::from(a.ip)),
                get_if_addrs::IfAddr::V6(_) => None,
            },
            name: i.name,
        }).collect()),
        Err(_) => None,
    }
}

/// A network: the text that its addresses begin with, and its broadcast address.
#[derive(Debug, Clone)]
pub struct LocalNet {
    pub prefix: String,
    pub broadcast: u32,
}

impl View for LocalNet {
    type V = (Seq<char>, u32);

    open spec fn view(&self) -> (Seq<char>, u32) {
        (self.prefix@, self.broadcast)
    }
}

/// The local network of an own address.
pub open spec fn network_of(ip: u32) -> (Seq<char>, u32) {
    (subnet_text(ip), (ip - ip % 0x100 + 0xff) as u32)
}

/// The local network among these interfaces.
pub fn choose_net(ifs: &Vec<Interface>) -> (r: Option<LocalNet>)
    ensures
        match local_ip(ifs@) {
            None => r is None,
            Some(ip) => r is Some && r->0@ == network_of(ip),
        },
{
    match choose_local_ip(ifs) {
        None => None,
        Some(ip) => {
            let mut prefix: Vec<char> = Vec::new();
            push_subnet(&mut prefix, ip);
            assert(prefix@ =~= subnet_text(ip));
            Some(LocalNet { prefix: to_text(prefix.as_slice()), broadcast: ip - ip % 0x100 + 0xff })
        },
    }
}

/// The local network of this machine: a private one, where there is any.
pub fn detect_net() -> (r: Option<LocalNet>)
    ensures
        r matches Some(net) ==> exists|ip: u32|
            private(ip) && #[trigger] network_of(ip) == net@,
{
    match interfaces() {
        None => None,
        Some(ifs) => {
            proof {
                lemma_local_ip_private(ifs@);
            }
            choose_net(&ifs)
        },
    }
}

/// The own address among these interfaces.
pub fn choose_self_addr(ifs: &Vec<Interface>, port: u16) -> (r: Option<SocketAddr>)
    ensures
        r == match local_ip(ifs@) {
            None => None::<SocketAddr>,
            Some(ip) => Some(SocketAddr::V4 { ip, port }),
        },
{
    match choose_local_ip(ifs) {
        None => None,
        Some(ip) => Some(SocketAddr::new(IpAddr::V4(ip), port)),
    }
}

/// The own address of this machine: a private one, where there is any.
pub fn detect_self_addr(port: u16) -> (r: Option<SocketAddr>)
    ensures
        r matches Some(addr) ==> exists|ip: u32|
            private(ip) && addr == (#[trigger] SocketAddr::spec_new(IpAddr::V4(ip), port)),
{
    match interfaces() {
        None => None,
        Some(ifs) => {
            proof {
                lemma_local_ip_private(ifs@);
                if local_ip(ifs@) is Some {
                    assert(SocketAddr::spec_new(IpAddr::V4(local_ip(ifs@)->0), port)
                        == SocketAddr::V4 { ip: local_ip(ifs@)->0, port });
                }
            }
            choose_self_addr(&ifs, port)
        },
    }
}

/// The own address: the one that was found, else that by which a machine reaches
/// itself.
pub fn self_addr_or_localhost(found: Option<SocketAddr>, port: u16) -> (r: SocketAddr)
    ensures
        r == match found {
            Some(addr) => addr,
            None => SocketAddr::V4 { ip: LOCALHOST, port },
        },
{
    match found {
        Some(addr) => addr,
        None => SocketAddr::new(IpAddr::V4(LOCALHOST), port),
    }
}

proof fn lemma_local_ip_private(ifs: Seq<Interface>)
    ensures
        local_ip(ifs) matches Some(ip) ==> private(ip),
{
    lemma_first_usable_private(ifs, true);
    lemma_first_usable_private(ifs, false);
}

proof fn lemma_first_usable_private(ifs: Seq<Interface>, at_home: bool)
    ensures
        first_usable(ifs, at_home) matches Some(ip) ==> private(ip),
    decreases ifs.len(),
{
    if ifs.len() > 0 {
        lemma_first_usable_private(ifs.skip(1), at_home);
    }
}

/// What decides whose packets are heeded and where broadcasts go: what the user
/// of the machine has set, and the network that was found.
#[derive(Debug, Clone)]
pub struct NetSettings {
    /// What the addresses of heeded peers begin with, where that is set.
    pub prefix: Option<String>,
    /// Where broadcasts go, where that is set.
    pub broadcast: Option<String>,
    /// The network that was found.
    pub detected: Option<LocalNet>,
}

impl NetSettings {
    /// What the addresses of heeded peers begin with; what is set comes first.
    pub open spec fn heeded_prefix(self) -> Option<Seq<char>> {
        match (self.prefix, self.detected) {
            (Some(prefix), _) => Some(prefix@),
            (None, Some(net)) => Some(net.prefix@),
            (None, None) => None,
        }
    }

    /// Whether packets from this address are heeded.
    pub open spec fn allows(self, addr: SocketAddr) -> bool {
        match (addr, self.heeded_prefix()) {
            (SocketAddr::V4 { ip, .. }, Some(prefix)) => prefix.is_prefix_of(ipv4_text(ip)),
            _ => true,
        }
    }

    /// Where broadcasts go.
    pub open spec fn broadcast_addr(self) -> SocketAddr {
        let set = match self.broadcast {
            Some(text) => ipv4_in(text@),
            None => None,
        };
        let ip = match (set, self.detected) {
            (Some(ip), _) => ip,
            (None, Some(net)) => net.broadcast,
            (None, None) => 0xffff_ffff,
        };
        SocketAddr::V4 { ip, port: PORT }
    }
}

/// Whether packets from this address are heeded.
pub fn addr_allowed(settings: &NetSettings, addr: &SocketAddr) -> (r: bool)
    ensures
        r == settings.allows(*addr),
{
    match *addr {
        SocketAddr::V6 { .. } => true,
        SocketAddr::V4 { ip, .. } => {
            let prefix: Vec<char> = if let Some(prefix) = &settings.prefix {
                to_chars(prefix.as_str())
            } else if let Some(net) = &settings.detected {
                to_chars(net.prefix.as_str())
            } else {
                return true;
            };
            let mut text: Vec<char> = Vec::new();
            push_ipv4(&mut text, ip);
            assert(text@ =~= ipv4_text(ip));
            starts_with(text.as_slice(), prefix.as_slice())
        },
    }
}

/// Packets over version 6, and all packets where no network is known, are heeded;
/// of the others exactly those whose written address begins as it should.
pub proof fn law_heeded(settings: NetSettings, ip: u32, port: u16)
    ensures
        settings.heeded_prefix() is None ==> settings.allows(SocketAddr::V4 { ip, port }),
        forall|addr: SocketAddr| addr is V6 ==> settings.allows(addr),
        settings.prefix is None && settings.detected is Some && settings.detected->0.prefix@
            == subnet_text(ip) ==> settings.allows(SocketAddr::V4 { ip, port }),
{
    assert(subnet_text(ip).is_prefix_of(ipv4_text(ip)));
}

/// One byte of an address in dotted decimal: one to three digits without a
/// leading zero.
pub open spec fn octet_in(s: Seq<char>) -> Option<u32> {
    if 1 <= s.len() <= 3 && (s.len() > 1 ==> s[0] != '0') {
        match number::value_of(s, 10) {
            Some(n) => if n <= 255 {
                Some(n as u32)
            } else {
                None
            },
            None => None,
        }
    } else {
        None
    }
}

/// The address that a text in dotted decimal states.
pub open spec fn ipv4_in(s: Seq<char>) -> Option<u32> {
    let parts = chars::pieces(s, '.');
    if parts.len() == 4 {
        match (octet_in(parts[0]), octet_in(parts[1]), octet_in(parts[2]), octet_in(parts[3])) {
            (Some(a), Some(b), Some(c), Some(d)) => Some(
                (a * 0x100_0000 + b * 0x1_0000 + c * 0x100 + d) as u32,
            ),
            _ => None,
        }
    } else {
        None
    }
}

fn parse_octet(s: &[char]) -> (r: Option<u32>)
    ensures
        r == octet_in(s@),
        r matches Some(n) ==> n <= 255,
{
    if s.len() == 0 || s.len() > 3 || (s.len() > 1 && s[0] == '0') {
        return None;
    }
    if s[0] == '+' {
        proof {
            assert(s@.take(1).drop_last() =~= Seq::<char>::empty());
            assert(number::value_of(s@.take(1), 10) is None) by {
                reveal_with_fuel(number::value_of, 2);
            }
            number::lemma_value_prefix(s@, 1, 10, 255);
        }
        return None;
    }
    match parse_up_to(s, 10, 255) {
        Some(n) => Some(n as u32),
        None => None,
    }
}

/// Reads an address in dotted decimal.
pub fn parse_ipv4(s: &str) -> (r: Option<u32>)
    ensures
        r == ipv4_in(s@),
{
    let s = to_chars(s);
    let parts = split(s.as_slice(), '.');
    assert(forall|i: int|
        0 <= i < parts@.len() ==> chars::pieces(s@, '.')[i] == (#[trigger] parts@[i])@);
    if parts.len() != 4 {
        return None;
    }
    let a: Option<u32> = parse_octet(parts[0].as_slice());
    let b: Option<u32> = parse_octet(parts[1].as_slice());
    let c: Option<u32> = parse_octet(parts[2].as_slice());
    let d: Option<u32> = parse_octet(parts[3].as_slice());
    match (a, b, c, d) {
        (Some(a), Some(b), Some(c), Some(d)) => Some(a * 0x100_0000 + b * 0x1_0000 + c * 0x100 + d),
        _ => None,
    }
}

/// Where broadcasts go: to the address that is set, else to that of the network
/// that was found, else to all.
pub fn broadcast_target(settings: &NetSettings) -> (r: SocketAddr)
    ensures
        r == settings.broadcast_addr(),
{
    if let Some(text) = &settings.broadcast {
        if let Some(ip) = parse_ipv4(text.as_str()) {
            return SocketAddr::new(IpAddr::V4(ip), PORT);
        }
    }
    match &settings.detected {
        Some(net) => SocketAddr::new(IpAddr::V4(net.broadcast), PORT),
        None => SocketAddr::new(IpAddr::V4(0xffff_ffff), PORT),
    }
}

/// An address that is written in dotted decimal is read back.
pub proof fn law_ipv4_round_trip(ip: u32)
    ensures
        ipv4_in(ipv4_text(ip)) == Some(ip),
{
    lemma_octet_round_trip(octet(ip, 0));
    lemma_octet_round_trip(octet(ip, 1));
    lemma_octet_round_trip(octet(ip, 2));
    lemma_octet_round_trip(octet(ip, 3));
    let a = number::decimal(octet(ip, 0) as nat);
    let b = number::decimal(octet(ip, 1) as nat);
    let c = number::decimal(octet(ip, 2) as nat);
    let d = number::decimal(octet(ip, 3) as nat);
    assert(ipv4_text(ip) == a.push('.') + b.push('.') + c.push('.') + d);
    lemma_four_pieces(a, b, c, d);
    lemma_octets(ip);
}

proof fn lemma_octets(ip: u32)
    ensures
        octet(ip, 0) <= 255,
        octet(ip, 0) * 0x100_0000 + octet(ip, 1) * 0x1_0000 + octet(ip, 2) * 0x100 + octet(ip, 3)
            == ip,
{
}

proof fn lemma_four_pieces(a: Seq<char>, b: Seq<char>, c: Seq<char>, d: Seq<char>)
    requires
        !a.contains('.'),
        !b.contains('.'),
        !c.contains('.'),
        !d.contains('.'),
    ensures
        chars::pieces(a.push('.') + b.push('.') + c.push('.') + d, '.') == seq![a, b, c, d],
{
    let s2 = c.push('.') + d;
    let s1 = b.push('.') + s2;
    assert(a.push('.') + b.push('.') + c.push('.') + d =~= a.push('.') + s1);
    chars::lemma_pieces_plain(d, '.');
    chars::lemma_pieces_plain(c, '.');
    chars::lemma_pieces_plain(b, '.');
    chars::lemma_pieces_plain(a, '.');
    chars::lemma_pieces_joined(c, d, '.');
    chars::lemma_pieces_joined(b, s2, '.');
    chars::lemma_pieces_joined(a, s1, '.');
    assert(chars::pieces(a.push('.') + s1, '.') =~= seq![a, b, c, d]);
}

proof fn lemma_octet_round_trip(n: u32)
    requires
        n <= 255,
    ensures
        octet_in(number::decimal(n as nat)) == Some(n),
        !number::decimal(n as nat).contains('.'),
{
    let s = number::decimal(n as nat);
    number::lemma_digits_plain(n as nat, 10);
    number::law_number_round_trip(n as nat, 10);
    reveal_with_fuel(number::digits, 4);
    if s.contains('.') {
        let k = s.index_of('.');
        assert(s[k] == '.');
    }
}

/// A number in decimal is read back, and holds no separator.
proof fn lemma_decimal_form(n: nat, c: char)
    requires
        c == '.' || c == ':' || c == '-',
    ensures
        number::number_in(number::decimal(n), 10) == Some(n),
        !number::decimal(n).contains(c),
{
    let s = number::decimal(n);
    number::lemma_digits_plain(n, 10);
    number::law_number_round_trip(n, 10);
    if s.contains(c) {
        let k = s.index_of(c);
        assert(s[k] == c);
    }
}

/// Neither a colon nor a dash stands in dotted decimal.
pub proof fn lemma_ipv4_text_lacks(ip: u32, c: char)
    requires
        c == ':' || c == '-',
    ensures
        !ipv4_text(ip).contains(c),
{
    lemma_decimal_form(octet(ip, 0) as nat, c);
    lemma_decimal_form(octet(ip, 1) as nat, c);
    lemma_decimal_form(octet(ip, 2) as nat, c);
    lemma_decimal_form(octet(ip, 3) as nat, c);
    let a = number::decimal(octet(ip, 0) as nat).push('.');
    let b = number::decimal(octet(ip, 1) as nat).push('.');
    let d = number::decimal(octet(ip, 2) as nat).push('.');
    lemma_push_lacks(number::decimal(octet(ip, 0) as nat), '.', c);
    lemma_push_lacks(number::decimal(octet(ip, 1) as nat), '.', c);
    lemma_push_lacks(number::decimal(octet(ip, 2) as nat), '.', c);
    lemma_joined_lacks(a, b, c);
    lemma_joined_lacks(a + b, d, c);
    lemma_joined_lacks(a + b + d, number::decimal(octet(ip, 3) as nat), c);
}

proof fn lemma_push_lacks(s: Seq<char>, x: char, c: char)
    requires
        !s.contains(c),
        x != c,
    ensures
        !s.push(x).contains(c),
{
    if s.push(x).contains(c) {
        let k = s.push(x).index_of(c);
        assert(s[k] == c);
    }
}

proof fn lemma_joined_lacks(a: Seq<char>, b: Seq<char>, c: char)
    requires
        !a.contains(c),
        !b.contains(c),
    ensures
        !(a + b).contains(c),
{
    if (a + b).contains(c) {
        let k = (a + b).index_of(c);
        if k < a.len() {
            assert(a[k] == c);
        } else {
            assert(b[k - a.len()] == c);
        }
    }
}

/// The written form of a version 4 address holds no dash, and is not that of another.
pub proof fn law_addr_text_distinct(ip: u32, port: u16, other_ip: u32, other_port: u16)
    ensures
        !addr_text(SocketAddr::V4 { ip, port }).contains('-'),
        addr_text(SocketAddr::V4 { ip, port }) == addr_text(
            SocketAddr::V4 { ip: other_ip, port: other_port },
        ) ==> ip == other_ip && port == other_port,
{
    let a = ipv4_text(ip);
    let b = ipv4_text(other_ip);
    let p = number::decimal(port as nat);
    let q = number::decimal(other_port as nat);
    lemma_ipv4_text_lacks(ip, '-');
    lemma_ipv4_text_lacks(ip, ':');
    lemma_ipv4_text_lacks(other_ip, ':');
    lemma_decimal_form(port as nat, '-');
    lemma_decimal_form(port as nat, ':');
    lemma_decimal_form(other_port as nat, ':');
    lemma_push_lacks(a, ':', '-');
    lemma_joined_lacks(a.push(':'), p, '-');
    chars::lemma_pieces_joined(a, p, ':');
    chars::lemma_pieces_joined(b, q, ':');
    chars::lemma_pieces_plain(a, ':');
    chars::lemma_pieces_plain(b, ':');
    chars::lemma_pieces_plain(p, ':');
    chars::lemma_pieces_plain(q, ':');
    if a.push(':') + p == b.push(':') + q {
        assert((seq![a] + seq![p])[0] == (seq![b] + seq![q])[0]);
        assert((seq![a] + seq![p])[1] == (seq![b] + seq![q])[1]);
        law_ipv4_round_trip(ip);
        law_ipv4_round_trip(other_ip);
    }
}

} // verus!
