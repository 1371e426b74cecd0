//! The state of the protocol, and the packets that go out.
use crate::chars;
use crate::chars::{push_text, to_text};
use crate::ipmsg_core::cancel::{CancelFlags, CancelKey};
use crate::ipmsg_core::file_table::FileTable;
use crate::ipmsg_core::packet;
use crate::ipmsg_core::packet::Packet;
use crate::ipmsg_core::protocol::{
    IPMSG_ANSENTRY, IPMSG_BR_ENTRY, IPMSG_BR_EXIT, IPMSG_READMSG, IPMSG_RECVMSG,
    IPMSG_SENDCHECKOPT, IPMSG_SENDMSG, VER,
};
use crate::ipmsg_core::text;
use crate::ipmsg_core::text::TextEncoding;
use crate::machine::{machine_hostname, machine_username};
use crate::net::{broadcast_target, IpAddr, NetSettings, SocketAddr};
use crate::number;
use crate::number::{push_decimal, push_padded};
use vstd::prelude::*;

verus! {

/// Who the user is to others.
#[derive(Debug, Clone)]
pub struct UserInfo {
    pub username: String,
    pub hostname: String,
    pub group: String,
}

/// The longest name that the packets have room for.
pub const MAX_NAME: usize = text::MAX_TEXT / 32;

/// The longest text that a packet has room for.
pub const MAX_EXTRA: usize = text::MAX_TEXT / 2;

impl UserInfo {
    /// The packets have room for the names.
    pub open spec fn fits(self) -> bool {
        self.username@.len() <= MAX_NAME && self.hostname@.len() <= MAX_NAME && self.group@.len()
            <= MAX_NAME
    }
}

/// The user as the machine names them.
pub fn user_info_from(username: String, hostname: Option<String>) -> (r: UserInfo)
    ensures
        r.username == username,
        r.hostname@ == match hostname {
            Some(name) => name@,
            None => "host"@,
        },
        r.group@ == Seq::<char>::empty(),
{
    let hostname = match hostname {
        Some(name) => name,
        None => "host".to_owned(),
    };
    UserInfo { username, hostname, group: String::new() }
}

/// The user as this machine names them, in no group.
pub fn default_user_info() -> (r: UserInfo)
    ensures
        r.group@ == Seq::<char>::empty(),
{
    user_info_from(machine_username(), machine_hostname())
}

/// The highest packet number. Peers read the numbers as signed ones.
pub const MAX_PACKET_NO: u32 = 0x7fff_ffff;

/// The state of the protocol.
pub struct Service {
    pub text_encoding: TextEncoding,
    pub user: UserInfo,
    /// What tells this run of the client from others.
    pub ext_id: String,
    /// The number of the next packet.
    pub packet_no_seq: u32,
    /// The files on offer.
    pub files: FileTable,
    /// The marks by which transfers are stopped.
    pub cancels: CancelFlags,
    /// The messages that came in, by sender and number.
    pub seen: Vec<(IpAddr, u32)>,
    pub net: NetSettings,
}

/// The packet number that follows.
pub open spec fn next_packet_no(n: u32) -> u32 {
    if n >= MAX_PACKET_NO {
        1
    } else {
        (n + 1) as u32
    }
}

impl Service {
    /// What holds between all operations.
    pub open spec fn wf(self) -> bool {
        &&& self.user.fits()
        &&& self.ext_id@.len() <= MAX_NAME
        &&& 1 <= self.packet_no_seq <= MAX_PACKET_NO
        &&& self.cancels.wf()
    }

    /// The state after a packet number was given out.
    pub open spec fn advanced(self) -> Service {
        Service { packet_no_seq: next_packet_no(self.packet_no_seq), ..self }
    }

    /// The next packet, with this command and this last field.
    pub open spec fn next_packet(self, command: u32, extra: Seq<char>) -> packet::PacketView {
        packet::PacketView {
            version: VER,
            packet_no: self.packet_no_seq,
            username: self.user.username@,
            hostname: self.user.hostname@,
            command,
            extra,
        }
    }

    /// The bytes of the next packet, with this command and this last field.
    pub open spec fn next_bytes(self, command: u32, extra: Seq<char>) -> Seq<u8> {
        text::encoded(self.text_encoding, packet::packet_text(self.next_packet(command, extra)))
    }

    /// What an entry packet tells about the user.
    pub open spec fn user_extra(self) -> Seq<char> {
        self.user.username@.push('\0') + self.user.group@.push('\0') + "UN:"@
            + self.user.username@ + "-<"@ + self.ext_id@ + ">\0HN:"@ + self.user.hostname@
            + "\0NN:"@ + self.user.username@ + "\0GN:"@ + self.user.group@
            + "\0VS:00010002:5:7:2"@
    }

    pub fn new(text_encoding: TextEncoding, user: UserInfo, started_nanos: u64, net: NetSettings)
        -> (r: Service)
        requires
            user.fits(),
        ensures
            r.wf(),
            r.text_encoding == text_encoding,
            r.user == user,
            r.ext_id@ == number::padded(started_nanos as nat, 16),
            r.packet_no_seq == 1,
            r.files@ == Map::<(u32, u32), crate::ipmsg_core::file_table::FileEntry>::empty(),
            r.cancels@.marks == Seq::<bool>::empty(),
            r.cancels@.current == Map::<CancelKey, nat>::empty(),
            r.seen@ == Seq::<(IpAddr, u32)>::empty(),
            r.net == net,
    {
        let mut ext_id: Vec<char> = Vec::new();
        push_padded(&mut ext_id, started_nanos, 16);
        proof {
            assert(ext_id@ =~= number::padded(started_nanos as nat, 16));
            reveal_with_fuel(number::digits, 17);
        }
        Service {
            text_encoding,
            user,
            ext_id: to_text(ext_id.as_slice()),
            packet_no_seq: 1,
            files: FileTable::new(),
            cancels: CancelFlags::new(),
            seen: Vec::new(),
            net,
        }
    }
}

/// Sets the encoding of all texts on the wire.
pub fn set_text_encoding(service: &mut Service, encoding: TextEncoding)
    ensures
        *final(service) == (Service { text_encoding: encoding, ..*old(service) }),
{
    service.text_encoding = encoding;
}

/// Sets the name and the group by which others know the user. Packets have room for
/// them if both are within `MAX_NAME`.
pub fn set_user_info(service: &mut Service, name: &str, group: &str)
    ensures
        (old(service).wf() && name@.len() <= MAX_NAME && group@.len() <= MAX_NAME)
            ==> final(service).wf(),
        final(service).user.username@ == name@,
        final(service).user.group@ == group@,
        final(service).user.hostname == old(service).user.hostname,
        *final(service) == (Service { user: final(service).user, ..*old(service) }),
{
    service.user.username = name.to_owned();
    service.user.group = group.to_owned();
}

/// Gives out a packet number. The numbers go round from 1 to `MAX_PACKET_NO`.
pub fn now_millis(service: &mut Service) -> (r: u32)
    requires
        1 <= old(service).packet_no_seq <= MAX_PACKET_NO,
    ensures
        r == old(service).packet_no_seq,
        *final(service) == old(service).advanced(),
{
    let current: u32 = service.packet_no_seq;
    service.packet_no_seq = if current >= MAX_PACKET_NO {
        1
    } else {
        current + 1
    };
    current
}

/// The packet number that is given out `k` packets after `n`.
pub open spec fn later_packet_no(n: u32, k: nat) -> u32
    decreases k,
{
    if k == 0 {
        n
    } else {
        next_packet_no(later_packet_no(n, (k - 1) as nat))
    }
}

/// Packet numbers stay within what a signed number of 32 bits holds, are never
/// zero, and do not repeat before all of them have been given out.
pub proof fn law_packet_numbers(n: u32, k: nat)
    requires
        1 <= n <= MAX_PACKET_NO,
    ensures
        1 <= later_packet_no(n, k) <= MAX_PACKET_NO,
        later_packet_no(n, k) == (n - 1 + k) % (MAX_PACKET_NO as int) + 1,
        0 < k < MAX_PACKET_NO ==> later_packet_no(n, k) != n,
    decreases k,
{
    if k > 0 {
        law_packet_numbers(n, (k - 1) as nat);
    }
}

/// What an entry packet tells about the user.
pub fn build_user_extra(service: &Service) -> (r: String)
    ensures
        r@ == service.user_extra(),
{
    let mut s: Vec<char> = Vec::new();
    let info = &service.user;
    push_text(&mut s, info.username.as_str());
    s.push('\0');
    push_text(&mut s, info.group.as_str());
    s.push('\0');
    push_text(&mut s, "UN:");
    push_text(&mut s, info.username.as_str());
    push_text(&mut s, "-<");
    push_text(&mut s, service.ext_id.as_str());
    push_text(&mut s, ">\0HN:");
    push_text(&mut s, info.hostname.as_str());
    push_text(&mut s, "\0NN:");
    push_text(&mut s, info.username.as_str());
    push_text(&mut s, "\0GN:");
    push_text(&mut s, info.group.as_str());
    push_text(&mut s, "\0VS:00010002:5:7:2");
    assert(s@ =~= service.user_extra());
    to_text(s.as_slice())
}

proof fn lemma_decimal_len(n: nat)
    requires
        n <= u32::MAX,
    ensures
        number::decimal(n).len() <= 10,
{
    reveal_with_fuel(number::digits, 11);
}

proof fn lemma_user_extra_len(service: Service)
    requires
        service.wf(),
    ensures
        service.user_extra().len() <= MAX_EXTRA,
{
    reveal_strlit("UN:");
    reveal_strlit("-<");
    reveal_strlit(">\0HN:");
    reveal_strlit("\0NN:");
    reveal_strlit("\0GN:");
    reveal_strlit("\0VS:00010002:5:7:2");
}

/// Makes the next packet, and gives its number.
pub fn make_packet(service: &mut Service, command: u32, extra: String) -> (r: (u32, Vec<u8>))
    requires
        old(service).wf(),
        extra@.len() <= MAX_EXTRA,
    ensures
        *final(service) == old(service).advanced(),
        r.0 == old(service).packet_no_seq,
        r.1@ == old(service).next_bytes(command, extra@),
{
    let username = service.user.username.clone();
    let hostname = service.user.hostname.clone();
    let packet_no: u32 = now_millis(service);
    let packet = Packet { version: VER, packet_no, username, hostname, command, extra };
    proof {
        assert(packet@ == old(service).next_packet(command, extra@));
        lemma_decimal_len(VER as nat);
        lemma_decimal_len(packet_no as nat);
        lemma_decimal_len(command as nat);
    }
    (packet_no, packet.encode(service.text_encoding))
}

/// Bytes that are sent to an address.
#[derive(Debug, Clone)]
pub struct Datagram {
    pub to: SocketAddr,
    pub bytes: Vec<u8>,
}

fn user_packet(service: &mut Service, command: u32, to: SocketAddr) -> (r: Datagram)
    requires
        old(service).wf(),
    ensures
        *final(service) == old(service).advanced(),
        r.to == to,
        r.bytes@ == old(service).next_bytes(command, old(service).user_extra()),
{
    let extra = build_user_extra(service);
    proof {
        lemma_user_extra_len(*service);
    }
    let (_, bytes) = make_packet(service, command, extra);
    Datagram { to, bytes }
}

/// Announces the user to everybody.
pub fn send_broadcast_entry(service: &mut Service) -> (r: Datagram)
    requires
        old(service).wf(),
    ensures
        *final(service) == old(service).advanced(),
        r.to == old(service).net.broadcast_addr(),
        r.bytes@ == old(service).next_bytes(IPMSG_BR_ENTRY, old(service).user_extra()),
{
    let to = broadcast_target(&service.net);
    user_packet(service, IPMSG_BR_ENTRY, to)
}

/// Takes leave of everybody.
pub fn send_exit(service: &mut Service) -> (r: Datagram)
    requires
        old(service).wf(),
    ensures
        *final(service) == old(service).advanced(),
        r.to == old(service).net.broadcast_addr(),
        r.bytes@ == old(service).next_bytes(IPMSG_BR_EXIT, old(service).user_extra()),
{
    let to = broadcast_target(&service.net);
    user_packet(service, IPMSG_BR_EXIT, to)
}

/// Takes leave of one peer.
pub fn send_exit_to(service: &mut Service, to: SocketAddr) -> (r: Datagram)
    requires
        old(service).wf(),
    ensures
        *final(service) == old(service).advanced(),
        r.to == to,
        r.bytes@ == old(service).next_bytes(IPMSG_BR_EXIT, old(service).user_extra()),
{
    user_packet(service, IPMSG_BR_EXIT, to)
}

/// Answers the announcement of a peer.
pub fn send_ansentry(service: &mut Service, to: SocketAddr) -> (r: Datagram)
    requires
        old(service).wf(),
    ensures
        *final(service) == old(service).advanced(),
        r.to == to,
        r.bytes@ == old(service).next_bytes(IPMSG_ANSENTRY, old(service).user_extra()),
{
    user_packet(service, IPMSG_ANSENTRY, to)
}

fn number_packet(service: &mut Service, command: u32, n: u32, to: SocketAddr) -> (r: Datagram)
    requires
        old(service).wf(),
    ensures
        *final(service) == old(service).advanced(),
        r.to == to,
        r.bytes@ == old(service).next_bytes(command, number::decimal(n as nat)),
{
    let mut s: Vec<char> = Vec::new();
    push_decimal(&mut s, n as u64);
    proof {
        assert(s@ =~= number::decimal(n as nat));
        lemma_decimal_len(n as nat);
    }
    let (_, bytes) = make_packet(service, command, to_text(s.as_slice()));
    Datagram { to, bytes }
}

/// Confirms that a message came in.
pub fn send_recvmsg(service: &mut Service, packet_no: u32, to: SocketAddr) -> (r: Datagram)
    requires
        old(service).wf(),
    ensures
        *final(service) == old(service).advanced(),
        r.to == to,
        r.bytes@ == old(service).next_bytes(IPMSG_RECVMSG, number::decimal(packet_no as nat)),
{
    number_packet(service, IPMSG_RECVMSG, packet_no, to)
}

/// Confirms that a sealed message was opened.
pub fn send_readmsg(service: &mut Service, packet_no: u32, to: SocketAddr) -> (r: Datagram)
    requires
        old(service).wf(),
    ensures
        *final(service) == old(service).advanced(),
        r.to == to,
        r.bytes@ == old(service).next_bytes(IPMSG_READMSG, number::decimal(packet_no as nat)),
{
    number_packet(service, IPMSG_READMSG, packet_no, to)
}

/// A message with a text. The peer echoes its number when it confirms.
pub fn send_message(service: &mut Service, to: SocketAddr, text: String) -> (r: (u32, Datagram))
    requires
        old(service).wf(),
        text@.len() <= MAX_EXTRA,
    ensures
        *final(service) == old(service).advanced(),
        r.0 == old(service).packet_no_seq,
        r.1.to == to,
        r.1.bytes@ == old(service).next_bytes(
            (IPMSG_SENDMSG + IPMSG_SENDCHECKOPT) as u32,
            text@,
        ),
{
    let (packet_no, bytes) = make_packet(service, IPMSG_SENDMSG + IPMSG_SENDCHECKOPT, text);
    (packet_no, Datagram { to, bytes })
}

/// What a peer reads from an announcement: the name and the group of the user, as
/// they are shown.
pub proof fn law_entry_round_trip(service: Service, username: Seq<char>)
    requires
        !service.user.username@.contains('\0'),
        !service.user.group@.contains('\0'),
    ensures
        packet::clean_name(service.user.username@).len() > 0 ==> packet::entry_nick(
            username,
            service.user_extra(),
        ) == packet::clean_name(service.user.username@),
        packet::entry_group(service.user_extra()) == packet::clean_name(service.user.group@),
{
    let name = service.user.username@;
    let group = service.user.group@;
    let tail = "UN:"@ + name + "-<"@ + service.ext_id@ + ">\0HN:"@ + service.user.hostname@
        + "\0NN:"@ + name + "\0GN:"@ + group + "\0VS:00010002:5:7:2"@;
    let rest = group.push('\0') + tail;
    assert(service.user_extra() =~= name.push('\0') + rest);
    chars::lemma_pieces_plain(name, '\0');
    chars::lemma_pieces_plain(group, '\0');
    chars::lemma_pieces_joined(group, tail, '\0');
    chars::lemma_pieces_joined(name, rest, '\0');
    let parts = chars::pieces(service.user_extra(), '\0');
    assert(parts =~= seq![name, group] + chars::pieces(tail, '\0'));
}

} // verus!
