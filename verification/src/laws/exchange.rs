//! What goes out to a peer, and what the peer makes of it.
use crate::ipmsg_core::event::EventView;
use crate::ipmsg_core::file_table;
use crate::ipmsg_core::inbound;
use crate::ipmsg_core::packet;
use crate::ipmsg_core::serve;
use crate::ipmsg_core::serve::{ServeError, ServeJob};
use crate::ipmsg_core::service;
use crate::ipmsg_core::service::{Datagram, Service, UserInfo};
use crate::ipmsg_core::text;
use crate::ipmsg_core::text::TextEncoding;
use crate::ipmsg_core::transfer;
use crate::ipmsg_core::transfer::{FileReceiver, FileSender, Incomplete, Next, Radix};
use crate::laws::arrivals;
use crate::laws::offers;
use crate::laws::serving;
use crate::laws::texts;
use crate::net;
use crate::net::{NetSettings, SocketAddr};
use crate::number;
use vstd::prelude::*;

verus! {

/// The names of the sender can stand in a packet.
pub open spec fn sendable_names(sender: Service) -> bool {
    !sender.user.username@.contains(':') && !sender.user.hostname@.contains(':')
}

/// The number of the packet after this one: one more, and 1 after the highest.
pub open spec fn number_after(n: u32) -> int {
    if n >= 0x7fff_ffff {
        1
    } else {
        n + 1
    }
}

proof fn lemma_packet(sender: Service, receiver: Service, command: u32, extra: Seq<char>)
    requires
        sendable_names(sender),
        offers::reads_back(
            receiver,
            sender.text_encoding,
            sender.next_bytes(command, extra),
        ),
    ensures
        inbound::carries(
            sender,
            receiver,
            command,
            extra,
            sender.next_bytes(command, extra),
        ),
        arrivals::holds(
            receiver,
            sender.next_bytes(command, extra),
            sender.next_packet(command, extra),
        ),
{
    let p = sender.next_packet(command, extra);
    packet::law_packet_text_round_trip(p);
    assert(text::encoded(sender.text_encoding, packet::packet_text(p)) == sender.next_bytes(
        command,
        extra,
    ));
}

/// A text that the user sends goes to the peer that they chose, arrives there with their
/// name, and is confirmed under the number that was noted for it. The next packet has the
/// next number.
pub proof fn law_text_reaches_peer(
    service: &mut Service,
    to: SocketAddr,
    message: String,
    r: (u32, Datagram),
    receiver: Service,
    from: SocketAddr,
)
    requires
        old(service).wf(),
        call_ensures(service::send_message, (service, to, message), r),
        sendable_names(*old(service)),
        offers::reads_back(receiver, old(service).text_encoding, r.1.bytes@),
        !message@.contains('\0'),
        receiver.net.allows(from),
        !receiver.seen@.contains((from.spec_ip(), r.0)),
    ensures
        r.1.to == to,
        inbound::inbound_events(receiver, r.1.bytes@, from) == seq![
            EventView::Message {
                from,
                user: old(service).user.username@,
                host: old(service).user.hostname@,
                text: message@,
            },
        ],
        inbound::inbound_replies(receiver, r.1.bytes@) == seq![
            receiver.next_bytes(0x21, number::decimal(r.0 as nat)),
        ],
        final(service).packet_no_seq == number_after(r.0),
        *final(service) == (Service { packet_no_seq: final(service).packet_no_seq, ..*old(service) }),
{
    lemma_packet(*old(service), receiver, 0x120, message@);
    inbound::law_message_arrives(*old(service), receiver, message@, r.1.bytes@, from);
}

/// The confirmation of a message tells its sender the number of that message.
pub proof fn law_confirmation_reaches_peer(
    service: &mut Service,
    n: u32,
    to: SocketAddr,
    r: Datagram,
    receiver: Service,
    from: SocketAddr,
)
    requires
        old(service).wf(),
        call_ensures(service::send_recvmsg, (service, n, to), r),
        sendable_names(*old(service)),
        offers::reads_back(receiver, old(service).text_encoding, r.bytes@),
        receiver.net.allows(from),
    ensures
        r.to == to,
        inbound::inbound_events(receiver, r.bytes@, from) == seq![
            EventView::Delivered { from, packet_no: n },
        ],
        inbound::inbound_replies(receiver, r.bytes@).len() == 0,
        final(service).packet_no_seq == number_after(old(service).packet_no_seq),
        *final(service) == (Service { packet_no_seq: final(service).packet_no_seq, ..*old(service) }),
{
    lemma_packet(*old(service), receiver, 0x21, number::decimal(n as nat));
    inbound::law_confirmation_arrives(*old(service), receiver, n, r.bytes@, from);
}

/// That a sealed message was read is told under the number of the message, by a packet of
/// its own kind.
pub proof fn law_reading_is_reported(
    service: &mut Service,
    n: u32,
    to: SocketAddr,
    r: Datagram,
    receiver: Service,
)
    requires
        old(service).wf(),
        call_ensures(service::send_readmsg, (service, n, to), r),
        sendable_names(*old(service)),
        offers::reads_back(receiver, old(service).text_encoding, r.bytes@),
    ensures
        r.to == to,
        arrivals::holds(
            receiver,
            r.bytes@,
            packet::PacketView {
                version: 1,
                packet_no: old(service).packet_no_seq,
                username: old(service).user.username@,
                hostname: old(service).user.hostname@,
                command: 0x30,
                extra: number::decimal(n as nat),
            },
        ),
        final(service).packet_no_seq == number_after(old(service).packet_no_seq),
{
    lemma_packet(*old(service), receiver, 0x30, number::decimal(n as nat));
}

/// The user is known by their name and their group.
pub open spec fn can_be_named(sender: Service) -> bool {
    &&& sendable_names(sender)
    &&& !sender.user.username@.contains('\0')
    &&& !sender.user.group@.contains('\0')
    &&& packet::clean_name(sender.user.username@).len() > 0
}

/// What tells a peer that the sender is online.
pub open spec fn brings_online(
    receiver: Service,
    data: Seq<u8>,
    from: SocketAddr,
    sender: Service,
) -> bool {
    inbound::inbound_events(receiver, data, from) == seq![
        EventView::Online {
            user: packet::clean_name(sender.user.username@),
            group: packet::clean_name(sender.user.group@),
            host: sender.user.hostname@,
            addr: from,
        },
    ]
}

/// An announcement goes to the broadcast address and brings the user online with every
/// peer, under their name and group; the answer to it goes to the one peer, and does the
/// same there. Only the announcement is answered.
pub proof fn law_entry_reaches_peers(
    service: &mut Service,
    announced: Datagram,
    other: &mut Service,
    to: SocketAddr,
    answered: Datagram,
    receiver: Service,
    from: SocketAddr,
)
    requires
        old(service).wf(),
        call_ensures(service::send_broadcast_entry, (service,), announced),
        old(other).wf(),
        call_ensures(service::send_ansentry, (other, to), answered),
        can_be_named(*old(service)),
        can_be_named(*old(other)),
        offers::reads_back(receiver, old(service).text_encoding, announced.bytes@),
        offers::reads_back(receiver, old(other).text_encoding, answered.bytes@),
        receiver.net.allows(from),
    ensures
        announced.to == old(service).net.broadcast_addr(),
        brings_online(receiver, announced.bytes@, from, *old(service)),
        inbound::inbound_replies(receiver, announced.bytes@) == seq![
            receiver.next_bytes(3, receiver.user_extra()),
        ],
        answered.to == to,
        brings_online(receiver, answered.bytes@, from, *old(other)),
        inbound::inbound_replies(receiver, answered.bytes@).len() == 0,
        final(service).packet_no_seq == number_after(old(service).packet_no_seq),
        final(other).packet_no_seq == number_after(old(other).packet_no_seq),
{
    let a = *old(service);
    let b = *old(other);
    lemma_packet(a, receiver, 1, a.user_extra());
    inbound::law_announcement_arrives(a, receiver, announced.bytes@, from);
    lemma_packet(b, receiver, 3, b.user_extra());
    let p = b.next_packet(3, b.user_extra());
    service::law_entry_round_trip(b, b.user.username@);
    assert(3u32 & 0xff == 3) by (bit_vector);
    assert(inbound::inbound_events(receiver, answered.bytes@, from) =~= seq![
        EventView::Online {
            user: packet::clean_name(b.user.username@),
            group: packet::clean_name(b.user.group@),
            host: b.user.hostname@,
            addr: from,
        },
    ]);
}

/// A leave takes the user offline with every peer where it is broadcast, and with the one
/// peer where it goes to that one.
pub proof fn law_leave_reaches_peers(
    service: &mut Service,
    r: Datagram,
    other: &mut Service,
    to: SocketAddr,
    s: Datagram,
    receiver: Service,
    from: SocketAddr,
)
    requires
        old(service).wf(),
        call_ensures(service::send_exit, (service,), r),
        old(other).wf(),
        call_ensures(service::send_exit_to, (other, to), s),
        sendable_names(*old(service)),
        sendable_names(*old(other)),
        offers::reads_back(receiver, old(service).text_encoding, r.bytes@),
        offers::reads_back(receiver, old(other).text_encoding, s.bytes@),
        receiver.net.allows(from),
    ensures
        r.to == old(service).net.broadcast_addr(),
        s.to == to,
        inbound::inbound_events(receiver, r.bytes@, from) == seq![
            EventView::Offline {
                user: old(service).user.username@,
                host: old(service).user.hostname@,
                addr: from,
            },
        ],
        inbound::inbound_events(receiver, s.bytes@, from) == seq![
            EventView::Offline {
                user: old(other).user.username@,
                host: old(other).user.hostname@,
                addr: from,
            },
        ],
        inbound::inbound_replies(receiver, r.bytes@).len() == 0,
        inbound::inbound_replies(receiver, s.bytes@).len() == 0,
        final(service).packet_no_seq == number_after(old(service).packet_no_seq),
        final(other).packet_no_seq == number_after(old(other).packet_no_seq),
{
    let a = *old(service);
    let b = *old(other);
    lemma_packet(a, receiver, 2, a.user_extra());
    inbound::law_leave_arrives(a, receiver, r.bytes@, from);
    lemma_packet(b, receiver, 2, b.user_extra());
    inbound::law_leave_arrives(b, receiver, s.bytes@, from);
}

/// Besides the nickname and the group, an entry states the same once more in named fields,
/// with the host and the mark of this run of the client.
#[verifier::spinoff_prover]
#[verifier::rlimit(80)]
pub proof fn law_entry_fields(service: &Service, r: String)
    requires
        call_ensures(service::build_user_extra, (service,), r),
        !service.user.username@.contains('\0'),
        !service.user.group@.contains('\0'),
        !service.user.hostname@.contains('\0'),
        !service.ext_id@.contains('\0'),
    ensures
        r@ == texts::joined(
            seq![
                service.user.username@,
                service.user.group@,
                seq!['U', 'N', ':'] + service.user.username@ + seq!['-', '<'] + service.ext_id@
                    + seq!['>'],
                seq!['H', 'N', ':'] + service.user.hostname@,
                seq!['N', 'N', ':'] + service.user.username@,
                seq!['G', 'N', ':'] + service.user.group@,
                "VS:00010002:5:7:2"@,
            ],
            '\0',
        ),
{
    let user = service.user.username@;
    let group = service.user.group@;
    let host = service.user.hostname@;
    let ext = service.ext_id@;
    reveal_strlit("UN:");
    reveal_strlit("-<");
    reveal_strlit(">\0HN:");
    reveal_strlit("\0NN:");
    reveal_strlit("\0GN:");
    reveal_strlit("\0VS:00010002:5:7:2");
    reveal_strlit("VS:00010002:5:7:2");
    let c = seq!['U', 'N', ':'] + user + seq!['-', '<'] + ext + seq!['>'];
    let d = seq!['H', 'N', ':'] + host;
    let e = seq!['N', 'N', ':'] + user;
    let f = seq!['G', 'N', ':'] + group;
    let g = "VS:00010002:5:7:2"@;
    let all = seq![user, group, c, d, e, f, g];
    assert(all.skip(1) =~= seq![group, c, d, e, f, g]);
    assert(all.skip(1).skip(1) =~= seq![c, d, e, f, g]);
    assert(all.skip(1).skip(1).skip(1) =~= seq![d, e, f, g]);
    assert(all.skip(1).skip(1).skip(1).skip(1) =~= seq![e, f, g]);
    assert(all.skip(1).skip(1).skip(1).skip(1).skip(1) =~= seq![f, g]);
    assert(all.skip(1).skip(1).skip(1).skip(1).skip(1).skip(1) =~= seq![g]);
    reveal_with_fuel(texts::joined, 8);
    let front = user.push('\0') + group.push('\0') + "UN:"@ + user + "-<"@ + ext;
    assert("UN:"@ =~= seq!['U', 'N', ':']);
    assert("-<"@ =~= seq!['-', '<']);
    assert(">\0HN:"@ =~= seq!['>'].push('\0') + seq!['H', 'N', ':']);
    assert("\0NN:"@ =~= seq!['\0'] + seq!['N', 'N', ':']);
    assert("\0GN:"@ =~= seq!['\0'] + seq!['G', 'N', ':']);
    assert("\0VS:00010002:5:7:2"@ =~= seq!['\0'] + g);
    assert(texts::joined(all, '\0') =~= service.user_extra());
}

/// A client that starts knows its user and its network, has nothing on offer, has seen no
/// message, and begins with the number 1. Its mark is its start in sixteen hexadecimal
/// digits.
pub proof fn law_fresh_client(
    encoding: TextEncoding,
    user: UserInfo,
    started: u64,
    settings: NetSettings,
    r: Service,
)
    requires
        user.fits(),
        call_ensures(Service::new, (encoding, user, started, settings), r),
    ensures
        r.wf(),
        r.text_encoding == encoding,
        r.user == user,
        r.net == settings,
        r.packet_no_seq == 1,
        forall|k: (u32, u32)| !#[trigger] r.files@.contains_key(k),
        r.seen@.len() == 0,
        forall|peer: SocketAddr, n: u32, id: u32| !#[trigger] serving::stopped(r, peer, n, id),
        r.ext_id@.len() == 16,
        number::number_in(r.ext_id@, 16) == Some(started as nat),
{
    lemma_sixteen_digits(started);
}

proof fn lemma_sixteen_digits(n: u64)
    ensures
        number::padded(n as nat, 16).len() == 16,
        number::number_in(number::padded(n as nat, 16), 16) == Some(n as nat),
{
    let h = number::hexadecimal(n as nat);
    number::law_number_round_trip(n as nat, 16);
    number::lemma_digits_plain(n as nat, 16);
    assert(h.len() <= 16) by {
        reveal_with_fuel(number::digits, 17);
    }
    let k = (16 - h.len()) as nat;
    let zeros = Seq::new(k, |i: int| '0');
    lemma_zeros(k, h);
    assert(number::padded(n as nat, 16) =~= zeros + h);
    assert((zeros + h)[0] != '+');
}

proof fn lemma_zeros(k: nat, s: Seq<char>)
    ensures
        number::value_of(Seq::new(k, |i: int| '0') + s, 16) == number::value_of(s, 16),
    decreases k + s.len(),
{
    let zeros = Seq::new(k, |i: int| '0');
    if s.len() > 0 {
        lemma_zeros(k, s.drop_last());
        assert((zeros + s).drop_last() =~= zeros + s.drop_last());
    } else {
        assert(zeros + s =~= zeros);
        if k > 0 {
            let fewer = Seq::new((k - 1) as nat, |i: int| '0');
            lemma_zeros((k - 1) as nat, Seq::empty());
            assert(zeros.drop_last() =~= fewer + Seq::<char>::empty());
            assert(s =~= Seq::<char>::empty());
            assert(number::value_of(s, 16) == Some(0nat));
        }
    }
}

/// A new name or group, and a new encoding, hold from the next packet on; nothing else
/// about the client changes.
pub proof fn law_client_renamed(
    service: &mut Service,
    name: &str,
    group: &str,
    other: &mut Service,
    encoding: TextEncoding,
)
    requires
        call_ensures(service::set_user_info, (service, name, group), ()),
        call_ensures(service::set_text_encoding, (other, encoding), ()),
    ensures
        final(service).user.username@ == name@,
        final(service).user.group@ == group@,
        final(service).user.hostname == old(service).user.hostname,
        final(service).files == old(service).files,
        final(service).seen == old(service).seen,
        final(service).packet_no_seq == old(service).packet_no_seq,
        final(service).net == old(service).net,
        final(service).text_encoding == old(service).text_encoding,
        final(other).text_encoding == encoding,
        final(other).user == old(other).user,
        final(other).files == old(other).files,
        final(other).seen == old(other).seen,
        final(other).packet_no_seq == old(other).packet_no_seq,
        final(other).net == old(other).net,
{
}

/// Packet numbers are given out one after the other, so that two in a row differ.
pub proof fn law_numbers_given_out(first: &mut Service, m: u32, then: &mut Service, n: u32)
    requires
        old(first).wf(),
        call_ensures(service::now_millis, (first,), m),
        *old(then) == *final(first),
        call_ensures(service::now_millis, (then,), n),
    ensures
        m == old(first).packet_no_seq,
        n == number_after(m),
        m != n,
        final(first).files == old(first).files,
        final(first).user == old(first).user,
{
}

/// A request for a file, or a folder, that was offered to this peer is served with it, from
/// its beginning. A request in hexadecimal is always understood; one in decimal is where
/// its numbers mean nothing else that is on offer.
pub proof fn law_request_reaches_offer(
    requester: &mut Service,
    packet_no: u32,
    file_id: u32,
    is_dir: bool,
    radix: Radix,
    data: Vec<u8>,
    server: &mut Service,
    bytes: &[u8],
    peer: SocketAddr,
    r: Result<Option<ServeJob>, ServeError>,
)
    requires
        old(requester).wf(),
        is_dir ==> radix == Radix::Hex,
        !is_dir ==> call_ensures(
            transfer::file_request,
            (requester, packet_no, file_id, radix),
            data,
        ),
        is_dir ==> call_ensures(transfer::folder_request, (requester, packet_no, file_id), data),
        sendable_names(*old(requester)),
        bytes@ == data@,
        data@.len() > 0,
        offers::reads_back(*old(server), old(requester).text_encoding, data@),
        old(server).wf(),
        call_ensures(serve::handle_tcp_file, (server, bytes, peer), r),
        old(server).files@.contains_key((packet_no, file_id)),
        old(server).files@[(packet_no, file_id)].to == peer.spec_ip(),
        old(server).files@[(packet_no, file_id)].is_dir == is_dir,
        !serving::stopped(*old(server), peer, packet_no, file_id),
        radix == Radix::Decimal ==> forall|k: (u32, u32)|
            #![trigger old(server).files@.contains_key(k)]
            old(server).files@.contains_key(k) && file_table::readings(
                number::decimal(packet_no as nat),
            ).contains(k.0) && file_table::readings(number::decimal(file_id as nat)).contains(k.1)
                ==> k == (packet_no, file_id),
    ensures
        r is Ok,
        r->Ok_0 is Some,
        r->Ok_0->0.to == peer,
        r->Ok_0->0.packet_no == packet_no,
        r->Ok_0->0.file_id == file_id,
        r->Ok_0->0.is_dir == is_dir,
        r->Ok_0->0.offset == 0,
        r->Ok_0->0.path == old(server).files@[(packet_no, file_id)].path,
        final(requester).packet_no_seq == number_after(old(requester).packet_no_seq),
{
    let a = *old(requester);
    let base: nat = if radix == Radix::Hex {
        16
    } else {
        10
    };
    let no = number::digits(packet_no as nat, base);
    let id = number::digits(file_id as nat, base);
    let zero = seq!['0'];
    let extra = transfer::request_text(packet_no, file_id, radix);
    let command: u32 = if is_dir {
        0x62
    } else {
        0x60
    };
    lemma_packet(a, *old(server), command, extra);
    let parts = seq![no, id, zero] + Seq::<Seq<char>>::empty();
    assert(parts =~= seq![no, id, zero]);
    assert(parts.skip(1) =~= seq![id, zero]);
    assert(parts.skip(1).skip(1) =~= seq![zero]);
    reveal_with_fuel(texts::joined, 4);
    assert(texts::joined(parts, ':') =~= extra);
    crate::ipmsg_core::offer::lemma_digits_lack(packet_no as nat, base);
    crate::ipmsg_core::offer::lemma_digits_lack(file_id as nat, base);
    assert(!zero.contains(':')) by {
        if zero.contains(':') {
            let k = zero.index_of(':');
            assert(zero[k] == ':');
        }
    }
    assert(texts::none_holds(parts, ':'));
    if radix == Radix::Hex {
        file_table::law_hex_echo(old(server).files@, packet_no, file_id);
    } else {
        file_table::law_decimal_echo(old(server).files@, packet_no, file_id);
    }
    assert(file_table::requested(old(server).files@, no, id) == Some((packet_no, file_id)));
    reveal_with_fuel(number::digits, 2);
    assert(number::decimal(0) =~= zero);
    crate::ipmsg_core::offer::lemma_decimal_read(0, u64::MAX as nat);
    serving::law_request_served(
        server,
        bytes,
        peer,
        a.next_packet(command, extra),
        no,
        id,
        zero,
        Seq::empty(),
        r,
    );
}

/// A download that fails is tried once more with the numbers in decimal, and then given
/// up; one that succeeds is not tried again.
pub proof fn law_download_tried_again(
    succeeded: bool,
    first: Next,
    second: Next,
)
    requires
        call_ensures(transfer::after_attempt, (Radix::Hex, succeeded), first),
        call_ensures(transfer::after_attempt, (Radix::Decimal, succeeded), second),
    ensures
        succeeded ==> first == Next::Done && second == Next::Done,
        !succeeded ==> first == Next::Retry(Radix::Decimal) && second == Next::GiveUp,
{
}

/// A download counts every byte that comes. It is over once as many came as were stated, and
/// then it is complete, with all bytes counted; where fewer came it is not, and it is told
/// how many. Where no size was stated, every length is complete.
pub proof fn law_download_counted(
    expected: u64,
    fresh: FileReceiver,
    receiver: &mut FileReceiver,
    n: usize,
    over: bool,
    r: Result<u64, Incomplete>,
)
    requires
        call_ensures(FileReceiver::new, (expected,), fresh),
        old(receiver).expected == fresh.expected,
        old(receiver).total + n <= u64::MAX,
        call_ensures(FileReceiver::take, (receiver, n), over),
        call_ensures(FileReceiver::finish, (final(receiver),), r),
    ensures
        fresh.expected == expected,
        fresh.total == 0,
        final(receiver).total == old(receiver).total + n,
        final(receiver).expected == expected,
        over <==> expected > 0 && old(receiver).total + n >= expected,
        over || expected == 0 ==> r is Ok && r->Ok_0 == old(receiver).total + n,
        !over && expected > 0 ==> r is Err && r->Err_0.expected == expected && r->Err_0.got
            == old(receiver).total + n,
{
}

/// An upload is complete once as many bytes went out as the file has.
pub proof fn law_upload_counted(
    size: u64,
    fresh: FileSender,
    sender: &mut FileSender,
    n: usize,
    over: bool,
)
    requires
        call_ensures(FileSender::new, (size,), fresh),
        old(sender).size == fresh.size,
        old(sender).sent + n <= u64::MAX,
        call_ensures(FileSender::sent, (sender, n), over),
    ensures
        fresh.sent == 0,
        final(sender).sent == old(sender).sent + n,
        final(sender).size == size,
        over <==> old(sender).sent + n >= size,
{
}

/// A text is encoded as UTF-8 or as GB18030, as was set, and read back as it was by who uses
/// the same encoding, where that has all its characters and it does not begin like a byte
/// order mark.
pub proof fn law_texts_encoded(
    s: &str,
    encoding: TextEncoding,
    r: Vec<u8>,
    bytes: &[u8],
    back: String,
)
    requires
        call_ensures(text::encode_text, (encoding, s), r),
        bytes@ == r@,
        call_ensures(text::decode_text, (encoding, bytes), back),
    ensures
        encoding == TextEncoding::Utf8 ==> r@ == vstd::utf8::encode_utf8(s@) && back@
            == text::utf8_text(r@),
        encoding == TextEncoding::Gb18030 ==> r@ == text::gb18030_bytes(s@) && back@
            == text::gb18030_text(r@),
        text::lossless(encoding, s@) && text::unmarked(s@, r@) ==> back@ == s@,
        s@.len() > 0 && (s@[0] as u32) < 0x80 ==> r@.len() > 0 && r@[0] == s@[0] as u8,
{
    assert(text::encoded(encoding, s@) == bytes@);
}

/// What comes in is answered to where it came from, with one packet number for each answer,
/// and nothing about the client changes but these numbers and what it remembers of messages.
pub proof fn law_answers_go_back(
    service: &mut Service,
    data: &[u8],
    from: SocketAddr,
    r: inbound::Inbound,
    i: int,
)
    requires
        old(service).wf(),
        call_ensures(inbound::handle_udp_packet, (service, data, from), r),
    ensures
        r.replies@.len() == inbound::inbound_replies(*old(service), data@).len(),
        0 <= i < r.replies@.len() ==> r.replies@[i].to == from && r.replies@[i].bytes@
            == inbound::inbound_replies(*old(service), data@)[i],
        r.events@.len() == inbound::inbound_events(*old(service), data@, from).len(),
        0 <= i < r.events@.len() ==> r.events@[i]@ == inbound::inbound_events(
            *old(service),
            data@,
            from,
        )[i],
        r.replies@.len() == 0 ==> final(service).packet_no_seq == old(service).packet_no_seq,
        r.replies@.len() == 1 ==> final(service).packet_no_seq == number_after(
            old(service).packet_no_seq,
        ),
        r.replies@.len() <= 2,
        final(service).seen@ == inbound::inbound_seen(*old(service), data@, from),
        final(service).files == old(service).files,
        final(service).cancels == old(service).cancels,
        final(service).user == old(service).user,
        final(service).net == old(service).net,
        final(service).text_encoding == old(service).text_encoding,
{
    reveal_with_fuel(service::later_packet_no, 3);
    let replies = inbound::reply_bytes(r.replies@);
    let events = crate::ipmsg_core::event::event_views(r.events@);
    assert(replies.len() == r.replies@.len());
    assert(events.len() == r.events@.len());
    if 0 <= i < r.replies@.len() {
        assert(replies[i] == r.replies@[i].bytes@);
    }
    if 0 <= i < r.events@.len() {
        assert(events[i] == r.events@[i]@);
    }
}

} // verus!
