//! Packets that come in: what the user is told of them, and what is answered.
use crate::chars;
use crate::ipmsg_core::event::EventView;
use crate::ipmsg_core::inbound;
use crate::ipmsg_core::offer;
use crate::ipmsg_core::packet;
use crate::ipmsg_core::packet::{PacketError, PacketView};
use crate::ipmsg_core::service;
use crate::ipmsg_core::service::Service;
use crate::ipmsg_core::text;
use crate::laws::texts;
use crate::net::SocketAddr;
use crate::number;
use vstd::prelude::*;

verus! {

/// The bytes are this packet.
pub open spec fn holds(service: Service, data: Seq<u8>, p: PacketView) -> bool {
    packet::packet_in(text::decoded(service.text_encoding, data)) == Ok::<PacketView, PacketError>(p)
}

/// The bit of a command that counts this much is set.
pub open spec fn bit_set(command: u32, weight: u32) -> bool {
    (command / weight) % 2 == 1
}

/// The first null character stands here, or the text ends here and holds none.
pub open spec fn null_at(s: Seq<char>, n: int) -> bool {
    &&& 0 <= n <= s.len()
    &&& forall|i: int| 0 <= i < n ==> s[i] != '\0'
    &&& n == s.len() || s[n] == '\0'
}

proof fn lemma_bits(c: u32)
    ensures
        inbound::base_of(c) == c % 256,
        inbound::has_option(c, 0x100) <==> bit_set(c, 0x100),
        inbound::has_option(c, 0x200) <==> bit_set(c, 0x200),
        inbound::has_option(c, 0x20_0000) <==> bit_set(c, 0x20_0000),
        inbound::has_option(c, 0x40_0000) <==> bit_set(c, 0x40_0000),
{
    assert(c & 0xff == c % 256) by (bit_vector);
    assert(c & 0x100 != 0 <==> (c / 0x100) % 2 == 1) by (bit_vector);
    assert(c & 0x200 != 0 <==> (c / 0x200) % 2 == 1) by (bit_vector);
    assert(c & 0x20_0000 != 0 <==> (c / 0x20_0000) % 2 == 1) by (bit_vector);
    assert(c & 0x40_0000 != 0 <==> (c / 0x40_0000) % 2 == 1) by (bit_vector);
}

proof fn lemma_main_part(extra: Seq<char>, n: int)
    requires
        null_at(extra, n),
    ensures
        packet::main_part(extra) == extra.take(n),
{
    texts::lemma_first_piece(extra, '\0');
    let p = packet::main_part(extra);
    if p.len() < n {
        assert(extra[p.len() as int] != '\0');
    } else if n < p.len() {
        assert(p[n] == '\0');
    }
}

/// A packet is what the first five colons part: a version, a number, the names of the
/// sender and of their host, and a command; all behind them is its last field, whatever
/// it holds. The numbers are decimal, with or without white space around them. A version
/// that is none counts as zero; a packet without a number or without a command is none,
/// nor is a text with fewer fields; only the last field may be missing.
pub proof fn law_packet_fields(
    version: Seq<char>,
    no: Seq<char>,
    user: Seq<char>,
    host: Seq<char>,
    command: Seq<char>,
    extra: Seq<char>,
)
    requires
        texts::none_holds(seq![version, no, user, host, command], ':'),
    ensures
        ({
            let whole = packet::packet_in(
                texts::joined(seq![version, no, user, host, command, extra], ':'),
            );
            let bare = packet::packet_in(texts::joined(seq![version, no, user, host, command], ':'));
            let read = |s: Seq<char>| number::u32_in(chars::trimmed(s), 10);
            &&& read(no) is None ==> whole == Err::<PacketView, PacketError>(
                PacketError::BadPacketNo,
            ) && bare == Err::<PacketView, PacketError>(PacketError::BadPacketNo)
            &&& read(no) is Some && read(command) is None ==> whole == Err::<
                PacketView,
                PacketError,
            >(PacketError::BadCommand) && bare == Err::<PacketView, PacketError>(
                PacketError::BadCommand,
            )
            &&& read(no) is Some && read(command) is Some ==> {
                &&& whole is Ok
                &&& whole->Ok_0.packet_no == read(no)->0
                &&& whole->Ok_0.command == read(command)->0
                &&& whole->Ok_0.version == if read(version) is Some {
                    read(version)->0
                } else {
                    0
                }
                &&& whole->Ok_0.username == user
                &&& whole->Ok_0.hostname == host
                &&& whole->Ok_0.extra == extra
                &&& bare == Ok::<PacketView, PacketError>(
                    PacketView { extra: Seq::empty(), ..whole->Ok_0 },
                )
            }
        }),
        packet::packet_in(texts::joined(seq![version, no, user, host], ':')) == Err::<
            PacketView,
            PacketError,
        >(PacketError::TooFewFields),
        packet::packet_in(texts::joined(seq![version, no, user], ':')) == Err::<
            PacketView,
            PacketError,
        >(PacketError::TooFewFields),
        packet::packet_in(texts::joined(seq![version, no], ':')) == Err::<PacketView, PacketError>(
            PacketError::TooFewFields,
        ),
        packet::packet_in(version) == Err::<PacketView, PacketError>(PacketError::TooFewFields),
{
    let five = seq![version, no, user, host, command];
    assert(five[0] == version && five[1] == no && five[2] == user && five[3] == host && five[4]
        == command);
    assert(!version.contains(':') && !no.contains(':') && !user.contains(':') && !host.contains(':')
        && !command.contains(':'));
    let none = Seq::<Seq<char>>::empty();
    texts::law_first_parts(five, extra, 6, ':');
    assert(five.push(extra) =~= seq![version, no, user, host, command, extra]);
    let four = seq![version, no, user, host];
    assert(texts::none_holds(four, ':'));
    texts::law_first_parts(four, command, 6, ':');
    assert(four.push(command) =~= five);
    let three = seq![version, no, user];
    assert(texts::none_holds(three, ':'));
    texts::law_first_parts(three, host, 6, ':');
    assert(three.push(host) =~= four);
    let two = seq![version, no];
    assert(texts::none_holds(two, ':'));
    texts::law_first_parts(two, user, 6, ':');
    assert(two.push(user) =~= three);
    let one = seq![version];
    assert(texts::none_holds(one, ':'));
    texts::law_first_parts(one, no, 6, ':');
    assert(one.push(no) =~= two);
    texts::law_first_parts(none, version, 6, ':');
    assert(none.push(version) =~= one);
    assert(texts::joined(one, ':') == version);
}

/// A message from a heeded peer that is not remembered is told as it was sent: with the
/// names in its packet, and with all that stands before the first null character as its
/// text, whether or not it is to be confirmed, sealed or offers files. Only where it is
/// encrypted is a notice shown instead. Where no files are attached, nothing else is told;
/// where some are, each is told as an offer of the same sender and the same packet.
pub proof fn law_message_told(
    service: Service,
    data: Seq<u8>,
    from: SocketAddr,
    p: PacketView,
    n: int,
)
    requires
        holds(service, data, p),
        p.command % 256 == 0x20,
        service.net.allows(from),
        !service.seen@.contains((from.spec_ip(), p.packet_no)),
        null_at(p.extra, n),
    ensures
        ({
            let events = inbound::inbound_events(service, data, from);
            &&& events.len() >= 1
            &&& events[0] is Message
            &&& events[0]->Message_from == from
            &&& events[0]->Message_user == p.username
            &&& events[0]->Message_host == p.hostname
            &&& !bit_set(p.command, 0x40_0000) ==> events[0]->text == p.extra.take(n)
            &&& bit_set(p.command, 0x40_0000) ==> events[0]->text == "[加密消息，暂不支持解密]"@
            &&& !bit_set(p.command, 0x20_0000) ==> events.len() == 1
            &&& forall|i: int|
                1 <= i < events.len() ==> {
                    let e = #[trigger] events[i];
                    &&& e is FileOffer
                    &&& e->FileOffer_from == from
                    &&& e->FileOffer_user == p.username
                    &&& e->FileOffer_host == p.hostname
                    &&& e->FileOffer_packet_no == p.packet_no
                }
        }),
{
    lemma_bits(p.command);
    lemma_main_part(p.extra, n);
}

/// The files that a message offers are told in the order in which they stand in it, each
/// with its number, name, size and kind, if the packet says that there are any.
pub proof fn law_offers_told(
    service: Service,
    data: Seq<u8>,
    from: SocketAddr,
    p: PacketView,
    i: int,
)
    requires
        holds(service, data, p),
        p.command % 256 == 0x20,
        bit_set(p.command, 0x20_0000),
        service.net.allows(from),
        !service.seen@.contains((from.spec_ip(), p.packet_no)),
    ensures
        ({
            let offered = offer::offers_in(packet::further_parts(p.extra));
            let events = inbound::inbound_events(service, data, from);
            &&& events.len() == 1 + offered.len()
            &&& 0 <= i < offered.len() ==> {
                &&& events[1 + i] is FileOffer
                &&& events[1 + i]->FileOffer_file_id == offered[i].file_id
                &&& events[1 + i]->name == offered[i].name
                &&& events[1 + i]->size == offered[i].size
                &&& events[1 + i]->FileOffer_is_dir == offered[i].is_dir
            }
        }),
{
    lemma_bits(p.command);
}

/// A message is answered as its packet asks, whoever sent it and whether or not it came
/// before: it is confirmed where the sender waits for that, and said to be read where it is
/// sealed, in that order and under the number of the message. It is remembered by the host
/// and the number.
pub proof fn law_message_answered(
    service: Service,
    data: Seq<u8>,
    from: SocketAddr,
    p: PacketView,
)
    requires
        holds(service, data, p),
        p.command % 256 == 0x20,
    ensures
        ({
            let n = number::decimal(p.packet_no as nat);
            let replies = inbound::inbound_replies(service, data);
            let check = bit_set(p.command, 0x100);
            let sealed = bit_set(p.command, 0x200);
            &&& replies.len() == (if check {
                1int
            } else {
                0
            }) + (if sealed {
                1int
            } else {
                0
            })
            &&& check ==> replies[0] == service.next_bytes(0x21, n)
            &&& sealed && !check ==> replies[0] == service.next_bytes(0x30, n)
            &&& sealed && check ==> replies[1] == service.advanced().next_bytes(0x30, n)
        }),
        ({
            let key = (from.spec_ip(), p.packet_no);
            let seen = inbound::inbound_seen(service, data, from);
            &&& seen.contains(key)
            &&& service.seen@.contains(key) ==> seen == service.seen@
            &&& !service.seen@.contains(key) && service.seen@.len() <= 10000 ==> seen
                == service.seen@.push(key)
            &&& !service.seen@.contains(key) && service.seen@.len() > 10000 ==> seen == seq![key]
        }),
{
    lemma_bits(p.command);
    let key = (from.spec_ip(), p.packet_no);
    if !service.seen@.contains(key) {
        if service.seen@.len() <= 10000 {
            assert(service.seen@.push(key).last() == key);
        } else {
            assert(seq![key][0] == key);
        }
    }
}

/// An announcement and the answer to one both bring their sender online, under the nickname
/// and in the group that stand in front in the last field, cleaned; without a nickname
/// under the user name. An announcement is answered with the user's own entry; an answer
/// is not.
pub proof fn law_entry_told(
    service: Service,
    data: Seq<u8>,
    from: SocketAddr,
    p: PacketView,
    nick: Seq<char>,
    group: Seq<char>,
    rest: Seq<Seq<char>>,
)
    requires
        holds(service, data, p),
        p.command % 256 == 1 || p.command % 256 == 3,
        service.net.allows(from),
        texts::none_holds(seq![nick, group] + rest, '\0'),
        p.extra == texts::joined(seq![nick, group] + rest, '\0'),
    ensures
        ({
            let events = inbound::inbound_events(service, data, from);
            let shown = chars::trimmed(chars::printable(nick));
            &&& events.len() == 1
            &&& events[0] is Online
            &&& events[0]->Online_addr == from
            &&& events[0]->Online_host == p.hostname
            &&& shown.len() > 0 ==> events[0]->Online_user == shown
            &&& shown.len() == 0 ==> events[0]->Online_user == p.username
            &&& events[0]->group == chars::trimmed(chars::printable(group))
        }),
        p.command % 256 == 1 ==> inbound::inbound_replies(service, data) == seq![
            service.next_bytes(3, service.user_extra()),
        ],
        p.command % 256 == 3 ==> inbound::inbound_replies(service, data).len() == 0,
        inbound::inbound_seen(service, data, from) == service.seen@,
{
    lemma_bits(p.command);
    let parts = seq![nick, group] + rest;
    texts::law_parting(parts, '\0');
    assert(parts[0] == nick && parts[1] == group);
}

/// An entry whose last field holds no null character states no group.
pub proof fn law_entry_without_group(
    service: Service,
    data: Seq<u8>,
    from: SocketAddr,
    p: PacketView,
)
    requires
        holds(service, data, p),
        p.command % 256 == 1 || p.command % 256 == 3,
        service.net.allows(from),
        !p.extra.contains('\0'),
    ensures
        ({
            let events = inbound::inbound_events(service, data, from);
            let shown = chars::trimmed(chars::printable(p.extra));
            &&& events.len() == 1
            &&& events[0] is Online
            &&& events[0]->Online_addr == from
            &&& events[0]->Online_host == p.hostname
            &&& shown.len() > 0 ==> events[0]->Online_user == shown
            &&& shown.len() == 0 ==> events[0]->Online_user == p.username
            &&& events[0]->group.len() == 0
        }),
{
    lemma_bits(p.command);
    chars::lemma_pieces_plain(p.extra, '\0');
}

/// The answer to an announcement brings its sender online under the name and the group
/// that they have set, as an announcement of theirs does, and is itself not answered.
pub proof fn law_answer_arrives(
    sender: Service,
    receiver: Service,
    data: Seq<u8>,
    from: SocketAddr,
    announced: Seq<u8>,
)
    requires
        inbound::carries(sender, receiver, 3, sender.user_extra(), data),
        inbound::carries(sender, receiver, 1, sender.user_extra(), announced),
        !sender.user.username@.contains('\0'),
        !sender.user.group@.contains('\0'),
        packet::clean_name(sender.user.username@).len() > 0,
        receiver.net.allows(from),
    ensures
        inbound::inbound_events(receiver, data, from) == seq![
            EventView::Online {
                user: packet::clean_name(sender.user.username@),
                group: packet::clean_name(sender.user.group@),
                host: sender.user.hostname@,
                addr: from,
            },
        ],
        inbound::inbound_events(receiver, data, from) == inbound::inbound_events(
            receiver,
            announced,
            from,
        ),
        inbound::inbound_replies(receiver, data).len() == 0,
        inbound::inbound_replies(receiver, announced).len() == 1,
{
    lemma_bits(3);
    lemma_bits(1);
    packet::law_packet_text_round_trip(sender.next_packet(3, sender.user_extra()));
    packet::law_packet_text_round_trip(sender.next_packet(1, sender.user_extra()));
    service::law_entry_round_trip(sender, sender.user.username@);
    assert(inbound::inbound_events(receiver, data, from) =~= inbound::inbound_events(
        receiver,
        announced,
        from,
    ));
}

/// A leave takes its sender offline, and is not answered.
pub proof fn law_leave_told(service: Service, data: Seq<u8>, from: SocketAddr, p: PacketView)
    requires
        holds(service, data, p),
        p.command % 256 == 2,
        service.net.allows(from),
    ensures
        ({
            let events = inbound::inbound_events(service, data, from);
            &&& events.len() == 1
            &&& events[0] is Offline
            &&& events[0]->Offline_addr == from
            &&& events[0]->Offline_user == p.username
            &&& events[0]->Offline_host == p.hostname
        }),
        inbound::inbound_replies(service, data).len() == 0,
        inbound::inbound_seen(service, data, from) == service.seen@,
{
    lemma_bits(p.command);
}

/// A confirmation tells the number that stands before the first null character of its last
/// field, decimal or not, and nothing that stands elsewhere in the packet.
pub proof fn law_confirmation_told(
    service: Service,
    data: Seq<u8>,
    from: SocketAddr,
    p: PacketView,
    n: int,
)
    requires
        holds(service, data, p),
        p.command % 256 == 0x21,
        service.net.allows(from),
        null_at(p.extra, n),
    ensures
        ({
            let events = inbound::inbound_events(service, data, from);
            &&& events.len() == 1
            &&& events[0] is Delivered
            &&& events[0]->Delivered_from == from
            &&& events[0]->Delivered_packet_no == number::auto_radix(
                p.extra.take(n),
                0xffff_ffff,
            )
        }),
        inbound::inbound_replies(service, data).len() == 0,
        inbound::inbound_seen(service, data, from) == service.seen@,
{
    lemma_bits(p.command);
    lemma_main_part(p.extra, n);
    assert(number::auto_radix(p.extra.take(n), u32::MAX as nat) <= u32::MAX);
}

/// An empty operation tells nothing. All other packets, and bytes that are no packet, are
/// shown as they are. None of them is answered or remembered.
pub proof fn law_other_packets(service: Service, data: Seq<u8>, from: SocketAddr)
    requires
        service.net.allows(from),
    ensures
        ({
            let read = packet::packet_in(text::decoded(service.text_encoding, data));
            let events = inbound::inbound_events(service, data, from);
            let base = read->Ok_0.command % 256;
            &&& read is Err || !(base == 0 || base == 1 || base == 2 || base == 3 || base == 0x20
                || base == 0x21) ==> {
                &&& events == seq![EventView::Unknown { from, raw: inbound::lossy_text(data) }]
                &&& inbound::inbound_replies(service, data).len() == 0
                &&& inbound::inbound_seen(service, data, from) == service.seen@
            }
            &&& read is Ok && base == 0 ==> {
                &&& events.len() == 0
                &&& inbound::inbound_replies(service, data).len() == 0
                &&& inbound::inbound_seen(service, data, from) == service.seen@
            }
        }),
{
    if let Ok(p) = packet::packet_in(text::decoded(service.text_encoding, data)) {
        lemma_bits(p.command);
    }
}

/// A packet is written as its six fields with colons between them, its numbers in decimal.
pub proof fn law_packet_written(p: PacketView)
    ensures
        packet::packet_text(p) == texts::joined(
            seq![
                number::decimal(p.version as nat),
                number::decimal(p.packet_no as nat),
                p.username,
                p.hostname,
                number::decimal(p.command as nat),
                p.extra,
            ],
            ':',
        ),
{
    let a = number::decimal(p.version as nat);
    let b = number::decimal(p.packet_no as nat);
    let e = number::decimal(p.command as nat);
    let all = seq![a, b, p.username, p.hostname, e, p.extra];
    assert(all.skip(1) =~= seq![b, p.username, p.hostname, e, p.extra]);
    assert(all.skip(1).skip(1) =~= seq![p.username, p.hostname, e, p.extra]);
    assert(all.skip(1).skip(1).skip(1) =~= seq![p.hostname, e, p.extra]);
    assert(all.skip(1).skip(1).skip(1).skip(1) =~= seq![e, p.extra]);
    assert(all.skip(1).skip(1).skip(1).skip(1).skip(1) =~= seq![p.extra]);
    reveal_with_fuel(texts::joined, 7);
}

} // verus!
