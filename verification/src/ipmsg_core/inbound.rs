//! Packets that come in.
use crate::chars;
use crate::ipmsg_core::event;
use crate::ipmsg_core::event::Event;
use crate::ipmsg_core::offer;
use crate::ipmsg_core::offer::parse_offers;
use crate::ipmsg_core::packet;
use crate::ipmsg_core::packet::{parse_entry_extra, parse_packet, split_extra, Packet};
use crate::ipmsg_core::protocol::{
    IPMSG_ANSENTRY, IPMSG_BR_ENTRY, IPMSG_BR_EXIT, IPMSG_ENCRYPTOPT, IPMSG_FILEATTACHOPT,
    IPMSG_NOOPERATION, IPMSG_READMSG, IPMSG_RECVMSG, IPMSG_SECRETOPT, IPMSG_SENDCHECKOPT,
    IPMSG_SENDMSG,
};
use crate::ipmsg_core::service;
use crate::ipmsg_core::service::{send_ansentry, send_readmsg, send_recvmsg, Datagram, Service};
use crate::ipmsg_core::text;
use crate::net::{addr_allowed, IpAddr, SocketAddr};
use crate::number;
use crate::number::parse_u32_auto_radix;
use vstd::prelude::*;

verus! {

/// How many messages are remembered before all are forgotten.
pub const MAX_SEEN: usize = 10000;

/// What is shown in place of an encrypted message.
pub const ENCRYPTED_TEXT: &'static str = "[加密消息，暂不支持解密]";

/// The text that bytes are shown as where they are no packet.
pub uninterp spec fn lossy_text(bytes: Seq<u8>) -> Seq<char>;

/// `String::from_utf8_lossy`. The result is a function of the bytes. Valid UTF-8 is
/// kept; what is not is replaced.
#[verifier::external_body]
fn from_utf8_lossy(bytes: &[u8]) -> (r: String)
    ensures
        r@ == lossy_text(bytes@),
        vstd::utf8::valid_utf8(bytes@) ==> r@ == vstd::utf8::decode_utf8(bytes@),
{
    String::from_utf8_lossy(bytes).into_owned()
}

/// What a command does.
pub open spec fn base_of(command: u32) -> u32 {
    command & 0xff
}

/// A command has an option.
pub open spec fn has_option(command: u32, option: u32) -> bool {
    command & option != 0
}

/// The messages remembered after one more.
pub open spec fn seen_with(seen: Seq<(IpAddr, u32)>, key: (IpAddr, u32)) -> Seq<(IpAddr, u32)> {
    if seen.contains(key) {
        seen
    } else if seen.len() > MAX_SEEN {
        seq![key]
    } else {
        seen.push(key)
    }
}

/// The text of a message as it is shown.
pub open spec fn shown_text(p: packet::PacketView) -> Seq<char> {
    if has_option(p.command, IPMSG_ENCRYPTOPT) {
        ENCRYPTED_TEXT@
    } else {
        packet::main_part(p.extra)
    }
}

pub open spec fn offer_event(p: packet::PacketView, from: SocketAddr, o: offer::OfferView)
    -> event::EventView {
    event::EventView::FileOffer {
        from,
        user: p.username,
        host: p.hostname,
        packet_no: p.packet_no,
        file_id: o.file_id,
        name: o.name,
        size: o.size,
        is_dir: o.is_dir,
    }
}

/// The events of a message: the message, then the files that it offers.
pub open spec fn message_events(p: packet::PacketView, from: SocketAddr) -> Seq<
    event::EventView,
> {
    let message = event::EventView::Message {
        from,
        user: p.username,
        host: p.hostname,
        text: shown_text(p),
    };
    let offers = if has_option(p.command, IPMSG_FILEATTACHOPT) {
        offer::offers_in(packet::further_parts(p.extra)).map_values(
            |o: offer::OfferView| offer_event(p, from, o),
        )
    } else {
        Seq::empty()
    };
    seq![message] + offers
}

/// What tells the rest of the client about a packet from a heeded peer. A message
/// that came before is passed over.
pub open spec fn packet_events(
    seen: Seq<(IpAddr, u32)>,
    p: packet::PacketView,
    from: SocketAddr,
    data: Seq<u8>,
) -> Seq<event::EventView> {
    let base = base_of(p.command);
    if base == IPMSG_BR_ENTRY || base == IPMSG_ANSENTRY {
        seq![
            event::EventView::Online {
                user: packet::entry_nick(p.username, p.extra),
                group: packet::entry_group(p.extra),
                host: p.hostname,
                addr: from,
            },
        ]
    } else if base == IPMSG_BR_EXIT {
        seq![event::EventView::Offline { user: p.username, host: p.hostname, addr: from }]
    } else if base == IPMSG_SENDMSG {
        if seen.contains((from.spec_ip(), p.packet_no)) {
            Seq::empty()
        } else {
            message_events(p, from)
        }
    } else if base == IPMSG_RECVMSG {
        seq![
            event::EventView::Delivered {
                from,
                packet_no: number::auto_radix(packet::main_part(p.extra), u32::MAX as nat) as u32,
            },
        ]
    } else if base == IPMSG_NOOPERATION {
        Seq::empty()
    } else {
        seq![event::EventView::Unknown { from, raw: lossy_text(data) }]
    }
}

/// What tells the rest of the client about bytes that came in.
pub open spec fn inbound_events(service: Service, data: Seq<u8>, from: SocketAddr) -> Seq<
    event::EventView,
> {
    if !service.net.allows(from) {
        Seq::empty()
    } else {
        match packet::packet_in(text::decoded(service.text_encoding, data)) {
            Ok(p) => packet_events(service.seen@, p, from, data),
            Err(_) => seq![event::EventView::Unknown { from, raw: lossy_text(data) }],
        }
    }
}

/// The packets that answer a packet: an announcement is answered; a message is
/// confirmed where that is asked for, and said to be read where it is sealed,
/// also if it came before.
pub open spec fn packet_replies(service: Service, p: packet::PacketView) -> Seq<Seq<u8>> {
    let base = base_of(p.command);
    let n = number::decimal(p.packet_no as nat);
    if base == IPMSG_BR_ENTRY {
        seq![service.next_bytes(IPMSG_ANSENTRY, service.user_extra())]
    } else if base == IPMSG_SENDMSG {
        match (
            has_option(p.command, IPMSG_SENDCHECKOPT),
            has_option(p.command, IPMSG_SECRETOPT),
        ) {
            (false, false) => Seq::empty(),
            (true, false) => seq![service.next_bytes(IPMSG_RECVMSG, n)],
            (false, true) => seq![service.next_bytes(IPMSG_READMSG, n)],
            (true, true) => seq![
                service.next_bytes(IPMSG_RECVMSG, n),
                service.advanced().next_bytes(IPMSG_READMSG, n),
            ],
        }
    } else {
        Seq::empty()
    }
}

/// The packets that answer bytes that came in.
pub open spec fn inbound_replies(service: Service, data: Seq<u8>) -> Seq<Seq<u8>> {
    match packet::packet_in(text::decoded(service.text_encoding, data)) {
        Ok(p) => packet_replies(service, p),
        Err(_) => Seq::empty(),
    }
}

/// The messages remembered after bytes came in.
pub open spec fn inbound_seen(service: Service, data: Seq<u8>, from: SocketAddr) -> Seq<
    (IpAddr, u32),
> {
    match packet::packet_in(text::decoded(service.text_encoding, data)) {
        Ok(p) => if base_of(p.command) == IPMSG_SENDMSG {
            seen_with(service.seen@, (from.spec_ip(), p.packet_no))
        } else {
            service.seen@
        },
        Err(_) => service.seen@,
    }
}

/// What is to be done about bytes that came in: events, then packets to send.
#[derive(Debug)]
pub struct Inbound {
    pub events: Vec<Event>,
    pub replies: Vec<Datagram>,
}

pub open spec fn reply_bytes(replies: Seq<Datagram>) -> Seq<Seq<u8>> {
    replies.map_values(|d: Datagram| d.bytes@)
}

fn is_seen(seen: &Vec<(IpAddr, u32)>, key: (IpAddr, u32)) -> (r: bool)
    ensures
        r == seen@.contains(key),
{
    let mut i: usize = 0;
    while i < seen.len()
        invariant
            i <= seen@.len(),
            forall|k: int| 0 <= k < i ==> seen@[k] != key,
        decreases seen@.len() - i,
    {
        if seen[i].0 == key.0 && seen[i].1 == key.1 {
            assert(seen@[i as int] == key);
            return true;
        }
        i += 1;
    }
    false
}

fn events_of_message(p: &Packet, from: SocketAddr) -> (r: Vec<Event>)
    ensures
        event::event_views(r@) == message_events(p@, from),
{
    let (main, further) = split_extra(p.extra.as_str());
    let text = if p.command & IPMSG_ENCRYPTOPT != 0 {
        ENCRYPTED_TEXT.to_owned()
    } else {
        main
    };
    let mut events: Vec<Event> = Vec::new();
    events.push(
        Event::Message { from, user: p.username.clone(), host: p.hostname.clone(), text },
    );
    let ghost message = event::event_views(events@);
    assert(message =~= seq![
        event::EventView::Message {
            from,
            user: p@.username,
            host: p@.hostname,
            text: shown_text(p@),
        },
    ]);
    if p.command & IPMSG_FILEATTACHOPT != 0 {
        let offers = parse_offers(&further);
        let ghost f = |o: offer::OfferView| offer_event(p@, from, o);
        let ghost all = offer::offer_views(offers@);
        let mut i: usize = 0;
        assert(event::event_views(events@) =~= message + all.take(0).map_values(f));
        while i < offers.len()
            invariant
                i <= offers@.len(),
                all == offer::offer_views(offers@),
                f == (|o: offer::OfferView| offer_event(p@, from, o)),
                event::event_views(events@) == message + all.take(i as int).map_values(f),
            decreases offers@.len() - i,
        {
            let o = &offers[i];
            let ghost before = events@;
            events.push(
                Event::FileOffer {
                    from,
                    user: p.username.clone(),
                    host: p.hostname.clone(),
                    packet_no: p.packet_no,
                    file_id: o.file_id,
                    name: o.name.clone(),
                    size: o.size,
                    is_dir: o.is_dir,
                },
            );
            proof {
                let last = events@.last()@;
                assert(last == f(all[i as int]));
                assert(event::event_views(events@) =~= event::event_views(before).push(last));
                assert(all.take(i + 1).map_values(f) =~= all.take(i as int).map_values(f).push(
                    last,
                ));
                assert(message + all.take(i + 1).map_values(f) =~= (message + all.take(
                    i as int,
                ).map_values(f)).push(last));
            }
            i += 1;
        }
        assert(all.take(i as int) =~= all);
    } else {
        assert(event::event_views(events@) =~= message_events(p@, from));
    }
    events
}

fn one_event(e: Event) -> (r: Vec<Event>)
    ensures
        event::event_views(r@) == seq![e@],
{
    let r: Vec<Event> = vec![e];
    assert(event::event_views(r@) =~= seq![e@]);
    r
}

/// Acts on the bytes of a packet that came in. A packet whose characters the encoding
/// has is read as it was written.
pub fn handle_udp_packet(service: &mut Service, data: &[u8], from: SocketAddr) -> (r: Inbound)
    requires
        old(service).wf(),
        data@.len() <= text::MAX_TEXT,
    ensures
        final(service).wf(),
        event::event_views(r.events@) == inbound_events(*old(service), data@, from),
        reply_bytes(r.replies@) == inbound_replies(*old(service), data@),
        forall|i: int| 0 <= i < r.replies@.len() ==> (#[trigger] r.replies@[i]).to == from,
        final(service).packet_no_seq == service::later_packet_no(
            old(service).packet_no_seq,
            r.replies@.len(),
        ),
        final(service).seen@ == inbound_seen(*old(service), data@, from),
        *final(service) == (Service {
            packet_no_seq: final(service).packet_no_seq,
            seen: final(service).seen,
            ..*old(service)
        }),
        forall|p: packet::PacketView|
            #![trigger text::encoded(old(service).text_encoding, packet::packet_text(p))]
            data@ == text::encoded(old(service).text_encoding, packet::packet_text(p))
                && packet::well_parted(p) && text::lossless(
                old(service).text_encoding,
                packet::packet_text(p),
            ) ==> text::decoded(old(service).text_encoding, data@) == packet::packet_text(p),
{
    let allowed = addr_allowed(&service.net, &from);
    let mut events: Vec<Event> = Vec::new();
    let mut replies: Vec<Datagram> = Vec::new();
    assert(event::event_views(events@) =~= Seq::<event::EventView>::empty());
    assert(reply_bytes(replies@) =~= Seq::<Seq<u8>>::empty());
    let p = match parse_packet(service.text_encoding, data) {
        Ok(p) => p,
        Err(_) => {
            if allowed {
                events = one_event(Event::Unknown { from, raw: from_utf8_lossy(data) });
            }
            return Inbound { events, replies };
        },
    };
    let base: u32 = p.command & 0xff;
    if base == IPMSG_BR_ENTRY || base == IPMSG_ANSENTRY {
        if allowed {
            let (user, group) = parse_entry_extra(p.username.as_str(), p.extra.as_str());
            events = one_event(Event::Online { user, group, host: p.hostname, addr: from });
        }
        if base == IPMSG_BR_ENTRY {
            replies.push(send_ansentry(service, from));
            assert(reply_bytes(replies@) =~= inbound_replies(*old(service), data@));
            proof {
                reveal_with_fuel(service::later_packet_no, 2);
            }
        }
    } else if base == IPMSG_BR_EXIT {
        if allowed {
            events = one_event(
                Event::Offline { user: p.username, host: p.hostname, addr: from },
            );
        }
    } else if base == IPMSG_SENDMSG {
        let key = (from.ip(), p.packet_no);
        if !is_seen(&service.seen, key) {
            if service.seen.len() > MAX_SEEN {
                service.seen.clear();
            }
            service.seen.push(key);
            assert(service.seen@ =~= seen_with(old(service).seen@, key));
            if allowed {
                events = events_of_message(&p, from);
            }
        }
        if p.command & IPMSG_SENDCHECKOPT != 0 {
            replies.push(send_recvmsg(service, p.packet_no, from));
        }
        if p.command & IPMSG_SECRETOPT != 0 {
            replies.push(send_readmsg(service, p.packet_no, from));
        }
        assert(reply_bytes(replies@) =~= inbound_replies(*old(service), data@));
        proof {
            reveal_with_fuel(service::later_packet_no, 3);
        }
    } else if base == IPMSG_RECVMSG {
        if allowed {
            let (main, _) = split_extra(p.extra.as_str());
            events = one_event(
                Event::Delivered { from, packet_no: parse_u32_auto_radix(main.as_str()) },
            );
        }
    } else if base != IPMSG_NOOPERATION {
        if allowed {
            events = one_event(Event::Unknown { from, raw: from_utf8_lossy(data) });
        }
    }
    Inbound { events, replies }
}

/// The bytes are the next packet of a sender, as the receiver's encoding reads
/// them. So they are where both use the same encoding and it has all characters
/// of the packet, as `handle_udp_packet` and `handle_tcp_file` state.
pub open spec fn carries(
    sender: Service,
    receiver: Service,
    command: u32,
    extra: Seq<char>,
    data: Seq<u8>,
) -> bool {
    &&& text::decoded(receiver.text_encoding, data) == packet::packet_text(
        sender.next_packet(command, extra),
    )
    &&& packet::well_parted(sender.next_packet(command, extra))
}

/// From peers that are not heeded no event comes, whatever they send.
pub proof fn law_unheeded_is_silent(service: Service, data: Seq<u8>, from: SocketAddr)
    requires
        !service.net.allows(from),
    ensures
        inbound_events(service, data, from).len() == 0,
{
}

/// Never are many more messages remembered than `MAX_SEEN`, and none twice.
pub proof fn law_seen_bounded(service: Service, data: Seq<u8>, from: SocketAddr)
    requires
        service.seen@.len() <= MAX_SEEN + 1,
        service.seen@.no_duplicates(),
    ensures
        inbound_seen(service, data, from).len() <= MAX_SEEN + 1,
        inbound_seen(service, data, from).no_duplicates(),
{
}

/// A message is remembered by its host and its number. As long as it is, a message from
/// the same host with the same number, whatever else it holds, is confirmed as it asks
/// but gives no event.
pub proof fn law_duplicate_message(
    first: Service,
    data: Seq<u8>,
    from: SocketAddr,
    p: packet::PacketView,
    later: Service,
    again: Seq<u8>,
    from_again: SocketAddr,
    q: packet::PacketView,
)
    requires
        packet::packet_in(text::decoded(first.text_encoding, data)) == Ok::<
            packet::PacketView,
            packet::PacketError,
        >(p),
        packet::packet_in(text::decoded(later.text_encoding, again)) == Ok::<
            packet::PacketView,
            packet::PacketError,
        >(q),
        base_of(p.command) == IPMSG_SENDMSG,
        base_of(q.command) == IPMSG_SENDMSG,
        from_again.spec_ip() == from.spec_ip(),
        q.packet_no == p.packet_no,
    ensures
        inbound_seen(first, data, from).contains((from.spec_ip(), p.packet_no)),
        later.seen@.contains((from.spec_ip(), p.packet_no)) ==> {
            &&& inbound_events(later, again, from_again).len() == 0
            &&& inbound_replies(later, again) == packet_replies(later, q)
            &&& inbound_seen(later, again, from_again) == later.seen@
        },
{
    let key = (from.spec_ip(), p.packet_no);
    let seen = seen_with(first.seen@, key);
    if !first.seen@.contains(key) {
        assert(seen.last() == key);
    }
    assert(seen.contains(key));
}

/// A message that is sent arrives with its text, and is confirmed under its
/// number.
pub proof fn law_message_arrives(
    sender: Service,
    receiver: Service,
    message: Seq<char>,
    data: Seq<u8>,
    from: SocketAddr,
)
    requires
        carries(
            sender,
            receiver,
            (IPMSG_SENDMSG + IPMSG_SENDCHECKOPT) as u32,
            message,
            data,
        ),
        !message.contains('\0'),
        receiver.net.allows(from),
        !receiver.seen@.contains((from.spec_ip(), sender.packet_no_seq)),
    ensures
        inbound_events(receiver, data, from) == seq![
            event::EventView::Message {
                from,
                user: sender.user.username@,
                host: sender.user.hostname@,
                text: message,
            },
        ],
        inbound_replies(receiver, data) == seq![
            receiver.next_bytes(IPMSG_RECVMSG, number::decimal(sender.packet_no_seq as nat)),
        ],
{
    let p = sender.next_packet((IPMSG_SENDMSG + IPMSG_SENDCHECKOPT) as u32, message);
    packet::law_packet_text_round_trip(p);
    assert(0x120u32 & 0xff == 0x20) by (bit_vector);
    assert(0x120u32 & 0x40_0000 == 0) by (bit_vector);
    assert(0x120u32 & 0x20_0000 == 0) by (bit_vector);
    assert(0x120u32 & 0x100 != 0) by (bit_vector);
    assert(0x120u32 & 0x200 == 0) by (bit_vector);
    chars::lemma_pieces_plain(message, '\0');
    assert(inbound_events(receiver, data, from) =~= seq![
        event::EventView::Message {
            from,
            user: sender.user.username@,
            host: sender.user.hostname@,
            text: message,
        },
    ]);
}

/// A confirmation names the message that it confirms, and is not answered.
pub proof fn law_confirmation_arrives(
    sender: Service,
    receiver: Service,
    n: u32,
    data: Seq<u8>,
    from: SocketAddr,
)
    requires
        carries(sender, receiver, IPMSG_RECVMSG, number::decimal(n as nat), data),
        receiver.net.allows(from),
    ensures
        inbound_events(receiver, data, from) == seq![
            event::EventView::Delivered { from, packet_no: n },
        ],
        inbound_replies(receiver, data).len() == 0,
{
    let s = number::decimal(n as nat);
    packet::law_packet_text_round_trip(sender.next_packet(IPMSG_RECVMSG, s));
    assert(0x21u32 & 0xff == 0x21) by (bit_vector);
    offer::lemma_digits_lack(n as nat, 10);
    chars::lemma_pieces_plain(s, '\0');
    offer::lemma_decimal_read(n as nat, u32::MAX as nat);
}

/// An announcement brings the user online under the name and group they have set,
/// and is answered.
pub proof fn law_announcement_arrives(
    sender: Service,
    receiver: Service,
    data: Seq<u8>,
    from: SocketAddr,
)
    requires
        carries(sender, receiver, IPMSG_BR_ENTRY, sender.user_extra(), data),
        !sender.user.username@.contains('\0'),
        !sender.user.group@.contains('\0'),
        packet::clean_name(sender.user.username@).len() > 0,
        receiver.net.allows(from),
    ensures
        inbound_events(receiver, data, from) == seq![
            event::EventView::Online {
                user: packet::clean_name(sender.user.username@),
                group: packet::clean_name(sender.user.group@),
                host: sender.user.hostname@,
                addr: from,
            },
        ],
        inbound_replies(receiver, data) == seq![
            receiver.next_bytes(IPMSG_ANSENTRY, receiver.user_extra()),
        ],
{
    let p = sender.next_packet(IPMSG_BR_ENTRY, sender.user_extra());
    packet::law_packet_text_round_trip(p);
    assert(0x1u32 & 0xff == 0x1) by (bit_vector);
    service::law_entry_round_trip(sender, sender.user.username@);
}

/// A peer that takes leave goes offline.
pub proof fn law_leave_arrives(
    sender: Service,
    receiver: Service,
    data: Seq<u8>,
    from: SocketAddr,
)
    requires
        carries(sender, receiver, IPMSG_BR_EXIT, sender.user_extra(), data),
        receiver.net.allows(from),
    ensures
        inbound_events(receiver, data, from) == seq![
            event::EventView::Offline {
                user: sender.user.username@,
                host: sender.user.hostname@,
                addr: from,
            },
        ],
        inbound_replies(receiver, data).len() == 0,
{
    let p = sender.next_packet(IPMSG_BR_EXIT, sender.user_extra());
    packet::law_packet_text_round_trip(p);
    assert(0x2u32 & 0xff == 0x2) by (bit_vector);
}

/// Files that are offered arrive as offers, each under its number with its name and
/// size, behind the text of the message.
pub proof fn law_offers_arrive(
    sender: Service,
    receiver: Service,
    message: Seq<char>,
    list: Seq<(offer::OfferView, u64)>,
    data: Seq<u8>,
    from: SocketAddr,
)
    requires
        carries(
            sender,
            receiver,
            (IPMSG_SENDMSG + IPMSG_SENDCHECKOPT + IPMSG_FILEATTACHOPT) as u32,
            message.push('\0') + offer::offers_text(list),
            data,
        ),
        !message.contains('\0'),
        forall|i: int|
            0 <= i < list.len() ==> offer::carriable((#[trigger] list[i]).0.name),
        receiver.net.allows(from),
        !receiver.seen@.contains((from.spec_ip(), sender.packet_no_seq)),
    ensures
        ({
            let p = sender.next_packet(
                (IPMSG_SENDMSG + IPMSG_SENDCHECKOPT + IPMSG_FILEATTACHOPT) as u32,
                message.push('\0') + offer::offers_text(list),
            );
            inbound_events(receiver, data, from) == seq![
                event::EventView::Message {
                    from,
                    user: sender.user.username@,
                    host: sender.user.hostname@,
                    text: message,
                },
            ] + list.map_values(|o: (offer::OfferView, u64)| offer_event(p, from, o.0))
        }),
        inbound_replies(receiver, data) == seq![
            receiver.next_bytes(IPMSG_RECVMSG, number::decimal(sender.packet_no_seq as nat)),
        ],
{
    let p = sender.next_packet(
        (IPMSG_SENDMSG + IPMSG_SENDCHECKOPT + IPMSG_FILEATTACHOPT) as u32,
        message.push('\0') + offer::offers_text(list),
    );
    packet::law_packet_text_round_trip(p);
    assert(0x20_0120u32 & 0xff == 0x20) by (bit_vector);
    assert(0x20_0120u32 & 0x40_0000 == 0) by (bit_vector);
    assert(0x20_0120u32 & 0x20_0000 != 0) by (bit_vector);
    assert(0x20_0120u32 & 0x100 != 0) by (bit_vector);
    assert(0x20_0120u32 & 0x200 == 0) by (bit_vector);
    offer::law_offers_round_trip(message, list);
    assert(list.map_values(|o: (offer::OfferView, u64)| o.0).map_values(
        |o: offer::OfferView| offer_event(p, from, o),
    ) =~= list.map_values(|o: (offer::OfferView, u64)| offer_event(p, from, o.0)));
}

} // verus!
