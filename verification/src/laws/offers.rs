//! Offers of files and folders, from the user to the peer.
use crate::app_state::model::{ChatMessage, StateCmd};
use crate::app_state::state::{Labels, StateView};
use crate::ipmsg_core::event::EventView;
use crate::ipmsg_core::folder_sender::EntryKind;
use crate::ipmsg_core::inbound;
use crate::ipmsg_core::offer;
use crate::ipmsg_core::offer::OfferView;
use crate::ipmsg_core::offering;
use crate::ipmsg_core::offering::{FileMeta, OfferError, SentFileMeta};
use crate::ipmsg_core::packet;
use crate::ipmsg_core::protocol::{IPMSG_FILEATTACHOPT, IPMSG_SENDCHECKOPT, IPMSG_SENDMSG};
use crate::ipmsg_core::service;
use crate::ipmsg_core::service::{Datagram, Service};
use crate::ipmsg_core::text;
use crate::ipmsg_core::text::TextEncoding;
use crate::laws::texts;
use crate::laws::transfers;
use crate::logic;
use crate::net::SocketAddr;
use crate::number;
use vstd::prelude::*;

verus! {

/// The receiver reads the text that the sender wrote.
pub open spec fn reads_back(receiver: Service, written: TextEncoding, data: Seq<u8>) -> bool {
    forall|t: Seq<char>| #[trigger]
        text::encoded(written, t) == data ==> text::decoded(receiver.text_encoding, data) == t
}

/// The name under which a file or a folder is offered: its own, or a common one where it
/// has none.
pub open spec fn name_on_offer(f: FileMeta, is_dir: bool) -> Seq<char> {
    if f.name is Some {
        f.name->0@
    } else if is_dir {
        seq!['d', 'i', 'r']
    } else {
        seq!['f', 'i', 'l', 'e']
    }
}

/// A name that the offer can carry.
pub open spec fn can_be_carried(name: Seq<char>) -> bool {
    forall|i: int|
        0 <= i < name.len() ==> #[trigger] name[i] != ':' && name[i] != '\0' && name[i] != '\x07'
}

proof fn lemma_carriable(f: FileMeta, is_dir: bool)
    requires
        can_be_carried(name_on_offer(f, is_dir)),
    ensures
        offering::wire_name(f, is_dir) == name_on_offer(f, is_dir),
        offer::carriable(name_on_offer(f, is_dir)),
{
    reveal_strlit("dir");
    reveal_strlit("file");
    let name = name_on_offer(f, is_dir);
    assert("dir"@ =~= seq!['d', 'i', 'r']);
    assert("file"@ =~= seq!['f', 'i', 'l', 'e']);
    assert(offering::shown_name(f, is_dir) == name);
    if name.contains(':') {
        let k = name.index_of(':');
        assert(name[k] == ':');
    }
    if name.contains('\0') {
        let k = name.index_of('\0');
        assert(name[k] == '\0');
    }
    if name.contains('\x07') {
        let k = name.index_of('\x07');
        assert(name[k] == '\x07');
    }
    offer::law_plain_name_kept(name);
}

/// An offer stands in fields between colons: its number, its name, its size and the time of
/// the last change, both hexadecimal, and its kind, of which the lower eight bits count
/// and are two for a folder. More fields may follow; with fewer it is no offer.
pub proof fn law_offer_fields(
    id: Seq<char>,
    name: Seq<char>,
    size: Seq<char>,
    time: Seq<char>,
    kind: Seq<char>,
    rest: Seq<Seq<char>>,
)
    requires
        texts::none_holds(seq![id, name, size, time, kind] + rest, ':'),
        texts::tight(texts::joined(seq![id, name, size, time, kind] + rest, ':')),
        texts::tight(texts::joined(seq![id, name, size, time], ':')),
    ensures
        ({
            let o = offer::offer_in(texts::joined(seq![id, name, size, time, kind] + rest, ':'));
            &&& o is Some
            &&& o->0.file_id == number::auto_radix(id, 0xffff_ffff)
            &&& o->0.name == name
            &&& o->0.size == number::hex_number(size, 0xffff_ffff_ffff_ffff)
            &&& o->0.is_dir <==> number::hex_number(kind, 0xffff_ffff) % 256 == 2
        }),
        offer::offer_in(texts::joined(seq![id, name, size, time], ':')) is None,
        offer::offer_in(Seq::empty()) is None,
{
    let none = Seq::<char>::empty();
    let parts = seq![id, name, size, time, kind] + rest;
    assert(parts[0] == id && parts[1] == name && parts[2] == size && parts[3] == time && parts[4]
        == kind);
    let s = texts::joined(parts, ':');
    texts::law_parting(parts, ':');
    texts::law_trimming(none, s, none);
    assert(none + s + none =~= s);
    if s.len() == 0 {
        assert(texts::joined(parts, ':') == parts[0].push(':') + texts::joined(parts.skip(1), ':'));
    }
    let four = seq![id, name, size, time];
    assert(texts::none_holds(four, ':')) by {
        assert forall|i: int| 0 <= i < 4 implies !(#[trigger] four[i]).contains(':') by {
            assert(parts[i] == four[i]);
        }
    }
    let t = texts::joined(four, ':');
    texts::law_parting(four, ':');
    texts::law_trimming(none, t, none);
    assert(none + t + none =~= t);
    texts::law_trimming(none, none, none);
    assert(none + none + none =~= none);
    assert(number::auto_radix(id, u32::MAX as nat) <= u32::MAX);
    assert(number::hex_number(size, u64::MAX as nat) <= u64::MAX);
}

/// The offers of a message are those of its parts, one after the other, and those of a part
/// are what stands between its bell characters, one after the other; what is no offer is
/// left out.
pub proof fn law_offers_in_order(
    parts: Seq<Seq<char>>,
    items: Seq<Seq<char>>,
    item: Seq<char>,
)
    requires
        texts::none_holds(items.push(item), '\x07'),
    ensures
        offer::offers_in(Seq::empty()).len() == 0,
        offer::offers_among(Seq::empty()).len() == 0,
        offer::offers_in(parts.push(texts::joined(items.push(item), '\x07'))) == offer::offers_in(
            parts,
        ) + offer::offers_among(items.push(item)),
        offer::offer_in(item) matches Some(o) ==> offer::offers_among(items.push(item))
            == offer::offers_among(items).push(o),
        offer::offer_in(item) is None ==> offer::offers_among(items.push(item))
            == offer::offers_among(items),
{
    let all = items.push(item);
    texts::law_parting(all, '\x07');
    assert(all.drop_last() =~= items);
    assert(parts.push(texts::joined(all, '\x07')).drop_last() =~= parts);
}

/// What stands behind the text of a message are its further parts, those that are not
/// empty.
pub proof fn law_parts_behind_text(message: Seq<char>, parts: Seq<Seq<char>>)
    requires
        texts::none_holds(seq![message] + parts, '\0'),
    ensures
        packet::main_part(texts::joined(seq![message] + parts, '\0')) == message,
        packet::further_parts(texts::joined(seq![message] + parts, '\0')) == parts.filter(
            |part: Seq<char>| part.len() > 0,
        ),
{
    let all = seq![message] + parts;
    texts::law_parting(all, '\0');
    assert(all.skip(1) =~= parts);
}

/// An offer that a peer receives, as the sender made it.
pub open spec fn offered_as(
    e: EventView,
    from: SocketAddr,
    sender: Service,
    sent: SentFileMeta,
    f: FileMeta,
    is_dir: bool,
) -> bool {
    e == (EventView::FileOffer {
        from,
        user: sender.user.username@,
        host: sender.user.hostname@,
        packet_no: sent.packet_no,
        file_id: sent.file_id,
        name: name_on_offer(f, is_dir),
        size: if is_dir {
            0
        } else {
            f.size
        },
        is_dir,
    })
}

/// What was sent is on the table, for the host that it was offered to, and the sender knows
/// what it was.
pub open spec fn on_table(
    after: Service,
    to: SocketAddr,
    sent: SentFileMeta,
    f: FileMeta,
    is_dir: bool,
) -> bool {
    let key = (sent.packet_no, sent.file_id);
    &&& after.files@.contains_key(key)
    &&& after.files@[key].to == to.spec_ip()
    &&& after.files@[key].path == f.path
    &&& after.files@[key].is_dir == is_dir
    &&& !is_dir ==> after.files@[key].size == f.size
    &&& is_dir ==> after.files@[key].size == 0
    &&& sent.path == f.path
    &&& sent.is_dir == is_dir
    &&& sent.name@ == name_on_offer(f, is_dir)
    &&& !is_dir ==> sent.size == f.size
    &&& is_dir ==> sent.size == 0
    &&& 1 <= sent.file_id <= 0x7fff_ffff
}

proof fn lemma_offer_arrives(
    sender: Service,
    receiver: Service,
    message: Seq<char>,
    files: Seq<FileMeta>,
    ids: Seq<u32>,
    is_dir: bool,
    data: Seq<u8>,
    from: SocketAddr,
)
    requires
        files.len() == ids.len(),
        data == sender.next_bytes(
            offering::offer_command(),
            message.push('\0') + offer::offers_text(offering::offered(files, ids, is_dir)),
        ),
        reads_back(receiver, sender.text_encoding, data),
        !sender.user.username@.contains(':'),
        !sender.user.hostname@.contains(':'),
        !message.contains('\0'),
        forall|i: int|
            0 <= i < files.len() ==> can_be_carried(name_on_offer(#[trigger] files[i], is_dir)),
        receiver.net.allows(from),
        !receiver.seen@.contains((from.spec_ip(), sender.packet_no_seq)),
    ensures
        ({
            let events = inbound::inbound_events(receiver, data, from);
            &&& events.len() == 1 + files.len()
            &&& events[0] == (EventView::Message {
                from,
                user: sender.user.username@,
                host: sender.user.hostname@,
                text: message,
            })
            &&& forall|i: int|
                0 <= i < files.len() ==> #[trigger] events[1 + i] == (EventView::FileOffer {
                    from,
                    user: sender.user.username@,
                    host: sender.user.hostname@,
                    packet_no: sender.packet_no_seq,
                    file_id: ids[i],
                    name: name_on_offer(files[i], is_dir),
                    size: if is_dir {
                        0
                    } else {
                        files[i].size
                    },
                    is_dir,
                })
        }),
{
    let list = offering::offered(files, ids, is_dir);
    assert forall|i: int| 0 <= i < list.len() implies offer::carriable((#[trigger] list[i]).0.name)
        && list[i].0.name == name_on_offer(files[i], is_dir) by {
        assert(can_be_carried(name_on_offer(files[i], is_dir)));
        lemma_carriable(files[i], is_dir);
    }
    let extra = message.push('\0') + offer::offers_text(list);
    let command = (IPMSG_SENDMSG + IPMSG_SENDCHECKOPT + IPMSG_FILEATTACHOPT) as u32;
    assert(text::encoded(
        sender.text_encoding,
        packet::packet_text(sender.next_packet(command, extra)),
    ) == data);
    inbound::law_offers_arrive(sender, receiver, message, list, data, from);
}

/// Files that the user sends reach the peer as offers: each file that is one, in its order,
/// under its name, with its size, and under numbers by which the peer can fetch it. From
/// then on they are on offer to the peer's host, and to no other, and what was on offer
/// before still is. Directories are left out; without a file nothing is sent.
#[verifier::rlimit(30)]
pub proof fn law_files_reach_peer(
    service: &mut Service,
    to: SocketAddr,
    metas: Vec<FileMeta>,
    r: Result<(Vec<SentFileMeta>, Datagram), OfferError>,
    receiver: Service,
    from: SocketAddr,
)
    requires
        old(service).wf(),
        call_ensures(offering::send_files, (service, to, metas), r),
        r is Ok,
        reads_back(receiver, old(service).text_encoding, (r->Ok_0).1.bytes@),
        !old(service).user.username@.contains(':'),
        !old(service).user.hostname@.contains(':'),
        forall|i: int|
            0 <= i < metas@.len() ==> can_be_carried(name_on_offer(#[trigger] metas@[i], false)),
        receiver.net.allows(from),
        !receiver.seen@.contains((from.spec_ip(), old(service).packet_no_seq)),
    ensures
        ({
            let files = metas@.filter(|m: FileMeta| m.kind == EntryKind::File);
            let sent = (r->Ok_0).0@;
            let events = inbound::inbound_events(receiver, (r->Ok_0).1.bytes@, from);
            &&& (r->Ok_0).1.to == to
            &&& files.len() > 0
            &&& sent.len() == files.len()
            &&& events.len() == 1 + files.len()
            &&& events[0] == (EventView::Message {
                from,
                user: old(service).user.username@,
                host: old(service).user.hostname@,
                text: Seq::empty(),
            })
            &&& forall|i: int|
                0 <= i < files.len() ==> offered_as(
                    #[trigger] events[1 + i],
                    from,
                    *old(service),
                    sent[i],
                    files[i],
                    false,
                )
            &&& forall|i: int|
                0 <= i < files.len() ==> on_table(
                    *final(service),
                    to,
                    #[trigger] sent[i],
                    files[i],
                    false,
                ) && sent[i].packet_no == old(service).packet_no_seq
            &&& forall|i: int, j: int|
                0 <= i < j < files.len() ==> (#[trigger] sent[i]).file_id != (
                #[trigger] sent[j]).file_id
            &&& forall|k: (u32, u32)| #[trigger]
                old(service).files@.contains_key(k) ==> final(service).files@.contains_key(k)
                    && final(service).files@[k] == old(service).files@[k]
            &&& final(service).packet_no_seq == service::next_packet_no(
                old(service).packet_no_seq,
            )
        }),
{
    let files = metas@.filter(|m: FileMeta| m.kind == EntryKind::File);
    let sent = (r->Ok_0).0@;
    let data = (r->Ok_0).1.bytes@;
    let keep = |m: FileMeta| m.kind == EntryKind::File;
    assert(files == offering::only_files(metas@));
    let before = *old(service);
    let ids = choose|ids: Seq<u32>|
        {
            &&& ids.len() == files.len()
            &&& #[trigger] offering::fresh_ids(before.files@, before.packet_no_seq, ids)
            &&& offering::after_offer(before, *final(service), to, files, ids, false)
            &&& offering::sent_of(sent, before.packet_no_seq, files, ids, false)
            &&& (r->Ok_0).1.to == to
            &&& data == before.next_bytes(
                offering::offer_command(),
                seq!['\0'] + offer::offers_text(offering::offered(files, ids, false)),
            )
        };
    assert forall|i: int| 0 <= i < files.len() implies can_be_carried(
        name_on_offer(#[trigger] files[i], false),
    ) by {
        assert(files.contains(files[i]));
        metas@.lemma_filter_contains_rev(keep, files[i]);
        let k = metas@.index_of(files[i]);
        assert(metas@[k] == files[i]);
    }
    let message = Seq::<char>::empty();
    assert(message.push('\0') =~= seq!['\0']);
    lemma_offer_arrives(before, receiver, message, files, ids, false, data, from);
    offering::law_offers_are_on_the_table(
        before.files@,
        before.packet_no_seq,
        to.spec_ip(),
        files,
        ids,
        false,
    );
    assert forall|i: int| 0 <= i < files.len() implies on_table(
        *final(service),
        to,
        #[trigger] sent[i],
        files[i],
        false,
    ) && sent[i].packet_no == before.packet_no_seq by {
        assert(sent[i].file_id == ids[i]);
        assert(final(service).files@.contains_key((before.packet_no_seq, ids[i])));
        lemma_carriable(files[i], false);
    }
    assert forall|i: int, j: int| 0 <= i < j < files.len() implies (#[trigger] sent[i]).file_id != (
    #[trigger] sent[j]).file_id by {
        assert(sent[i].file_id == ids[i] && sent[j].file_id == ids[j]);
    }
}

/// One entry that was sent, as the peer and the sender see it.
spec fn one_sent(
    before: Service,
    after: Service,
    to: SocketAddr,
    f: FileMeta,
    is_dir: bool,
    message: Seq<char>,
    sent: SentFileMeta,
    datagram: Datagram,
) -> bool {
    let id = sent.file_id;
    &&& 1 <= id <= 0x7fff_ffff
    &&& !before.files@.contains_key((before.packet_no_seq, id))
    &&& offering::after_offer(before, after, to, seq![f], seq![id], is_dir)
    &&& offering::sent_of(seq![sent], before.packet_no_seq, seq![f], seq![id], is_dir)
    &&& datagram.to == to
    &&& datagram.bytes@ == before.next_bytes(
        offering::offer_command(),
        message.push('\0') + offer::offers_text(offering::offered(seq![f], seq![id], is_dir)),
    )
}

proof fn lemma_one_reaches_peer(
    before: Service,
    after: Service,
    to: SocketAddr,
    f: FileMeta,
    is_dir: bool,
    message: Seq<char>,
    sent: SentFileMeta,
    datagram: Datagram,
    receiver: Service,
    from: SocketAddr,
)
    requires
        one_sent(before, after, to, f, is_dir, message, sent, datagram),
        reads_back(receiver, before.text_encoding, datagram.bytes@),
        !before.user.username@.contains(':'),
        !before.user.hostname@.contains(':'),
        !message.contains('\0'),
        can_be_carried(name_on_offer(f, is_dir)),
        receiver.net.allows(from),
        !receiver.seen@.contains((from.spec_ip(), before.packet_no_seq)),
    ensures
        ({
            let events = inbound::inbound_events(receiver, datagram.bytes@, from);
            &&& events.len() == 2
            &&& events[0] == (EventView::Message {
                from,
                user: before.user.username@,
                host: before.user.hostname@,
                text: message,
            })
            &&& offered_as(events[1], from, before, sent, f, is_dir)
            &&& on_table(after, to, sent, f, is_dir)
            &&& sent.packet_no == before.packet_no_seq
            &&& forall|k: (u32, u32)| #[trigger]
                before.files@.contains_key(k) ==> after.files@.contains_key(k) && after.files@[k]
                    == before.files@[k]
            &&& after.packet_no_seq == service::next_packet_no(before.packet_no_seq)
        }),
{
    let ids = seq![sent.file_id];
    let files = seq![f];
    let all = seq![sent];
    assert(all[0] == sent && ids[0] == sent.file_id && files[0] == f);
    lemma_carriable(f, is_dir);
    lemma_offer_arrives(before, receiver, message, files, ids, is_dir, datagram.bytes@, from);
    let events = inbound::inbound_events(receiver, datagram.bytes@, from);
    assert(events[1 + 0int] == events[1]);
    offering::law_offers_are_on_the_table(
        before.files@,
        before.packet_no_seq,
        to.spec_ip(),
        files,
        ids,
        is_dir,
    );
    assert(after.files@.contains_key((before.packet_no_seq, ids[0])));
}

/// A file that the user sends reaches the peer as an offer, under its name and with its
/// size, without a text; it is on offer to the peer's host from then on, and what was on
/// offer before still is.
pub proof fn law_file_reaches_peer(
    service: &mut Service,
    to: SocketAddr,
    file: FileMeta,
    r: Result<(SentFileMeta, Datagram), OfferError>,
    receiver: Service,
    from: SocketAddr,
)
    requires
        old(service).wf(),
        call_ensures(offering::send_file, (service, to, file), r),
        r is Ok,
        reads_back(receiver, old(service).text_encoding, (r->Ok_0).1.bytes@),
        !old(service).user.username@.contains(':'),
        !old(service).user.hostname@.contains(':'),
        can_be_carried(name_on_offer(file, false)),
        receiver.net.allows(from),
        !receiver.seen@.contains((from.spec_ip(), old(service).packet_no_seq)),
    ensures
        ({
            let (sent, datagram) = r->Ok_0;
            let events = inbound::inbound_events(receiver, datagram.bytes@, from);
            &&& datagram.to == to
            &&& events.len() == 2
            &&& events[0] == (EventView::Message {
                from,
                user: old(service).user.username@,
                host: old(service).user.hostname@,
                text: Seq::empty(),
            })
            &&& offered_as(events[1], from, *old(service), sent, file, false)
            &&& on_table(*final(service), to, sent, file, false)
            &&& sent.packet_no == old(service).packet_no_seq
            &&& forall|k: (u32, u32)| #[trigger]
                old(service).files@.contains_key(k) ==> final(service).files@.contains_key(k)
                    && final(service).files@[k] == old(service).files@[k]
            &&& final(service).packet_no_seq == service::next_packet_no(
                old(service).packet_no_seq,
            )
        }),
{
    let (sent, datagram) = r->Ok_0;
    let message = Seq::<char>::empty();
    assert(message.push('\0') =~= seq!['\0']);
    assert(one_sent(*old(service), *final(service), to, file, false, message, sent, datagram));
    lemma_one_reaches_peer(
        *old(service),
        *final(service),
        to,
        file,
        false,
        message,
        sent,
        datagram,
        receiver,
        from,
    );
}

/// A folder that the user sends reaches the peer as an offer of a folder, under its name,
/// with a text that holds the name; what is no folder is not sent.
pub proof fn law_folder_reaches_peer(
    service: &mut Service,
    to: SocketAddr,
    dir: FileMeta,
    r: Result<(SentFileMeta, Datagram), OfferError>,
    receiver: Service,
    from: SocketAddr,
)
    requires
        old(service).wf(),
        call_ensures(offering::send_folder, (service, to, dir), r),
        r is Ok ==> reads_back(receiver, old(service).text_encoding, (r->Ok_0).1.bytes@),
        !old(service).user.username@.contains(':'),
        !old(service).user.hostname@.contains(':'),
        can_be_carried(name_on_offer(dir, true)),
        receiver.net.allows(from),
        !receiver.seen@.contains((from.spec_ip(), old(service).packet_no_seq)),
    ensures
        dir.kind != EntryKind::Dir ==> r == Err::<(SentFileMeta, Datagram), OfferError>(
            OfferError::NotDirectory,
        ) && *final(service) == *old(service),
        r is Ok ==> {
            let (sent, datagram) = r->Ok_0;
            let events = inbound::inbound_events(receiver, datagram.bytes@, from);
            &&& dir.kind == EntryKind::Dir
            &&& datagram.to == to
            &&& events.len() == 2
            &&& events[0] == (EventView::Message {
                from,
                user: old(service).user.username@,
                host: old(service).user.hostname@,
                text: seq!['[', '文', '件', '夹', ']', ' '] + name_on_offer(dir, true),
            })
            &&& offered_as(events[1], from, *old(service), sent, dir, true)
            &&& on_table(*final(service), to, sent, dir, true)
            &&& sent.packet_no == old(service).packet_no_seq
            &&& forall|k: (u32, u32)| #[trigger]
                old(service).files@.contains_key(k) ==> final(service).files@.contains_key(k)
                    && final(service).files@[k] == old(service).files@[k]
            &&& final(service).packet_no_seq == service::next_packet_no(
                old(service).packet_no_seq,
            )
        },
{
    if r is Ok {
        let (sent, datagram) = r->Ok_0;
        let name = name_on_offer(dir, true);
        let front = seq!['[', '文', '件', '夹', ']', ' '];
        reveal_strlit("[文件夹] ");
        assert("[文件夹] "@ =~= front);
        lemma_carriable(dir, true);
        let message = front + name;
        assert(offering::folder_text(dir) == message);
        if message.contains('\0') {
            let k = message.index_of('\0');
            if k >= 6 {
                assert(name[k - 6] == '\0');
            } else {
                assert(front[k] == '\0');
            }
        }
        assert(one_sent(*old(service), *final(service), to, dir, true, message, sent, datagram));
        lemma_one_reaches_peer(
            *old(service),
            *final(service),
            to,
            dir,
            true,
            message,
            sent,
            datagram,
            receiver,
            from,
        );
    }
}

/// Nothing is sent, and nothing is put on offer, where there is no file among what was
/// chosen; otherwise the files are sent, unless no number is free for one of them.
pub proof fn law_files_are_sent(
    service: &mut Service,
    to: SocketAddr,
    metas: Vec<FileMeta>,
    r: Result<(Vec<SentFileMeta>, Datagram), OfferError>,
)
    requires
        old(service).wf(),
        call_ensures(offering::send_files, (service, to, metas), r),
    ensures
        (forall|i: int| 0 <= i < metas@.len() ==> (#[trigger] metas@[i]).kind != EntryKind::File)
            <==> r == Err::<(Vec<SentFileMeta>, Datagram), OfferError>(OfferError::NoFiles),
        r is Err ==> *final(service) == *old(service) && (r->Err_0 == OfferError::NoFiles
            || r->Err_0 == OfferError::NoFreeId),
{
    let keep = |m: FileMeta| m.kind == EntryKind::File;
    let files = metas@.filter(keep);
    assert(files == offering::only_files(metas@));
    if files.len() > 0 {
        assert(files.contains(files[0]));
        metas@.lemma_filter_contains_rev(keep, files[0]);
        let k = metas@.index_of(files[0]);
        assert(metas@[k] == files[0]);
        metas@.lemma_filter_pred(keep, 0);
        assert(keep(files[0]));
    } else {
        assert forall|i: int| 0 <= i < metas@.len() implies (#[trigger] metas@[i]).kind
            != EntryKind::File by {
            if keep(metas@[i]) {
                metas@.lemma_filter_contains(keep, i);
            }
        }
    }
}

/// A number for a file is drawn from the numbers that fit in 31 bits and are not zero.
pub proof fn law_file_numbers(raw: u32, r: u32)
    requires
        call_ensures(offering::file_id_from, (raw,), r),
    ensures
        1 <= r <= 0x7fff_ffff,
        1 <= raw <= 0x7fff_ffff ==> r == raw,
        raw > 0x8000_0000 ==> r == raw - 0x8000_0000,
        raw == 0 || raw == 0x8000_0000 ==> r == 1,
{
}

/// A colon in a name is doubled where the name is sent, and nothing else about it changes.
pub proof fn law_colons_doubled(name: Seq<char>, c: char)
    ensures
        offer::doubled_colons(Seq::empty()) == Seq::<char>::empty(),
        offer::doubled_colons(name.push(':')) == offer::doubled_colons(name) + seq![':', ':'],
        c != ':' ==> offer::doubled_colons(name.push(c)) == offer::doubled_colons(name).push(c),
{
    assert(name.push(':').drop_last() =~= name);
    assert(name.push(c).drop_last() =~= name);
    assert(offer::doubled_colons(name.push(':')) =~= offer::doubled_colons(name) + seq![
        ':',
        ':',
    ]);
}

/// An offer that went out is shown to the user as a message of theirs to that peer, which
/// is not sent yet and which events about the transfer find. One that could not go out is
/// shown as failed, with the path from which it can be tried again.
pub proof fn law_own_offer_shown(
    v: StateView,
    from: SocketAddr,
    to: SocketAddr,
    item: SentFileMeta,
    shown: String,
    now: String,
    m: ChatMessage,
    name: String,
    size: u64,
    is_dir: bool,
    path: String,
    failed: ChatMessage,
    labels: Labels,
)
    requires
        call_ensures(logic::offer_message, (from, to, item, shown, now), m),
        call_ensures(
            logic::failed_offer_message,
            (from, to, name, size, is_dir, path, now),
            failed,
        ),
    ensures
        ({
            let w = v.past(StateCmd::PushOutgoing(m), labels).0;
            let at = v.messages.len() as int;
            let f = w.messages[at].file->0;
            &&& transfers::last_offer(w, at, true, to, item.packet_no, item.file_id)
            &&& w.messages[at].text == shown
            &&& w.messages[at].time == now
            &&& w.messages[at].from == from
            &&& w.messages[at].to == to
            &&& w.messages[at].packet_no == item.packet_no
            &&& !w.messages[at].failed
            &&& f.name == item.name
            &&& f.size == item.size
            &&& f.is_dir == item.is_dir
            &&& f.local_path == Some(item.path)
            &&& f.received == 0
            &&& !f.saved && !f.error && !f.canceled && !f.sending
            &&& v.past(StateCmd::PushOutgoing(m), labels).1.arm_ack is None
        }),
        ({
            let w = v.past(StateCmd::PushOutgoing(failed), labels).0;
            let last = w.messages.last();
            &&& last.failed
            &&& last.is_me
            &&& last.to == to
            &&& last.from == from
            &&& last.time == now
            &&& last.packet_no == 0
            &&& last.file is Some
            &&& last.file->0.name == name
            &&& last.file->0.size == size
            &&& last.file->0.is_dir == is_dir
            &&& last.file->0.local_path == Some(path)
            &&& v.past(StateCmd::PushOutgoing(failed), labels).1.arm_ack is None
        }),
{
}

/// An offer is written as its number in decimal, its name, its size, the time of its last
/// change and its kind in hexadecimal, each with a colon behind it, and a bell character.
/// A name is written with its colons doubled.
pub proof fn law_offer_written(f: FileMeta, id: u32, is_dir: bool, list: Seq<(OfferView, u64)>)
    ensures
        offering::wire_name(f, is_dir) == offer::doubled_colons(name_on_offer(f, is_dir)),
        ({
            let o = offering::offered(seq![f], seq![id], is_dir);
            let size: u64 = if is_dir {
                0
            } else {
                f.size
            };
            &&& o.len() == 1
            &&& offer::item_text(o[0].0, o[0].1) == texts::joined(
                seq![
                    number::decimal(id as nat),
                    offering::wire_name(f, is_dir),
                    number::hexadecimal(size as nat),
                    number::hexadecimal(f.mtime as nat),
                    if is_dir {
                        seq!['2']
                    } else {
                        seq!['1']
                    },
                    Seq::empty(),
                ],
                ':',
            )
            &&& offer::offers_text(list + o) == offer::offers_text(list) + offer::item_text(
                o[0].0,
                o[0].1,
            ) + seq!['\x07']
        }),
        offer::offers_text(Seq::empty()) == Seq::<char>::empty(),
{
    reveal_strlit("dir");
    reveal_strlit("file");
    assert("dir"@ =~= seq!['d', 'i', 'r']);
    assert("file"@ =~= seq!['f', 'i', 'l', 'e']);
    assert(offering::shown_name(f, is_dir) == name_on_offer(f, is_dir));
    let o = offering::offered(seq![f], seq![id], is_dir);
    assert(seq![f][0] == f && seq![id][0] == id);
    let size: u64 = if is_dir {
        0
    } else {
        f.size
    };
    let a = number::decimal(id as nat);
    let b = offering::wire_name(f, is_dir);
    let c = number::hexadecimal(size as nat);
    let d = number::hexadecimal(f.mtime as nat);
    let e = if is_dir {
        seq!['2']
    } else {
        seq!['1']
    };
    let none = Seq::<char>::empty();
    assert(number::hexadecimal(1) =~= seq!['1'] && number::hexadecimal(2) =~= seq!['2']) by {
        reveal_with_fuel(number::digits, 2);
    }
    let all = seq![a, b, c, d, e, none];
    assert(all.skip(1) =~= seq![b, c, d, e, none]);
    assert(all.skip(1).skip(1) =~= seq![c, d, e, none]);
    assert(all.skip(1).skip(1).skip(1) =~= seq![d, e, none]);
    assert(all.skip(1).skip(1).skip(1).skip(1) =~= seq![e, none]);
    assert(all.skip(1).skip(1).skip(1).skip(1).skip(1) =~= seq![none]);
    reveal_with_fuel(texts::joined, 7);
    assert(texts::joined(all, ':') =~= offer::item_text(o[0].0, o[0].1));
    let more = list + o;
    assert(more.drop_last() =~= list);
    assert(more.last() == o[0]);
    let item = offer::item_text(o[0].0, o[0].1);
    assert(offer::offers_text(more) =~= offer::offers_text(list) + item + seq!['\x07']);
    assert(offer::offers_text(Seq::empty()) =~= Seq::<char>::empty());
}

/// A file, or a folder, is sent wherever no number of the packet is in use yet.
pub proof fn law_single_offer_succeeds(
    service: &mut Service,
    to: SocketAddr,
    file: FileMeta,
    r: Result<(SentFileMeta, Datagram), OfferError>,
    other: &mut Service,
    dir: FileMeta,
    s: Result<(SentFileMeta, Datagram), OfferError>,
)
    requires
        call_ensures(offering::send_file, (service, to, file), r),
        call_ensures(offering::send_folder, (other, to, dir), s),
    ensures
        (forall|id: u32|
            !#[trigger] old(service).files@.contains_key((old(service).packet_no_seq, id)))
            ==> r is Ok,
        dir.kind == EntryKind::Dir && (forall|id: u32|
            !#[trigger] old(other).files@.contains_key((old(other).packet_no_seq, id))) ==> s is Ok,
        r is Err ==> r->Err_0 == OfferError::IdCollision && final(service).files == old(
            service).files,
        s is Err ==> final(other).files == old(other).files,
{
}

/// With a given number an offer fails exactly where that number is in use; and what was
/// offered under it is then still on offer.
pub proof fn law_offer_under_number(
    service: &mut Service,
    to: SocketAddr,
    file: FileMeta,
    id: u32,
    r: Result<(SentFileMeta, Datagram), OfferError>,
    other: &mut Service,
    dir: FileMeta,
    s: Result<(SentFileMeta, Datagram), OfferError>,
)
    requires
        call_ensures(offering::offer_file, (service, to, file, id), r),
        call_ensures(offering::offer_folder, (other, to, dir, id), s),
    ensures
        r is Err <==> old(service).files@.contains_key((old(service).packet_no_seq, id)),
        r is Ok ==> (r->Ok_0).0.file_id == id && (r->Ok_0).0.packet_no == old(
            service).packet_no_seq && (r->Ok_0).0.path == file.path && !(r->Ok_0).0.is_dir && (
        r->Ok_0).1.to == to,
        r is Err ==> final(service).files == old(service).files,
        dir.kind != EntryKind::Dir ==> s == Err::<(SentFileMeta, Datagram), OfferError>(
            OfferError::NotDirectory,
        ),
        dir.kind == EntryKind::Dir ==> (s is Err <==> old(other).files@.contains_key(
            (old(other).packet_no_seq, id),
        )),
        s is Ok ==> (s->Ok_0).0.file_id == id && (s->Ok_0).0.packet_no == old(other).packet_no_seq
            && (s->Ok_0).0.path == dir.path && (s->Ok_0).0.is_dir && (s->Ok_0).1.to == to,
        s is Err ==> final(other).files == old(other).files,
{
    if r is Ok {
        assert(seq![(r->Ok_0).0][0] == (r->Ok_0).0);
        assert(seq![file][0] == file && seq![id][0] == id);
    }
    if s is Ok {
        assert(seq![(s->Ok_0).0][0] == (s->Ok_0).0);
        assert(seq![dir][0] == dir && seq![id][0] == id);
    }
}

/// White space around an offer makes no difference.
pub proof fn law_offer_trimmed(before: Seq<char>, item: Seq<char>, after: Seq<char>)
    requires
        texts::all_white(before),
        texts::all_white(after),
        texts::tight(item),
    ensures
        offer::offer_in(before + item + after) == offer::offer_in(item),
{
    let none = Seq::<char>::empty();
    texts::law_trimming(before, item, after);
    texts::law_trimming(none, item, none);
    assert(none + item + none =~= item);
}

} // verus!
