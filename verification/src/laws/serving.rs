//! Requests for files on offer, and what becomes of them.
use crate::chars;
use crate::ipmsg_core::cancel;
use crate::ipmsg_core::cancel::{CancelFlags, CancelKey};
use crate::ipmsg_core::event::Event;
use crate::ipmsg_core::file_table;
use crate::ipmsg_core::file_table::FileEntry;
use crate::ipmsg_core::inbound;
use crate::ipmsg_core::packet;
use crate::ipmsg_core::packet::PacketView;
use crate::ipmsg_core::serve;
use crate::ipmsg_core::serve::{ServeEnd, ServeError, ServeJob};
use crate::ipmsg_core::service::Service;
use crate::ipmsg_core::text;
use crate::laws::arrivals;
use crate::laws::texts;
use crate::net::SocketAddr;
use crate::number;
use vstd::prelude::*;

verus! {

/// The user has stopped the transfers of this file to this host.
pub open spec fn stopped(service: Service, peer: SocketAddr, packet_no: u32, file_id: u32) -> bool {
    let key = CancelKey { peer: peer.spec_ip(), packet_no, file_id };
    service.cancels@.current.contains_key(key)
        && service.cancels@.marks[service.cancels@.current[key] as int]
}

proof fn lemma_base(c: u32)
    ensures
        inbound::base_of(c) == c % 256,
{
    assert(c & 0xff == c % 256) by (bit_vector);
}

/// A request names a packet and a file, and for a file also where to begin. What is not
/// on offer is passed over. What is on offer to another host is refused; what is on offer
/// to this host, and not stopped, is served: the file that was offered under these
/// numbers, from there on; a folder from its beginning. A file is not served to who asks
/// for a folder, nor a folder to who asks for a file.
pub proof fn law_request_served(
    service: &mut Service,
    data: &[u8],
    peer: SocketAddr,
    p: PacketView,
    no: Seq<char>,
    id: Seq<char>,
    offset: Seq<char>,
    rest: Seq<Seq<char>>,
    r: Result<Option<ServeJob>, ServeError>,
)
    requires
        call_ensures(serve::handle_tcp_file, (service, data, peer), r),
        data@.len() > 0,
        arrivals::holds(*old(service), data@, p),
        p.command % 256 == 0x60 || p.command % 256 == 0x62,
        texts::none_holds(seq![no, id, offset] + rest, ':'),
        p.extra == texts::joined(seq![no, id, offset] + rest, ':'),
    ensures
        ({
            let want_dir = p.command % 256 == 0x62;
            let found = file_table::requested(old(service).files@, no, id);
            let entry = old(service).files@[found->0];
            let key = found->0;
            &&& found is None ==> r is Ok && r->Ok_0 is None
            &&& found is Some && entry.to != peer.spec_ip() ==> r == Err::<
                Option<ServeJob>,
                ServeError,
            >(ServeError::NotAuthorized)
            &&& found is Some && entry.to == peer.spec_ip() && entry.is_dir != want_dir ==> r is Ok
                && r->Ok_0 is None
            &&& found is Some && entry.to == peer.spec_ip() && entry.is_dir == want_dir && stopped(
                *old(service),
                peer,
                key.0,
                key.1,
            ) ==> r == Err::<Option<ServeJob>, ServeError>(ServeError::Canceled)
            &&& found is Some && entry.to == peer.spec_ip() && entry.is_dir == want_dir && !stopped(
                *old(service),
                peer,
                key.0,
                key.1,
            ) ==> {
                &&& r is Ok
                &&& r->Ok_0 is Some
                &&& r->Ok_0->0.to == peer
                &&& r->Ok_0->0.packet_no == key.0
                &&& r->Ok_0->0.file_id == key.1
                &&& r->Ok_0->0.path == entry.path
                &&& r->Ok_0->0.is_dir == want_dir
                &&& !want_dir ==> r->Ok_0->0.offset == number::auto_radix(
                    offset,
                    0xffff_ffff_ffff_ffff,
                )
                &&& want_dir ==> r->Ok_0->0.offset == 0
            }
        }),
        r == Err::<Option<ServeJob>, ServeError>(ServeError::Canceled) ==> !stopped(
            *final(service),
            peer,
            (file_table::requested(old(service).files@, no, id)->0).0,
            (file_table::requested(old(service).files@, no, id)->0).1,
        ),
        r == Err::<Option<ServeJob>, ServeError>(ServeError::NotAuthorized) || (r is Ok && r->Ok_0
            is None) ==> final(service).cancels@ == old(service).cancels@,
        final(service).files@ == old(service).files@,
        final(service).seen@ == old(service).seen@,
        final(service).packet_no_seq == old(service).packet_no_seq,
{
    lemma_base(p.command);
    let parts = seq![no, id, offset] + rest;
    texts::law_parting(parts, ':');
    assert(parts[0] == no && parts[1] == id && parts[2] == offset);
    assert(number::auto_radix(offset, u64::MAX as nat) <= u64::MAX);
}

/// A request for a folder need not say where to begin. One for a file must, and both must
/// name a packet and a file. What is no request is passed over, and so is a connection
/// without data; what is no packet is refused.
pub proof fn law_requests_told_apart(
    service: &mut Service,
    data: &[u8],
    peer: SocketAddr,
    p: PacketView,
    r: Result<Option<ServeJob>, ServeError>,
)
    requires
        call_ensures(serve::handle_tcp_file, (service, data, peer), r),
    ensures
        data@.len() == 0 ==> r is Ok && r->Ok_0 is None,
        data@.len() > 0 ==> (packet::packet_in(
            text::decoded(old(service).text_encoding, data@),
        ) matches Err(e) ==> r == Err::<Option<ServeJob>, ServeError>(ServeError::BadPacket(e))),
        data@.len() > 0 && arrivals::holds(*old(service), data@, p) ==> {
            &&& p.command % 256 != 0x60 && p.command % 256 != 0x62 ==> r is Ok && r->Ok_0 is None
            &&& p.command % 256 == 0x60 && chars::pieces(p.extra, ':').len() < 3 ==> r == Err::<
                Option<ServeJob>,
                ServeError,
            >(ServeError::BadFileRequest)
            &&& p.command % 256 == 0x62 && chars::pieces(p.extra, ':').len() < 2 ==> r == Err::<
                Option<ServeJob>,
                ServeError,
            >(ServeError::BadDirRequest)
        },
{
    lemma_base(p.command);
}

/// A request for a folder that names a packet and a file and nothing else is served like
/// one that says where to begin.
pub proof fn law_bare_folder_request(
    service: &mut Service,
    data: &[u8],
    peer: SocketAddr,
    p: PacketView,
    no: Seq<char>,
    id: Seq<char>,
    key: (u32, u32),
    r: Result<Option<ServeJob>, ServeError>,
)
    requires
        call_ensures(serve::handle_tcp_file, (service, data, peer), r),
        data@.len() > 0,
        arrivals::holds(*old(service), data@, p),
        p.command % 256 == 0x62,
        texts::none_holds(seq![no, id], ':'),
        p.extra == texts::joined(seq![no, id], ':'),
        file_table::requested(old(service).files@, no, id) == Some(key),
        old(service).files@[key].is_dir,
        old(service).files@[key].to == peer.spec_ip(),
        !stopped(*old(service), peer, key.0, key.1),
    ensures
        r is Ok,
        r->Ok_0 is Some,
        r->Ok_0->0.to == peer,
        r->Ok_0->0.packet_no == key.0,
        r->Ok_0->0.file_id == key.1,
        r->Ok_0->0.path == old(service).files@[key].path,
        r->Ok_0->0.is_dir,
        r->Ok_0->0.offset == 0,
{
    lemma_base(p.command);
    let parts = seq![no, id];
    texts::law_parting(parts, ':');
    assert(parts[0] == no && parts[1] == id);
}

/// A number in a request may be hexadecimal, decimal, or say by a `0x` in front which it
/// is; no other number is meant by it. The hexadecimal meaning is tried first.
pub proof fn law_meanings_of_number(s: Seq<char>, n: u32)
    ensures
        file_table::readings(s).contains(n) <==> {
            ||| number::u32_in(chars::trimmed(s), 16) == Some(n)
            ||| number::u32_in(chars::trimmed(s), 10) == Some(n)
            ||| number::auto_radix(chars::trimmed(s), 0xffff_ffff) == n
        },
        number::u32_in(chars::trimmed(s), 16) is Some ==> file_table::readings(s)[0]
            == number::u32_in(chars::trimmed(s), 16)->0,
{
    let t = chars::trimmed(s);
    let all = file_table::readings(s);
    let auto = number::auto_radix(t, u32::MAX as nat) as u32;
    assert(number::auto_radix(t, u32::MAX as nat) <= u32::MAX);
    assert(all.last() == auto);
    assert(all[all.len() - 1] == auto);
    let hex = number::u32_in(t, 16);
    let dec = number::u32_in(t, 10);
    if hex is Some {
        assert(all[0] == hex->0);
        if dec is Some {
            assert(all[1] == dec->0);
        }
    } else if dec is Some {
        assert(all[0] == dec->0);
    }
}

/// What a request finds is on offer under numbers that the request can mean; and it finds
/// something wherever such an offer is.
pub proof fn law_request_finds(
    table: Map<(u32, u32), FileEntry>,
    no: Seq<char>,
    id: Seq<char>,
    key: (u32, u32),
)
    ensures
        file_table::requested(table, no, id) == Some(key) ==> table.contains_key(key)
            && file_table::readings(no).contains(key.0) && file_table::readings(id).contains(key.1),
        file_table::requested(table, no, id) is None ==> !(table.contains_key(key)
            && file_table::readings(no).contains(key.0) && file_table::readings(id).contains(
            key.1,
        )),
{
    lemma_first_hit(table, file_table::readings(no), file_table::readings(id), key);
}

proof fn lemma_first_with(
    table: Map<(u32, u32), FileEntry>,
    no: u32,
    ids: Seq<u32>,
    key: (u32, u32),
)
    ensures
        file_table::first_with(table, no, ids) == Some(key) ==> table.contains_key(key) && key.0
            == no && ids.contains(key.1),
        file_table::first_with(table, no, ids) is None ==> !(table.contains_key(key) && key.0 == no
            && ids.contains(key.1)),
    decreases ids.len(),
{
    if ids.len() > 0 {
        lemma_first_with(table, no, ids.skip(1), key);
        if ids.skip(1).contains(key.1) {
            let i = ids.skip(1).index_of(key.1);
            assert(ids[i + 1] == key.1);
        }
        if ids.contains(key.1) && ids[0] != key.1 {
            let i = ids.index_of(key.1);
            assert(ids.skip(1)[i - 1] == key.1);
        }
    }
}

proof fn lemma_first_hit(
    table: Map<(u32, u32), FileEntry>,
    nos: Seq<u32>,
    ids: Seq<u32>,
    key: (u32, u32),
)
    ensures
        file_table::first_hit(table, nos, ids) == Some(key) ==> table.contains_key(key)
            && nos.contains(key.0) && ids.contains(key.1),
        file_table::first_hit(table, nos, ids) is None ==> !(table.contains_key(key)
            && nos.contains(key.0) && ids.contains(key.1)),
    decreases nos.len(),
{
    if nos.len() > 0 {
        lemma_first_with(table, nos[0], ids, key);
        lemma_first_hit(table, nos.skip(1), ids, key);
        if nos.skip(1).contains(key.0) {
            let i = nos.skip(1).index_of(key.0);
            assert(nos[i + 1] == key.0);
        }
        if nos.contains(key.0) && nos[0] != key.0 {
            let i = nos.index_of(key.0);
            assert(nos.skip(1)[i - 1] == key.0);
        }
    }
}

/// Withdrawing an offer takes it and no other off the table, and tells whether it was
/// there. Transfers of it to this host are stopped from then on, and no others.
pub proof fn law_offer_withdrawn(
    service: &mut Service,
    to: SocketAddr,
    packet_no: u32,
    file_id: u32,
    key: (u32, u32),
    other: SocketAddr,
    r: bool,
)
    requires
        old(service).wf(),
        call_ensures(serve::cancel_send, (service, to, packet_no, file_id), r),
    ensures
        r <==> old(service).files@.contains_key((packet_no, file_id)),
        !final(service).files@.contains_key((packet_no, file_id)),
        key != (packet_no, file_id) ==> (final(service).files@.contains_key(key)
            <==> old(service).files@.contains_key(key)) && (old(service).files@.contains_key(key)
            ==> final(service).files@[key] == old(service).files@[key]),
        stopped(*final(service), to, packet_no, file_id),
        (other.spec_ip() != to.spec_ip() || key != (
            packet_no,
            file_id,
        )) ==> (stopped(*final(service), other, key.0, key.1) <==> stopped(
            *old(service),
            other,
            key.0,
            key.1,
        )),
        final(service).seen@ == old(service).seen@,
        final(service).packet_no_seq == old(service).packet_no_seq,
{
    let k = CancelKey { peer: to.spec_ip(), packet_no, file_id };
    let before = old(service).cancels@;
    cancel::law_flags_sound(old(service).cancels);
    let j = CancelKey { peer: other.spec_ip(), packet_no: key.0, file_id: key.1 };
    if j != k && before.current.contains_key(j) {
        assert(before.current[j] < before.marks.len());
        assert(before.current[j] != before.token_of(k));
    }
}

/// A transfer that is under way sees that its offer is withdrawn: the mark that it looks
/// at is set.
pub proof fn law_withdrawal_stops_transfer(
    first: &mut Service,
    data: &[u8],
    peer: SocketAddr,
    r: Result<Option<ServeJob>, ServeError>,
    then: &mut Service,
    to: SocketAddr,
    removed: bool,
    seen: bool,
)
    requires
        old(first).wf(),
        call_ensures(serve::handle_tcp_file, (first, data, peer), r),
        r is Ok && r->Ok_0 is Some,
        *old(then) == *final(first),
        to.spec_ip() == peer.spec_ip(),
        call_ensures(
            serve::cancel_send,
            (then, to, r->Ok_0->0.packet_no, r->Ok_0->0.file_id),
            removed,
        ),
        call_ensures(
            CancelFlags::is_canceled,
            (&final(then).cancels, r->Ok_0->0.token),
            seen,
        ),
    ensures
        !old(first).cancels@.current.contains_key(
            CancelKey {
                peer: peer.spec_ip(),
                packet_no: r->Ok_0->0.packet_no,
                file_id: r->Ok_0->0.file_id,
            },
        ) ==> !final(first).cancels@.marks[r->Ok_0->0.token as int],
        seen,
{
    let job = r->Ok_0->0;
    let k = CancelKey { peer: peer.spec_ip(), packet_no: job.packet_no, file_id: job.file_id };
    let before = old(first).cancels@;
    cancel::law_flags_sound(old(first).cancels);
    serve::law_only_addressee_served(*old(first), data@, peer);
    assert(serve::cancel_key(to, (job.packet_no, job.file_id)) == k);
    let served = before.with_token(k);
    assert(final(first).cancels@ == served);
    assert(job.token == before.token_of(k));
    if before.current.contains_key(k) {
        assert(before.current[k] < before.marks.len());
    }
    assert(served.current.contains_key(k) && served.current[k] == job.token);
    assert(job.token < served.marks.len());
    let after = served.with_mark(k);
    assert(after.marks[job.token as int]);
    assert(final(then).cancels@ == after);
}

/// Once a transfer has come to an end, however it did, nothing stands against a new one:
/// the file is still on offer and not stopped. A file that could not be opened leaves
/// everything as it was.
pub proof fn law_end_of_transfer(
    service: &mut Service,
    job: ServeJob,
    end: ServeEnd,
    r: Option<Event>,
    other: SocketAddr,
    key: (u32, u32),
)
    requires
        old(service).wf(),
        call_ensures(serve::finish_serve, (service, &job, end), r),
    ensures
        final(service).files@ == old(service).files@,
        end != ServeEnd::Unopened ==> !stopped(
            *final(service),
            job.to,
            job.packet_no,
            job.file_id,
        ),
        end == ServeEnd::Unopened ==> *final(service) == (Service {
            cancels: final(service).cancels,
            ..*old(service)
        }) && final(service).cancels@ == old(service).cancels@,
        other.spec_ip() != job.to.spec_ip() || key != (job.packet_no, job.file_id) ==> (stopped(
            *final(service),
            other,
            key.0,
            key.1,
        ) <==> stopped(*old(service), other, key.0, key.1)),
        r is None <==> end == ServeEnd::Canceled,
        final(service).seen@ == old(service).seen@,
        final(service).packet_no_seq == old(service).packet_no_seq,
{
    let k = CancelKey { peer: job.to.spec_ip(), packet_no: job.packet_no, file_id: job.file_id };
    let j = CancelKey { peer: other.spec_ip(), packet_no: key.0, file_id: key.1 };
    assert(serve::cancel_key(job.to, (job.packet_no, job.file_id)) == k);
}

} // verus!
