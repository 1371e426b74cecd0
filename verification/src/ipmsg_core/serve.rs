//! Requests of peers for files that are on offer.
use crate::chars;
use crate::chars::{split, to_chars, to_text};
use crate::ipmsg_core::cancel;
use crate::ipmsg_core::cancel::CancelKey;
use crate::ipmsg_core::event;
use crate::ipmsg_core::event::Event;
use crate::ipmsg_core::file_table;
use crate::ipmsg_core::file_table::{lookup_file_entry, FileEntry};
use crate::ipmsg_core::inbound;
use crate::ipmsg_core::packet;
use crate::ipmsg_core::packet::{parse_packet, PacketError};
use crate::ipmsg_core::protocol::{IPMSG_GETDIRFILES, IPMSG_GETFILEDATA};
use crate::ipmsg_core::service::Service;
use crate::ipmsg_core::text;
use crate::net::SocketAddr;
use crate::number;
use crate::number::parse_auto_radix;
use vstd::prelude::*;

verus! {

/// Why a request is refused.
#[derive(Debug, Clone, Copy, PartialEq, Eq, Structural)]
pub enum ServeError {
    BadPacket(PacketError),
    /// A request for a file has too few fields.
    BadFileRequest,
    /// A request for a folder has too few fields.
    BadDirRequest,
    /// The file was offered to another host.
    NotAuthorized,
    /// The user has withdrawn the offer.
    Canceled,
}

/// A transfer to a peer.
#[derive(Debug)]
pub struct ServeJob {
    pub to: SocketAddr,
    pub packet_no: u32,
    pub file_id: u32,
    pub is_dir: bool,
    pub path: String,
    /// Where in the file the transfer begins.
    pub offset: u64,
    /// The token whose mark stops the transfer.
    pub token: usize,
}

/// What a peer asks for.
pub enum Request {
    File { packet_no: Seq<char>, file_id: Seq<char>, offset: u64 },
    Dir { packet_no: Seq<char>, file_id: Seq<char> },
}

/// The request that a packet makes, if it makes any.
pub open spec fn request_in(p: packet::PacketView) -> Result<Option<Request>, ServeError> {
    let parts = chars::pieces(p.extra, ':');
    if inbound::base_of(p.command) == IPMSG_GETFILEDATA {
        if parts.len() < 3 {
            Err(ServeError::BadFileRequest)
        } else {
            Ok(
                Some(
                    Request::File {
                        packet_no: parts[0],
                        file_id: parts[1],
                        offset: number::auto_radix(parts[2], u64::MAX as nat) as u64,
                    },
                ),
            )
        }
    } else if inbound::base_of(p.command) == IPMSG_GETDIRFILES {
        if parts.len() < 2 {
            Err(ServeError::BadDirRequest)
        } else {
            Ok(Some(Request::Dir { packet_no: parts[0], file_id: parts[1] }))
        }
    } else {
        Ok(None)
    }
}

/// What is decided about a request.
pub enum Decision {
    /// There is nothing to do.
    Nothing,
    Refuse(ServeError),
    /// The offer under these numbers is served, from an offset.
    Serve((u32, u32), u64),
}

/// What is decided about a request for a file or a folder: it must be on offer, to
/// this peer, of the kind that is asked for, and not withdrawn.
pub open spec fn decide_entry(
    service: Service,
    key: Option<(u32, u32)>,
    peer: SocketAddr,
    want_dir: bool,
    offset: u64,
) -> Decision {
    match key {
        None => Decision::Nothing,
        Some(key) => {
            let entry = service.files@[key];
            if entry.to != peer.spec_ip() {
                Decision::Refuse(ServeError::NotAuthorized)
            } else if entry.is_dir != want_dir {
                Decision::Nothing
            } else if withdrawn(service, cancel_key(peer, key)) {
                Decision::Refuse(ServeError::Canceled)
            } else {
                Decision::Serve(key, offset)
            }
        },
    }
}

pub open spec fn cancel_key(peer: SocketAddr, key: (u32, u32)) -> CancelKey {
    CancelKey { peer: peer.spec_ip(), packet_no: key.0, file_id: key.1 }
}

/// The user has withdrawn the offer.
pub open spec fn withdrawn(service: Service, key: CancelKey) -> bool {
    service.cancels@.current.contains_key(key)
        && service.cancels@.marks[service.cancels@.current[key] as int]
}

/// What is decided about the first bytes of a connection.
pub open spec fn decide(service: Service, data: Seq<u8>, peer: SocketAddr) -> Decision {
    if data.len() == 0 {
        Decision::Nothing
    } else {
        match packet::packet_in(text::decoded(service.text_encoding, data)) {
            Err(e) => Decision::Refuse(ServeError::BadPacket(e)),
            Ok(p) => match request_in(p) {
                Err(e) => Decision::Refuse(e),
                Ok(None) => Decision::Nothing,
                Ok(Some(Request::File { packet_no, file_id, offset })) => decide_entry(
                    service,
                    file_table::requested(service.files@, packet_no, file_id),
                    peer,
                    false,
                    offset,
                ),
                Ok(Some(Request::Dir { packet_no, file_id })) => decide_entry(
                    service,
                    file_table::requested(service.files@, packet_no, file_id),
                    peer,
                    true,
                    0,
                ),
            },
        }
    }
}

/// The marks once it was decided: a transfer holds a token, a withdrawn offer has
/// let go of its own.
pub open spec fn cancels_after(before: cancel::CancelView, decision: Decision, key: CancelKey)
    -> cancel::CancelView {
    match decision {
        Decision::Serve(_, _) => before.with_token(key),
        Decision::Refuse(ServeError::Canceled) => before.without(key),
        _ => before,
    }
}

/// The job is what was decided.
pub open spec fn job_of(
    job: ServeJob,
    service: Service,
    peer: SocketAddr,
    key: (u32, u32),
    offset: u64,
) -> bool {
    &&& job.to == peer
    &&& job.packet_no == key.0
    &&& job.file_id == key.1
    &&& job.is_dir == service.files@[key].is_dir
    &&& job.path == service.files@[key].path
    &&& job.offset == offset
    &&& job.token == service.cancels@.token_of(cancel_key(peer, key))
}

fn start_job(
    service: &mut Service,
    packet_no: u32,
    file_id: u32,
    entry: FileEntry,
    peer: SocketAddr,
    want_dir: bool,
    offset: u64,
) -> (r: Result<Option<ServeJob>, ServeError>)
    requires
        old(service).wf(),
        old(service).files@.contains_key((packet_no, file_id)),
        entry == old(service).files@[(packet_no, file_id)],
    ensures
        final(service).wf(),
        ({
            let key = (packet_no, file_id);
            let decision = decide_entry(*old(service), Some(key), peer, want_dir, offset);
            &&& match decision {
                Decision::Nothing => r is Ok && r->Ok_0 is None,
                Decision::Refuse(e) => r == Err::<Option<ServeJob>, ServeError>(e),
                Decision::Serve(key, offset) => r is Ok && r->Ok_0 is Some && job_of(
                    r->Ok_0->0,
                    *old(service),
                    peer,
                    key,
                    offset,
                ),
            }
            &&& final(service).cancels@ == cancels_after(
                old(service).cancels@,
                decision,
                cancel_key(peer, key),
            )
        }),
        *final(service) == (Service { cancels: final(service).cancels, ..*old(service) }),
{
    if entry.to != peer.ip() {
        return Err(ServeError::NotAuthorized);
    }
    if entry.is_dir != want_dir {
        return Ok(None);
    }
    let key = CancelKey { peer: peer.ip(), packet_no, file_id };
    let token: usize = service.cancels.send_cancel_token(key);
    if service.cancels.is_canceled(token) {
        service.cancels.clear_send_cancel_token(key);
        assert(service.cancels@ =~= old(service).cancels@.without(key));
        return Err(ServeError::Canceled);
    }
    Ok(
        Some(
            ServeJob {
                to: peer,
                packet_no,
                file_id,
                is_dir: want_dir,
                path: entry.path,
                offset,
                token,
            },
        ),
    )
}

/// The key of the offer that the first bytes of a connection ask for.
pub open spec fn asked_for(service: Service, data: Seq<u8>) -> Option<(u32, u32)> {
    match packet::packet_in(text::decoded(service.text_encoding, data)) {
        Err(_) => None,
        Ok(p) => match request_in(p) {
            Ok(Some(Request::File { packet_no, file_id, .. })) => file_table::requested(
                service.files@,
                packet_no,
                file_id,
            ),
            Ok(Some(Request::Dir { packet_no, file_id })) => file_table::requested(
                service.files@,
                packet_no,
                file_id,
            ),
            _ => None,
        },
    }
}

/// Decides about the first bytes of a connection from a peer. Only the host that an
/// offer was made to is served. A request whose characters the encoding has is read as
/// it was written.
pub fn handle_tcp_file(service: &mut Service, data: &[u8], peer: SocketAddr) -> (r: Result<
    Option<ServeJob>,
    ServeError,
>)
    requires
        old(service).wf(),
        data@.len() <= text::MAX_TEXT,
    ensures
        final(service).wf(),
        match decide(*old(service), data@, peer) {
            Decision::Nothing => r is Ok && r->Ok_0 is None,
            Decision::Refuse(e) => r == Err::<Option<ServeJob>, ServeError>(e),
            Decision::Serve(key, offset) => r is Ok && r->Ok_0 is Some && job_of(
                r->Ok_0->0,
                *old(service),
                peer,
                key,
                offset,
            ),
        },
        final(service).cancels@ == match asked_for(*old(service), data@) {
            Some(key) if data@.len() > 0 => cancels_after(
                old(service).cancels@,
                decide(*old(service), data@, peer),
                cancel_key(peer, key),
            ),
            _ => old(service).cancels@,
        },
        *final(service) == (Service { cancels: final(service).cancels, ..*old(service) }),
        data@.len() > 0 ==> forall|p: packet::PacketView|
            #![trigger text::encoded(old(service).text_encoding, packet::packet_text(p))]
            data@ == text::encoded(old(service).text_encoding, packet::packet_text(p))
                && packet::well_parted(p) && text::lossless(
                old(service).text_encoding,
                packet::packet_text(p),
            ) ==> text::decoded(old(service).text_encoding, data@) == packet::packet_text(p),
{
    if data.len() == 0 {
        return Ok(None);
    }
    let p = match parse_packet(service.text_encoding, data) {
        Ok(p) => p,
        Err(e) => {
            return Err(ServeError::BadPacket(e));
        },
    };
    let base: u32 = p.command & 0xff;
    if base != IPMSG_GETFILEDATA && base != IPMSG_GETDIRFILES {
        return Ok(None);
    }
    let want_dir = base == IPMSG_GETDIRFILES;
    let extra = to_chars(p.extra.as_str());
    let parts = split(extra.as_slice(), ':');
    assert(forall|i: int|
        0 <= i < parts@.len() ==> chars::pieces(p.extra@, ':')[i] == (#[trigger] parts@[i])@);
    if want_dir {
        if parts.len() < 2 {
            return Err(ServeError::BadDirRequest);
        }
    } else if parts.len() < 3 {
        return Err(ServeError::BadFileRequest);
    }
    let offset: u64 = if want_dir {
        0
    } else {
        parse_auto_radix(parts[2].as_slice(), u64::MAX)
    };
    let pkt_no = to_text(parts[0].as_slice());
    let id = to_text(parts[1].as_slice());
    match lookup_file_entry(&service.files, pkt_no.as_str(), id.as_str()) {
        None => Ok(None),
        Some((packet_no, file_id, entry)) => {
            proof {
                file_table::lemma_requested_on_table(service.files@, pkt_no@, id@);
            }
            start_job(service, packet_no, file_id, entry, peer, want_dir, offset)
        },
    }
}

/// The event that tells that a transfer begins.
pub fn serving_started(job: &ServeJob) -> (r: Event)
    ensures
        r@ == (event::EventView::FileServingStarted {
            to: job.to,
            packet_no: job.packet_no,
            file_id: job.file_id,
            is_dir: job.is_dir,
        }),
{
    Event::FileServingStarted {
        to: job.to,
        packet_no: job.packet_no,
        file_id: job.file_id,
        is_dir: job.is_dir,
    }
}

/// How a transfer ended.
#[derive(Debug, Clone, Copy, PartialEq, Eq, Structural)]
pub enum ServeEnd {
    Done,
    /// The user stopped it.
    Canceled,
    /// It broke off.
    Broken,
    /// The file could not be opened.
    Unopened,
}

/// The event that tells how a transfer ended; the user need not be told of their
/// own doing.
pub open spec fn end_event(job: ServeJob, end: ServeEnd) -> Option<event::EventView> {
    match end {
        ServeEnd::Done => Some(
            event::EventView::FileServed {
                to: job.to,
                packet_no: job.packet_no,
                file_id: job.file_id,
                is_dir: job.is_dir,
            },
        ),
        ServeEnd::Canceled => None,
        ServeEnd::Broken | ServeEnd::Unopened => Some(
            event::EventView::FileServeFailed {
                to: job.to,
                packet_no: job.packet_no,
                file_id: job.file_id,
                is_dir: job.is_dir,
            },
        ),
    }
}

/// Ends a transfer. Once it had begun, its token is let go.
pub fn finish_serve(service: &mut Service, job: &ServeJob, end: ServeEnd) -> (r: Option<Event>)
    requires
        old(service).wf(),
    ensures
        final(service).wf(),
        match end_event(*job, end) {
            Some(e) => r is Some && r->0@ == e,
            None => r is None,
        },
        final(service).cancels@ == if end == ServeEnd::Unopened {
            old(service).cancels@
        } else {
            old(service).cancels@.without(cancel_key(job.to, (job.packet_no, job.file_id)))
        },
        *final(service) == (Service { cancels: final(service).cancels, ..*old(service) }),
{
    if end != ServeEnd::Unopened {
        let key = CancelKey { peer: job.to.ip(), packet_no: job.packet_no, file_id: job.file_id };
        service.cancels.clear_send_cancel_token(key);
    }
    match end {
        ServeEnd::Done => Some(
            Event::FileServed {
                to: job.to,
                packet_no: job.packet_no,
                file_id: job.file_id,
                is_dir: job.is_dir,
            },
        ),
        ServeEnd::Canceled => None,
        ServeEnd::Broken | ServeEnd::Unopened => Some(
            Event::FileServeFailed {
                to: job.to,
                packet_no: job.packet_no,
                file_id: job.file_id,
                is_dir: job.is_dir,
            },
        ),
    }
}

/// Withdraws an offer: takes it off the table and stops transfers of it. Whether it
/// was still on the table.
pub fn cancel_send(service: &mut Service, to: SocketAddr, packet_no: u32, file_id: u32) -> (r: bool)
    requires
        old(service).wf(),
    ensures
        final(service).wf(),
        r == old(service).files@.contains_key((packet_no, file_id)),
        final(service).files@ == old(service).files@.remove((packet_no, file_id)),
        final(service).cancels@ == old(service).cancels@.with_mark(
            cancel_key(to, (packet_no, file_id)),
        ),
        *final(service) == (Service {
            files: final(service).files,
            cancels: final(service).cancels,
            ..*old(service)
        }),
{
    let removed = service.files.remove(packet_no, file_id);
    service.cancels.mark(CancelKey { peer: to.ip(), packet_no, file_id });
    removed
}

/// Whatever a peer sends, it is served nothing but what was offered to its own host.
pub proof fn law_only_addressee_served(service: Service, data: Seq<u8>, peer: SocketAddr)
    ensures
        decide(service, data, peer) matches Decision::Serve(key, _) ==> {
            &&& service.files@.contains_key(key)
            &&& service.files@[key].to == peer.spec_ip()
            &&& !withdrawn(service, cancel_key(peer, key))
        },
{
    if let Ok(p) = packet::packet_in(text::decoded(service.text_encoding, data)) {
        match request_in(p) {
            Ok(Some(Request::File { packet_no, file_id, .. })) => {
                file_table::lemma_requested_on_table(service.files@, packet_no, file_id);
            },
            Ok(Some(Request::Dir { packet_no, file_id })) => {
                file_table::lemma_requested_on_table(service.files@, packet_no, file_id);
            },
            _ => {},
        }
    }
}

/// A withdrawn offer is not served any more, and a transfer of it that is under way
/// finds its token marked.
pub proof fn law_withdrawn_not_served(
    before: Service,
    after: Service,
    to: SocketAddr,
    key: (u32, u32),
    data: Seq<u8>,
    peer: SocketAddr,
)
    requires
        before.cancels@.sound(),
        after.files@ == before.files@.remove(key),
        after.cancels@ == before.cancels@.with_mark(cancel_key(to, key)),
    ensures
        !(decide(after, data, peer) matches Decision::Serve(k, _) && k == key),
        before.cancels@.current.contains_key(cancel_key(to, key)) ==> after.cancels@.marks[
            before.cancels@.token_of(cancel_key(to, key)) as int
        ],
{
    law_only_addressee_served(after, data, peer);
    cancel::law_mark_reaches_transfer(before.cancels@, cancel_key(to, key), 0);
}

} // verus!
