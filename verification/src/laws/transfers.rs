//! Transfers of files, from the offer to its end, as the user sees them.
use crate::app_state::model;
use crate::app_state::model::{ChatMessage, FileInfo, StateCmd};
use crate::app_state::state;
use crate::app_state::state::{Labels, StateView};
use crate::app_state::target;
use crate::app_state::target::Target;
use crate::chat_shell::transfer_view;
use crate::chat_shell::transfer_view::TransferStatus;
use crate::ipmsg_core::event::Event;
use crate::ipmsg_core::serve;
use crate::ipmsg_core::serve::{ServeEnd, ServeJob};
use crate::ipmsg_core::service::Service;
use crate::logic;
use crate::net;
use crate::net::SocketAddr;
use crate::number;
use vstd::prelude::*;

verus! {

/// The message offers the file with these numbers: to a peer with the host of `peer`
/// where it is the user's own, else from there. What came in is kept under the common
/// port.
pub open spec fn offers(
    m: ChatMessage,
    own: bool,
    peer: SocketAddr,
    packet_no: u32,
    file_id: u32,
) -> bool {
    &&& m.is_me == own
    &&& m.file is Some
    &&& m.file->0.packet_no == packet_no
    &&& m.file->0.file_id == file_id
    &&& if own {
        m.to.spec_ip() == peer.spec_ip()
    } else {
        m.from == SocketAddr::spec_new(peer.spec_ip(), 2425)
    }
}

/// The message at this place is the last that offers the file.
pub open spec fn last_offer(
    v: StateView,
    at: int,
    own: bool,
    peer: SocketAddr,
    packet_no: u32,
    file_id: u32,
) -> bool {
    &&& 0 <= at < v.messages.len()
    &&& offers(v.messages[at], own, peer, packet_no, file_id)
    &&& forall|k: int|
        at < k < v.messages.len() ==> !offers(
            #[trigger] v.messages[k],
            own,
            peer,
            packet_no,
            file_id,
        )
}

/// Nothing but the file of one message has changed.
pub open spec fn only_file_changed(v: StateView, w: StateView, at: int, f: FileInfo) -> bool {
    w == (StateView {
        messages: v.messages.update(at, ChatMessage { file: Some(f), ..v.messages[at] }),
        ..v
    })
}

/// The user interface is told the changed message, and the messages are saved.
pub open spec fn told_of_update(out: state::OutcomeView, m: ChatMessage) -> bool {
    &&& out.deltas == seq![model::DeltaView::MessageUpdated { message: m }]
    &&& out.changed
    &&& out.persist
    &&& out.arm_ack is None
}

proof fn lemma_same_host(a: SocketAddr, b: SocketAddr)
    ensures
        net::normalized(a) == net::normalized(b) <==> a.spec_ip() == b.spec_ip(),
{
}

proof fn lemma_served_hit(v: StateView, at: int, peer: SocketAddr, packet_no: u32, file_id: u32)
    requires
        last_offer(v, at, true, peer, packet_no, file_id),
    ensures
        target::last_hit(
            v.messages,
            Target::Served { to: net::normalized(peer), packet_no, file_id },
        ) == Some(at),
{
    let t = Target::Served { to: net::normalized(peer), packet_no, file_id };
    assert forall|k: int| 0 <= k < v.messages.len() implies (t.hits(#[trigger] v.messages[k])
        <==> offers(v.messages[k], true, peer, packet_no, file_id)) by {
        lemma_same_host(v.messages[k].to, peer);
    }
    target::law_last_hit(v.messages, t);
}

proof fn lemma_progress_hit(
    v: StateView,
    at: int,
    own: bool,
    peer: SocketAddr,
    packet_no: u32,
    file_id: u32,
)
    requires
        last_offer(v, at, own, peer, packet_no, file_id),
    ensures
        target::last_hit(
            v.messages,
            Target::Progress {
                from: net::normalized(peer),
                outgoing: Some(own),
                packet_no,
                file_id,
            },
        ) == Some(at),
{
    let t = Target::Progress {
        from: net::normalized(peer),
        outgoing: Some(own),
        packet_no,
        file_id,
    };
    assert forall|k: int| 0 <= k < v.messages.len() implies (t.hits(#[trigger] v.messages[k])
        <==> offers(v.messages[k], own, peer, packet_no, file_id)) by {
        lemma_same_host(v.messages[k].to, peer);
    }
    target::law_last_hit(v.messages, t);
}

/// A transfer to a peer is shown on the very offer that the peer asked for. Once it has
/// begun the offer is being sent; once it has come to its end the offer is sent; where
/// it broke off, or the file could not be opened, the offer has failed. What the user
/// stopped is not reported.
pub proof fn law_transfer_is_reported(
    v: StateView,
    at: int,
    job: ServeJob,
    end: ServeEnd,
    started: Event,
    ended: Event,
    labels: Labels,
)
    requires
        last_offer(v, at, true, job.to, job.packet_no, job.file_id),
        call_ensures(serve::serving_started, (&job,), started),
        serve::end_event(job, end) matches Some(e) ==> ended@ == e,
    ensures
        serve::end_event(job, end) is None <==> end == ServeEnd::Canceled,
        ({
            let f = v.messages[at].file->0;
            let w = v.past(StateCmd::ApplyEvent(started), labels).0;
            let g = w.messages[at].file->0;
            &&& only_file_changed(v, w, at, g)
            &&& g == (FileInfo {
                sending: true,
                saved: false,
                error: false,
                canceled: false,
                ..f
            })
            &&& transfer_view::status_of(g, true) == TransferStatus::Sending
            &&& told_of_update(v.past(StateCmd::ApplyEvent(started), labels).1, w.messages[at])
            &&& end != ServeEnd::Canceled ==> {
                let x = w.past(StateCmd::ApplyEvent(ended), labels).0;
                let h = x.messages[at].file->0;
                &&& only_file_changed(w, x, at, h)
                &&& told_of_update(w.past(StateCmd::ApplyEvent(ended), labels).1, x.messages[at])
                &&& h.name == f.name
                &&& h.size == f.size
                &&& h.local_path == f.local_path
                &&& h.packet_no == job.packet_no
                &&& h.file_id == job.file_id
                &&& transfer_view::status_of(h, true) == if end == ServeEnd::Done {
                    TransferStatus::Sent
                } else {
                    TransferStatus::SendFailed
                }
                &&& h.saved <==> end == ServeEnd::Done
                &&& h.error <==> end != ServeEnd::Done
                &&& !h.sending
                &&& end == ServeEnd::Done ==> h.received == f.size
            }
        }),
{
    lemma_served_hit(v, at, job.to, job.packet_no, job.file_id);
    let w = v.past(StateCmd::ApplyEvent(started), labels).0;
    assert(w.messages.len() == v.messages.len());
    assert(last_offer(w, at, true, job.to, job.packet_no, job.file_id)) by {
        assert(forall|k: int| at < k < w.messages.len() ==> w.messages[k] == v.messages[k]);
    }
    lemma_served_hit(w, at, job.to, job.packet_no, job.file_id);
}

/// An offer that the user has withdrawn stays withdrawn when the transfer of it breaks
/// off.
pub proof fn law_withdrawn_stays_withdrawn(
    v: StateView,
    at: int,
    job: ServeJob,
    end: ServeEnd,
    ended: Event,
    labels: Labels,
)
    requires
        last_offer(v, at, true, job.to, job.packet_no, job.file_id),
        v.messages[at].file->0.canceled,
        end != ServeEnd::Done,
        serve::end_event(job, end) matches Some(e) && ended@ == e,
    ensures
        v.past(StateCmd::ApplyEvent(ended), labels).0 == v,
        v.past(StateCmd::ApplyEvent(ended), labels).1.deltas.len() == 0,
{
    lemma_served_hit(v, at, job.to, job.packet_no, job.file_id);
}

/// An event about a transfer that no offer of the user fits changes nothing.
pub proof fn law_strange_transfer_ignored(
    v: StateView,
    job: ServeJob,
    end: ServeEnd,
    started: Event,
    ended: Event,
    labels: Labels,
)
    requires
        forall|k: int|
            0 <= k < v.messages.len() ==> !offers(
                #[trigger] v.messages[k],
                true,
                job.to,
                job.packet_no,
                job.file_id,
            ),
        call_ensures(serve::serving_started, (&job,), started),
        serve::end_event(job, end) matches Some(e) && ended@ == e,
    ensures
        v.past(StateCmd::ApplyEvent(started), labels) == (v, state::silence()),
        v.past(StateCmd::ApplyEvent(ended), labels) == (v, state::silence()),
{
    let t = Target::Served {
        to: net::normalized(job.to),
        packet_no: job.packet_no,
        file_id: job.file_id,
    };
    assert forall|k: int| 0 <= k < v.messages.len() implies !t.hits(#[trigger] v.messages[k]) by {
        lemma_same_host(v.messages[k].to, job.to);
    }
    target::law_last_hit(v.messages, t);
}

/// A report on a transfer changes the offer that it is about: what it states is taken
/// over, field by field, and what it leaves open stays as it was. The user interface is
/// told the changed message, and the messages are saved once the transfer has ended.
pub proof fn law_progress_is_noted(
    v: StateView,
    at: int,
    own: bool,
    peer: SocketAddr,
    packet_no: u32,
    file_id: u32,
    progress: u64,
    file_name: Option<String>,
    local_path: Option<String>,
    saved: Option<bool>,
    error: Option<bool>,
    canceled: Option<bool>,
    labels: Labels,
)
    requires
        last_offer(v, at, own, peer, packet_no, file_id),
    ensures
        ({
            let cmd = StateCmd::UpdateProgress {
                from: peer,
                file_id,
                packet_no,
                target_outgoing: Some(own),
                progress,
                file_name,
                local_path,
                saved,
                error,
                canceled,
            };
            let (w, out) = v.past(cmd, labels);
            let f = v.messages[at].file->0;
            let g = w.messages[at].file->0;
            &&& only_file_changed(v, w, at, g)
            &&& g.received == progress
            &&& saved is Some ==> g.saved == saved->0
            &&& saved is None ==> g.saved == f.saved
            &&& error is Some ==> g.error == error->0
            &&& error is None ==> g.error == f.error
            &&& canceled is Some ==> g.canceled == canceled->0
            &&& canceled is None ==> g.canceled == f.canceled
            &&& local_path is Some ==> g.local_path == local_path
            &&& local_path is None ==> g.local_path == f.local_path
            &&& file_name is Some ==> g.current_file == file_name
            &&& file_name is None ==> g.current_file == f.current_file
            &&& g.packet_no == packet_no
            &&& g.file_id == file_id
            &&& g.name == f.name
            &&& g.size == f.size
            &&& g.is_dir == f.is_dir
            &&& g.sending == f.sending
            &&& out.deltas == seq![
                model::DeltaView::MessageUpdated { message: w.messages[at] },
            ]
            &&& out.changed
            &&& out.arm_ack is None
            &&& out.persist <==> saved == Some(true) || error == Some(true) || canceled == Some(
                true,
            )
        }),
{
    lemma_progress_hit(v, at, own, peer, packet_no, file_id);
}

/// A download is shown as what it is. While it goes on it is being received, as far as it
/// has come; once it is done it is saved, under the path that it was saved under; where it
/// fails it has failed, and can be tried again; where the user stops it, it is stopped.
pub proof fn law_download_is_shown(
    v: StateView,
    at: int,
    peer: SocketAddr,
    packet_no: u32,
    file_id: u32,
    progress: u64,
    path: String,
    going: StateCmd,
    done: StateCmd,
    failed: StateCmd,
    stopped: StateCmd,
    labels: Labels,
)
    requires
        last_offer(v, at, false, peer, packet_no, file_id),
        call_ensures(
            logic::download_progress,
            (peer, packet_no, file_id, progress, None::<String>),
            going,
        ),
        call_ensures(logic::download_done, (peer, packet_no, file_id, progress, path), done),
        call_ensures(logic::download_failed, (peer, packet_no, file_id), failed),
        call_ensures(logic::transfer_canceled, (peer, packet_no, file_id, false), stopped),
    ensures
        ({
            let f = v.messages[at].file->0;
            let w = v.past(going, labels).0;
            let g = w.messages[at].file->0;
            &&& only_file_changed(v, w, at, g)
            &&& g.received == progress
            &&& !g.error
            &&& progress > 0 && !f.saved && !f.canceled ==> {
                transfer_view::status_of(g, false) == if f.is_dir {
                    TransferStatus::ReceivingFolder
                } else if f.size > 0 {
                    TransferStatus::ReceivingFile { received: progress, size: f.size }
                } else {
                    TransferStatus::ReceivingBytes { received: progress }
                }
            }
            &&& g.local_path == f.local_path
        }),
        ({
            let w = v.past(done, labels).0;
            let g = w.messages[at].file->0;
            &&& only_file_changed(v, w, at, g)
            &&& transfer_view::status_of(g, false) == TransferStatus::Saved
            &&& g.local_path == Some(path)
            &&& g.received == progress
            &&& v.past(done, labels).1.persist
        }),
        ({
            let w = v.past(failed, labels).0;
            let g = w.messages[at].file->0;
            &&& only_file_changed(v, w, at, g)
            &&& !v.messages[at].file->0.canceled ==> transfer_view::status_of(g, false)
                == TransferStatus::ReceiveFailed
            &&& !g.saved && g.error && g.received == 0
            &&& v.past(failed, labels).1.persist
        }),
        ({
            let w = v.past(stopped, labels).0;
            let g = w.messages[at].file->0;
            &&& only_file_changed(v, w, at, g)
            &&& transfer_view::status_of(g, false) == TransferStatus::Canceled
            &&& !g.saved && !g.error && g.received == 0
            &&& v.past(stopped, labels).1.persist
        }),
{
    lemma_progress_hit(v, at, false, peer, packet_no, file_id);
}

/// An upload that the user stops is shown as stopped, on the offer to that peer.
pub proof fn law_stopped_upload_is_shown(
    v: StateView,
    at: int,
    peer: SocketAddr,
    packet_no: u32,
    file_id: u32,
    stopped: StateCmd,
    labels: Labels,
)
    requires
        last_offer(v, at, true, peer, packet_no, file_id),
        call_ensures(logic::transfer_canceled, (peer, packet_no, file_id, true), stopped),
    ensures
        ({
            let w = v.past(stopped, labels).0;
            let g = w.messages[at].file->0;
            &&& only_file_changed(v, w, at, g)
            &&& transfer_view::status_of(g, true) == TransferStatus::Canceled
            &&& !g.saved && !g.error && g.received == 0
        }),
{
    lemma_progress_hit(v, at, true, peer, packet_no, file_id);
}

/// A report on a transfer that no message fits changes nothing.
pub proof fn law_strange_progress_ignored(
    v: StateView,
    own: bool,
    peer: SocketAddr,
    packet_no: u32,
    file_id: u32,
    cmd: StateCmd,
    labels: Labels,
)
    requires
        cmd matches StateCmd::UpdateProgress {
            from,
            file_id: id,
            packet_no: n,
            target_outgoing,
            ..
        } && from == peer && n == packet_no && id == file_id && target_outgoing == Some(own),
        forall|k: int|
            0 <= k < v.messages.len() ==> !offers(
                #[trigger] v.messages[k],
                own,
                peer,
                packet_no,
                file_id,
            ),
    ensures
        v.past(cmd, labels) == (v, state::silence()),
{
    let t = Target::Progress {
        from: net::normalized(peer),
        outgoing: Some(own),
        packet_no,
        file_id,
    };
    assert forall|k: int| 0 <= k < v.messages.len() implies !t.hits(#[trigger] v.messages[k]) by {
        lemma_same_host(v.messages[k].to, peer);
    }
    target::law_last_hit(v.messages, t);
}

/// A report that does not say which direction it is about is about the last message with
/// that peer and these numbers, in either direction.
pub proof fn law_progress_in_any_direction(
    v: StateView,
    at: int,
    peer: SocketAddr,
    packet_no: u32,
    file_id: u32,
    cmd: StateCmd,
    labels: Labels,
)
    requires
        0 <= at < v.messages.len(),
        offers(v.messages[at], true, peer, packet_no, file_id) || offers(
            v.messages[at],
            false,
            peer,
            packet_no,
            file_id,
        ),
        forall|k: int|
            at < k < v.messages.len() ==> !offers(
                #[trigger] v.messages[k],
                true,
                peer,
                packet_no,
                file_id,
            ) && !offers(v.messages[k], false, peer, packet_no, file_id),
        cmd matches StateCmd::UpdateProgress {
            from,
            file_id: id,
            packet_no: n,
            target_outgoing,
            ..
        } && from == peer && n == packet_no && id == file_id && target_outgoing is None,
    ensures
        ({
            let w = v.past(cmd, labels).0;
            let g = w.messages[at].file->0;
            &&& only_file_changed(v, w, at, g)
            &&& g.received == cmd->progress
            &&& cmd->saved is Some ==> g.saved == cmd->saved->0
            &&& cmd->error is Some ==> g.error == cmd->error->0
            &&& cmd->canceled is Some ==> g.canceled == cmd->canceled->0
        }),
{
    let t = Target::Progress { from: net::normalized(peer), outgoing: None, packet_no, file_id };
    assert forall|k: int| 0 <= k < v.messages.len() implies (t.hits(#[trigger] v.messages[k])
        <==> offers(v.messages[k], true, peer, packet_no, file_id) || offers(
        v.messages[k],
        false,
        peer,
        packet_no,
        file_id,
    )) by {
        lemma_same_host(v.messages[k].to, peer);
    }
    target::law_last_hit(v.messages, t);
    assert(target::last_hit(v.messages, t) == Some(at));
}

/// While a folder is received, the file that is received just then is shown.
pub proof fn law_current_file_shown(
    v: StateView,
    at: int,
    peer: SocketAddr,
    packet_no: u32,
    file_id: u32,
    progress: u64,
    name: String,
    going: StateCmd,
    labels: Labels,
)
    requires
        last_offer(v, at, false, peer, packet_no, file_id),
        call_ensures(
            logic::download_progress,
            (peer, packet_no, file_id, progress, Some(name)),
            going,
        ),
    ensures
        ({
            let w = v.past(going, labels).0;
            let g = w.messages[at].file->0;
            &&& only_file_changed(v, w, at, g)
            &&& g.current_file == Some(name)
            &&& g.received == progress
            &&& !g.saved && !g.canceled && g.is_dir ==> transfer_view::status_of(g, false)
                == TransferStatus::ReceivingFolder
        }),
{
    lemma_progress_hit(v, at, false, peer, packet_no, file_id);
}

/// A download is known by the address of its sender and its two numbers.
pub proof fn law_download_key(from: SocketAddr, packet_no: u32, file_id: u32, r: String)
    requires
        call_ensures(logic::download_key, (from, packet_no, file_id), r),
    ensures
        r@ == net::addr_text(from) + seq!['-'] + number::decimal(packet_no as nat) + seq!['-']
            + number::decimal(file_id as nat),
{
    assert(r@ =~= net::addr_text(from) + seq!['-'] + number::decimal(packet_no as nat) + seq!['-']
        + number::decimal(file_id as nat));
}

/// The events about a transfer name the peer, the numbers and the kind of what is
/// transferred, the same at its beginning and at its end.
pub proof fn law_transfer_events(
    service: &mut Service,
    job: ServeJob,
    end: ServeEnd,
    started: Event,
    ended: Option<Event>,
)
    requires
        call_ensures(serve::serving_started, (&job,), started),
        call_ensures(serve::finish_serve, (service, &job, end), ended),
    ensures
        started is FileServingStarted,
        started->FileServingStarted_to == job.to,
        started->FileServingStarted_packet_no == job.packet_no,
        started->FileServingStarted_file_id == job.file_id,
        started->FileServingStarted_is_dir == job.is_dir,
        end == ServeEnd::Done ==> {
            &&& ended is Some
            &&& ended->0 is FileServed
            &&& ended->0->FileServed_to == started->FileServingStarted_to
            &&& ended->0->FileServed_packet_no == started->FileServingStarted_packet_no
            &&& ended->0->FileServed_file_id == started->FileServingStarted_file_id
            &&& ended->0->FileServed_is_dir == started->FileServingStarted_is_dir
        },
        end == ServeEnd::Broken || end == ServeEnd::Unopened ==> {
            &&& ended is Some
            &&& ended->0 is FileServeFailed
            &&& ended->0->FileServeFailed_to == started->FileServingStarted_to
            &&& ended->0->FileServeFailed_packet_no == started->FileServingStarted_packet_no
            &&& ended->0->FileServeFailed_file_id == started->FileServingStarted_file_id
            &&& ended->0->FileServeFailed_is_dir == started->FileServingStarted_is_dir
        },
        end == ServeEnd::Canceled ==> ended is None,
{
}

} // verus!
