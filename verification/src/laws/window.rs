//! The window: what it shows of messages and transfers, and what it does for the user.
use crate::app_state::history;
use crate::app_state::label;
use crate::app_state::label::OfferLabel;
use crate::app_state::model::{ChatMessage, FileInfo, StateCmd, StateDelta};
use crate::app_state::size;
use crate::app_state::state::CoreState;
use crate::chars;
use crate::chat_shell::conv_id::ConvId;
use crate::chat_shell::conversation;
use crate::chat_shell::mirror;
use crate::chat_shell::shell;
use crate::chat_shell::shell::{Retry, ShellAction, ShellState};
use crate::chat_shell::transfer_view;
use crate::chat_shell::transfer_view::{
    DeliveryMark, ReceivePlan, TransferButton, TransferDetail, TransferStatus,
};
use crate::chat_shell::ui_state;
use crate::chat_shell::ui_state::{UiEvent, UiState};
use crate::ipmsg_core::event::Event;
use crate::laws::conversations;
use crate::net::SocketAddr;
use crate::number;
use vstd::prelude::*;

verus! {

/// Some of the file has come, or one of its files has begun, and it has not ended.
pub open spec fn under_way(f: FileInfo) -> bool {
    !f.saved && !f.error && !f.canceled && (f.received > 0 || f.current_file is Some)
}

/// The status of a transfer tells whether it was stopped, failed, is complete, goes on, or
/// has not begun, in that order; and of one that goes on how far it is.
pub proof fn law_status_shown(f: &FileInfo, own: TransferStatus, other: TransferStatus)
    requires
        call_ensures(transfer_view::transfer_status, (f, true), own),
        call_ensures(transfer_view::transfer_status, (f, false), other),
    ensures
        own == TransferStatus::Canceled <==> f.canceled,
        other == TransferStatus::Canceled <==> f.canceled,
        own == TransferStatus::SendFailed <==> !f.canceled && f.error,
        other == TransferStatus::ReceiveFailed <==> !f.canceled && f.error,
        own == TransferStatus::Sent <==> !f.canceled && !f.error && f.saved,
        other == TransferStatus::Saved <==> !f.canceled && !f.error && f.saved,
        own == TransferStatus::Sending <==> !f.canceled && !f.error && !f.saved && f.sending,
        own == TransferStatus::Offered <==> !f.canceled && !f.error && !f.saved && !f.sending,
        other == TransferStatus::Waiting <==> !f.canceled && !f.error && !f.saved && !under_way(*f),
        other == TransferStatus::ReceivingFolder <==> under_way(*f) && f.is_dir,
        other == (TransferStatus::ReceivingFile { received: f.received, size: f.size })
            <==> under_way(*f) && !f.is_dir && f.size > 0,
        other == (TransferStatus::ReceivingBytes { received: f.received }) <==> under_way(*f)
            && !f.is_dir && f.size == 0,
{
}

/// What the user can do about a transfer: stop what they receive; look at what was saved, or
/// at what they sent, in its folder; receive what has not begun, and also what failed or
/// was stopped. What is saved is not received again.
pub proof fn law_transfer_controls(
    f: &FileInfo,
    is_me: bool,
    receiving: bool,
    button: TransferButton,
    detail: TransferDetail,
    plan: ReceivePlan,
    place: Option<(String, bool)>,
)
    requires
        call_ensures(transfer_view::is_receiving, (f,), receiving),
        call_ensures(transfer_view::transfer_button, (f, is_me), button),
        call_ensures(transfer_view::transfer_detail, (f, is_me), detail),
        call_ensures(transfer_view::receive_attachment, (f,), plan),
        call_ensures(transfer_view::open_transfer_in_folder, (f,), place),
    ensures
        receiving <==> under_way(*f),
        button == TransferButton::CancelReceiving <==> under_way(*f) && !is_me,
        button == TransferButton::OpenInFolder <==> f.local_path is Some && (is_me || f.saved),
        detail == TransferDetail::Nothing <==> is_me || f.saved,
        detail == TransferDetail::ReceiveButton <==> !is_me && !f.saved && !under_way(*f),
        under_way(*f) && !is_me && f.is_dir ==> detail == TransferDetail::CurrentFile(
            f.current_file,
        ),
        under_way(*f) && !is_me && !f.is_dir && f.size > 0 ==> detail == (TransferDetail::Progress {
            received: f.received,
            total: f.size,
        }),
        under_way(*f) && !is_me && !f.is_dir && f.size == 0 ==> detail == (
        TransferDetail::Progress { received: f.received, total: 1 }),
        plan == ReceivePlan::Nothing <==> f.saved,
        plan == ReceivePlan::Folder <==> !f.saved && f.is_dir,
        plan == ReceivePlan::File <==> !f.saved && !f.is_dir,
        place is Some <==> f.local_path is Some,
        place is Some ==> (place->0).0 == f.local_path->0 && (place->0).1 == f.is_dir,
{
}

/// A failed message is marked as failed, an own one that was confirmed as delivered, and no
/// other is marked. A user is shown by the first character of their name.
pub proof fn law_marks(m: &ChatMessage, r: DeliveryMark, name: &str, c: char)
    requires
        call_ensures(transfer_view::delivery_mark, (m,), r),
        call_ensures(transfer_view::avatar, (name,), c),
    ensures
        r == DeliveryMark::Failed <==> m.failed,
        r == DeliveryMark::Delivered <==> !m.failed && m.is_me && m.delivered,
        r == DeliveryMark::Nothing <==> !m.failed && !(m.is_me && m.delivered),
        name@.len() > 0 ==> c == name@[0],
        name@.len() == 0 ==> c == '?',
{
}

/// A failed message, and no other, can be sent again: to the same peer, with the same text,
/// or with the same file from where it lies.
pub proof fn law_retry_offered(m: &ChatMessage, r: Option<Retry>)
    requires
        call_ensures(shell::retry_message, (m,), r),
    ensures
        r is Some <==> m.failed,
        r matches Some(again) ==> {
            &&& again.id == m.id
            &&& m.is_me ==> again.to == m.to
            &&& !m.is_me ==> again.to == m.from
            &&& again.text@ == conversations::shown_of(*m)
            &&& again.file is Some <==> m.file is Some && m.file->0.local_path is Some
            &&& again.file is Some ==> (again.file->0).0 == m.file->0.local_path->0 && (
            again.file->0).1 == m.file->0.is_dir
        },
{
    if m.text@.len() == 0 {
        assert(m.text@ =~= Seq::<char>::empty());
    }
}

/// A size below 1024 is shown in bytes; a larger one in the largest of three units that it
/// reaches, to the nearest tenth, and to the even one of two that are equally near.
pub proof fn law_size_shown(n: u64, r: String, unit: nat, name: char)
    requires
        call_ensures(size::format_size, (n,), r),
        n < 0x20_0000_0000_0000,
        (unit == 0x400 && name == 'K' && 0x400 <= n < 0x10_0000) || (unit == 0x10_0000 && name
            == 'M' && 0x10_0000 <= n < 0x4000_0000) || (unit == 0x4000_0000 && name == 'G'
            && 0x4000_0000 <= n) || n < 0x400,
    ensures
        n < 0x400 ==> r@ == number::decimal(n as nat) + seq![' ', 'B'],
        n >= 0x400 ==> exists|tenths: nat|
            {
                &&& r@ == #[trigger] number::decimal(tenths / 10) + seq!['.'] + number::decimal(
                    tenths % 10,
                ) + seq![' ', name, 'B']
                &&& -(unit as int) <= 2 * (10 * n - tenths * unit) <= unit
                &&& 2 * (10 * n - tenths * unit) == unit || 2 * (10 * n - tenths * unit) == -(
                unit as int) ==> tenths % 2 == 0
            },
{
    reveal_strlit(" B");
    reveal_strlit(" KB");
    reveal_strlit(" MB");
    reveal_strlit(" GB");
    size::law_shown_exactly(n as nat);
    assert(" B"@ =~= seq![' ', 'B']);
    assert(" KB"@ =~= seq![' ', 'K', 'B']);
    assert(" MB"@ =~= seq![' ', 'M', 'B']);
    assert(" GB"@ =~= seq![' ', 'G', 'B']);
    if n >= 0x400 {
        let tenths = size::nearest(10 * (n as nat), unit);
        let text = number::decimal(tenths / 10) + seq!['.'] + number::decimal(tenths % 10) + seq![
            ' ',
            name,
            'B',
        ];
        assert(r@ =~= text);
        let q = (10 * (n as nat)) / unit;
        let rest = (10 * (n as nat)) % unit;
        assert(10 * n == q * unit + rest) by (nonlinear_arith)
            requires
                unit > 0,
                q == (10 * (n as nat)) / unit,
                rest == (10 * (n as nat)) % unit,
        ;
        assert((q + 1) * unit == q * unit + unit) by (nonlinear_arith);
        assert(rest < unit);
    }
}

/// Of an offer that comes in it is said what it is: a folder with its name, or a file with
/// its name and its size. Nothing is said of anything else.
pub proof fn law_offer_words(
    from: SocketAddr,
    user: String,
    host: String,
    packet_no: u32,
    file_id: u32,
    name: String,
    n: u64,
    is_dir: bool,
    r: Option<OfferLabel>,
    shown: String,
    other: StateCmd,
    s: Option<OfferLabel>,
)
    requires
        call_ensures(
            label::offer_label,
            (&StateCmd::ApplyEvent(
                Event::FileOffer { from, user, host, packet_no, file_id, name, size: n, is_dir },
            ),),
            r,
        ),
        call_ensures(size::format_size, (n,), shown),
        call_ensures(label::offer_label, (&other,), s),
        !(other matches StateCmd::ApplyEvent(Event::FileOffer { .. })),
    ensures
        is_dir ==> r == Some(OfferLabel::Folder { name }),
        !is_dir ==> r is Some && r->0 is File && r->0->File_name == name && r->0->File_size@
            == shown@,
        s is None,
{
}

/// At first sight each conversation has its last ten messages, in their order, and it is
/// known of which there are more.
pub proof fn law_first_sight_is_ten(
    s: &mut CoreState,
    messages: Vec<ChatMessage>,
    r: StateDelta,
    addr: SocketAddr,
)
    requires
        old(s).wf(),
        old(s)@.next_id + messages@.len() <= u64::MAX,
        call_ensures(CoreState::load_history, (s, messages), r),
    ensures
        ({
            let all = history::selected(final(s)@.messages, addr, None);
            let n = if all.len() < 10 {
                all.len() as int
            } else {
                10
            };
            &&& r@ is Sync
            &&& history::selected(r@->Sync_messages, addr, None) == all.subrange(
                all.len() - n,
                all.len() as int,
            )
            &&& all.len() > 0 ==> ui_state::flags_in(r@->Sync_has_more).contains_key(addr) && (
            ui_state::flags_in(r@->Sync_has_more)[addr] <==> all.len() > 10)
            &&& all.len() == 0 ==> !ui_state::flags_in(r@->Sync_has_more).contains_key(addr)
        }),
{
    let v = final(s)@.messages;
    let peers = history::peers_in(v);
    mirror::lemma_peers(v, addr);
    mirror::lemma_windows(v, peers, addr);
    mirror::lemma_flags(v, peers, addr);
    let all = history::selected(v, addr, None);
    let n = if all.len() < 10 {
        all.len() as int
    } else {
        10
    };
    assert(history::last_of(all, 10) =~= all.subrange(all.len() - n, all.len() as int));
    if !peers.contains(addr) {
        assert(all =~= Seq::<ChatMessage>::empty());
    }
}

/// The window starts with nothing selected and nothing typed, at the end of the view.
pub proof fn law_window_at_first(r: ShellState)
    requires
        call_ensures(ShellState::new, (), r),
    ensures
        r.selected is None,
        r.compose_text@.len() == 0,
        r.stick_to_bottom,
        !r.loading_more,
        r.load_more_anchor is None,
        r.pending_scroll_frames == 0,
{
}

/// What the user typed is sent to the conversation that is selected, without the white space
/// around it, and the input is empty then; nothing is sent where nothing is selected or
/// typed, and what was typed stays.
pub proof fn law_typed_text_sent(s: &mut ShellState, r: Option<(SocketAddr, String)>)
    requires
        call_ensures(ShellState::send_current_message, (s,), r),
    ensures
        r is Some <==> old(s).selected is Some && chars::trimmed(old(s).compose_text@).len() > 0,
        r is Some ==> (r->0).0 == old(s).selected->0.spec_addr() && (r->0).1@ == chars::trimmed(
            old(s).compose_text@,
        ) && final(s).compose_text@.len() == 0,
        r is None ==> *final(s) == *old(s),
        final(s).selected == old(s).selected,
        final(s).stick_to_bottom == old(s).stick_to_bottom,
        final(s).loading_more == old(s).loading_more,
{
}

/// A conversation that the user selects is the selected one, and its messages count as read.
/// What was asked for of another conversation is not waited for any more.
pub proof fn law_conversation_selected(
    s: &mut ShellState,
    ui: &mut UiState,
    conv: ConvId,
    r: StateCmd,
    k: int,
)
    requires
        old(ui).wf(),
        call_ensures(ShellState::select_conversation, (s, ui, conv), r),
        conversations::each_once(old(ui)@.conversations),
    ensures
        final(s).selected == Some(conv),
        !final(s).loading_more,
        final(s).load_more_anchor is None,
        final(s).compose_text == old(s).compose_text,
        r == (StateCmd::ClearUnread { addr: conv.spec_addr() }),
        final(ui)@.threads == old(ui)@.threads,
        final(ui)@.conversations.len() == old(ui)@.conversations.len(),
        0 <= k < old(ui)@.conversations.len() ==> final(ui)@.conversations[k]
            == if old(ui)@.conversations[k].conv == conv {
            conversation::ConversationView { unread: 0, ..old(ui)@.conversations[k] }
        } else {
            old(ui)@.conversations[k]
        },
{
    conversations::lemma_place(old(ui)@.conversations, conv);
}

/// Messages of the selected conversation count as read as long as the view is at its end; in
/// no other case does the count change.
pub proof fn law_seen_messages_are_read(
    s: &ShellState,
    ui: &mut UiState,
    r: Option<StateCmd>,
    k: int,
)
    requires
        old(ui).wf(),
        call_ensures(ShellState::clear_selected_unread_if_needed, (s, ui), r),
        conversations::each_once(old(ui)@.conversations),
        0 <= k < old(ui)@.conversations.len(),
    ensures
        s.selected is None || !s.stick_to_bottom ==> r is None && final(ui)@ == old(ui)@,
        s.selected == Some(old(ui)@.conversations[k].conv) && s.stick_to_bottom ==> {
            &&& final(ui)@.conversations[k].unread == 0
            &&& old(ui)@.conversations[k].unread > 0 ==> r == Some(
                StateCmd::ClearUnread { addr: s.selected->0.spec_addr() },
            )
            &&& old(ui)@.conversations[k].unread == 0 ==> r is None
        },
        s.selected != Some(old(ui)@.conversations[k].conv) ==> final(ui)@.conversations[k]
            == old(ui)@.conversations[k],
{
    if s.selected is Some {
        conversations::lemma_place(old(ui)@.conversations, s.selected->0);
    }
}

/// Earlier messages are asked for where the user looks at the first ones that are shown and
/// there are more, and not again before they came: ten, from the first that is shown on.
pub proof fn law_earlier_asked_for(
    s: &mut ShellState,
    ui: &UiState,
    near_top: bool,
    top: usize,
    r: Option<StateCmd>,
)
    requires
        ui.wf(),
        call_ensures(ShellState::maybe_load_more_history, (s, ui, near_top, top), r),
    ensures
        ({
            let conv = old(s).selected->0;
            let shown = ui_state::thread_of(ui@.threads, conv);
            let addr = conv.spec_addr();
            let due = old(s).selected is Some && near_top && !old(s).loading_more && shown.len() > 0
                && ui@.has_more.contains_key(addr) && ui@.has_more[addr];
            &&& r is Some <==> due
            &&& due ==> r == Some(
                StateCmd::LoadMore { addr, before_id: shown[0].id, limit: 10 },
            ) && final(s).loading_more && final(s).load_more_anchor == Some(top)
            &&& !due ==> *final(s) == *old(s)
            &&& final(s).selected == old(s).selected
            &&& final(s).compose_text == old(s).compose_text
        }),
{
}

/// When earlier messages have come, the view stays where it was: at its end, or at the row
/// that was on top before, as far down as messages came. A new message in the selected
/// conversation is scrolled to if the view was at its end. Other conversations move
/// nothing.
pub proof fn law_view_follows(
    s: &mut ShellState,
    conv: ConvId,
    r: ShellAction,
    t: &mut ShellState,
    count: usize,
    q: ShellAction,
)
    requires
        call_ensures(ShellState::on_ui_event, (s, UiEvent::MessageAdded { conv }), r),
        call_ensures(ShellState::on_ui_event, (t, UiEvent::MessagesLoaded { conv, count }), q),
        old(t).load_more_anchor matches Some(anchor) ==> anchor + count <= usize::MAX,
    ensures
        r == ShellAction::Nothing,
        old(s).selected == Some(conv) && old(s).stick_to_bottom ==> final(s).pending_scroll_frames
            == 2,
        old(s).selected != Some(conv) || !old(s).stick_to_bottom ==> *final(s) == *old(s),
        final(s).selected == old(s).selected,
        !final(t).loading_more,
        final(t).load_more_anchor is None,
        final(t).selected == old(t).selected,
        old(t).selected != Some(conv) ==> q == ShellAction::Nothing,
        old(t).selected == Some(conv) && old(t).stick_to_bottom ==> q
            == ShellAction::ScrollToBottom,
        old(t).selected == Some(conv) && !old(t).stick_to_bottom ==> (
        old(t).load_more_anchor matches Some(anchor) ==> q == ShellAction::ScrollToItem(
            (anchor + count) as usize,
        )),
        old(t).selected == Some(conv) && !old(t).stick_to_bottom && old(t).load_more_anchor is None
            ==> q == ShellAction::Nothing,
{
}

/// Where nothing is selected, the first conversation of the list is; the view keeps to its
/// end where the user is there. A view that is to be scrolled is, frame by frame, until no
/// frame is left.
pub proof fn law_frames(
    s: &mut ShellState,
    ui: &UiState,
    near_bottom: bool,
    t: &mut ShellState,
    r: (bool, bool),
)
    requires
        call_ensures(ShellState::begin_frame, (s, ui, near_bottom), ()),
        call_ensures(ShellState::end_frame, (t,), r),
    ensures
        old(s).selected is Some ==> final(s).selected == old(s).selected,
        old(s).selected is None && ui@.conversations.len() > 0 ==> final(s).selected == Some(
            ui@.conversations[0].conv,
        ),
        old(s).selected is None && ui@.conversations.len() == 0 ==> final(s).selected is None,
        final(s).stick_to_bottom == near_bottom,
        final(s).pending_scroll_frames == if old(s).selected is None && near_bottom
            && ui@.conversations.len() > 0 && ui_state::thread_of(
            ui@.threads,
            ui@.conversations[0].conv,
        ).len() > 0 {
            2
        } else {
            old(s).pending_scroll_frames
        },
        final(s).loading_more == old(s).loading_more,
        final(s).compose_text == old(s).compose_text,
        r.0 <==> old(t).pending_scroll_frames > 0,
        r.1 <==> final(t).pending_scroll_frames > 0,
        old(t).pending_scroll_frames > 0 ==> final(t).pending_scroll_frames
            == old(t).pending_scroll_frames - 1,
        old(t).pending_scroll_frames == 0 ==> final(t).pending_scroll_frames == 0,
        final(t).selected == old(t).selected,
{
}

/// What the interface tells the window of other changes: texts are set anew where the
/// settings changed, and nothing is done otherwise.
pub proof fn law_other_news(
    s: &mut ShellState,
    r: ShellAction,
    t: &mut ShellState,
    q: ShellAction,
)
    requires
        call_ensures(ShellState::on_ui_event, (s, UiEvent::SettingsChanged), r),
        call_ensures(ShellState::on_ui_event, (t, UiEvent::Changed), q),
    ensures
        r == ShellAction::RefreshTexts,
        *final(s) == *old(s),
        q == ShellAction::Nothing,
        *final(t) == *old(t),
{
}

/// A size that has more than 53 bits is shown in the largest unit, and as near as its first
/// 53 bits tell.
pub proof fn law_huge_size_shown(n: u64, r: String)
    requires
        call_ensures(size::format_size, (n,), r),
        n >= 0x20_0000_0000_0000,
    ensures
        exists|tenths: nat|
            {
                &&& r@ == #[trigger] number::decimal(tenths / 10) + seq!['.'] + number::decimal(
                    tenths % 10,
                ) + seq![' ', 'G', 'B']
                &&& -(0x4000_0000 + 20480) <= 2 * (10 * n - tenths * 0x4000_0000) <= 0x4000_0000
                    + 20480
            },
{
    reveal_strlit(" GB");
    assert(" GB"@ =~= seq![' ', 'G', 'B']);
    size::lemma_last_bit(n as nat);
    let bit = size::last_bit(n as nat);
    let q = (n as nat) / bit;
    let rest = (n as nat) % bit;
    let near = size::nearest(n as nat, bit);
    let shown = near * bit;
    assert(n == q * bit + rest && rest < bit) by (nonlinear_arith)
        requires
            bit > 0,
            q == (n as nat) / bit,
            rest == (n as nat) % bit,
    ;
    assert((q + 1) * bit == q * bit + bit) by (nonlinear_arith);
    assert(shown == size::shown_size(n as nat));
    assert(-(bit as int) <= 2 * (n - shown) <= bit);
    assert(shown >= 0x4000_0000);
    let unit: nat = 0x4000_0000;
    let tenths = size::nearest(10 * shown, unit);
    assert(r@ =~= number::decimal(tenths / 10) + seq!['.'] + number::decimal(tenths % 10) + seq![
        ' ',
        'G',
        'B',
    ]);
}

} // verus!
