//! What the window itself keeps: what is selected, what is typed, how it scrolls.
use crate::app_state::history::LOAD_MORE_LIMIT;
use crate::app_state::model;
use crate::app_state::model::{message_peer_addr, ChatMessage, StateCmd};
use crate::chars;
use crate::chars::{to_chars, to_text, trim};
use crate::chat_shell::conv_id::ConvId;
use crate::chat_shell::conversation;
use crate::chat_shell::conversation::{display_text, DisplayText};
use crate::chat_shell::ui_state;
use crate::chat_shell::ui_state::{UiEvent, UiState};
use crate::net::SocketAddr;
use vstd::prelude::*;

verus! {

/// What the window itself keeps.
#[derive(Debug)]
pub struct ShellState {
    /// The conversation that is shown.
    pub selected: Option<ConvId>,
    pub compose_text: String,
    /// For how many frames the view is still scrolled to its end.
    pub pending_scroll_frames: u8,
    /// The view is at its end, and stays there.
    pub stick_to_bottom: bool,
    /// Earlier messages were asked for and have not come.
    pub loading_more: bool,
    /// The row that was on top when they were asked for.
    pub load_more_anchor: Option<usize>,
}

/// What is to be done about the view.
#[derive(Debug, Clone, Copy, PartialEq, Eq, Structural)]
pub enum ShellAction {
    Nothing,
    /// Texts are to be set anew.
    RefreshTexts,
    ScrollToBottom,
    ScrollToItem(usize),
}

/// A message that is sent again.
#[derive(Debug)]
pub struct Retry {
    pub id: u64,
    pub to: SocketAddr,
    pub text: DisplayText,
    /// The path of a file, and whether it is a folder.
    pub file: Option<(String, bool)>,
}

/// What a failed message is sent again as; `None` for one that has not failed.
pub fn retry_message(message: &ChatMessage) -> (r: Option<Retry>)
    ensures
        r is Some <==> message.failed,
        r matches Some(retry) ==> {
            &&& retry.id == message.id
            &&& retry.to == model::peer_of(*message)
            &&& retry.text@ == conversation::display_of(*message)
            &&& retry.file == match message.file {
                Some(f) => match f.local_path {
                    Some(path) => Some((path, f.is_dir)),
                    None => None,
                },
                None => None,
            }
        },
{
    if !message.failed {
        return None;
    }
    let file = match &message.file {
        Some(f) => match &f.local_path {
            Some(path) => Some((path.clone(), f.is_dir)),
            None => None,
        },
        None => None,
    };
    Some(
        Retry {
            id: message.id,
            to: message_peer_addr(message),
            text: display_text(message),
            file,
        },
    )
}

impl ShellState {
    pub fn new() -> (r: ShellState)
        ensures
            r.compose_text@ == Seq::<char>::empty(),
            r == (ShellState {
                selected: None,
                compose_text: r.compose_text,
                pending_scroll_frames: 0,
                stick_to_bottom: true,
                loading_more: false,
                load_more_anchor: None,
            }),
    {
        ShellState {
            selected: None,
            compose_text: String::new(),
            pending_scroll_frames: 0,
            stick_to_bottom: true,
            loading_more: false,
            load_more_anchor: None,
        }
    }

    /// Begins a frame: notes whether the view is at its end, and selects the first
    /// conversation where none is, whose end is then shown.
    pub fn begin_frame(&mut self, ui: &UiState, near_bottom: bool)
        ensures
            ({
                let first = if ui@.conversations.len() > 0 {
                    Some(ui@.conversations[0].conv)
                } else {
                    None
                };
                let selecting = old(self).selected is None;
                let selected = if selecting {
                    first
                } else {
                    old(self).selected
                };
                *final(self) == (ShellState {
                    selected,
                    stick_to_bottom: near_bottom,
                    pending_scroll_frames: if selecting && near_bottom && first is Some
                        && ui_state::thread_of(ui@.threads, first->0).len() > 0 {
                        2
                    } else {
                        old(self).pending_scroll_frames
                    },
                    ..*old(self)
                })
            }),
    {
        self.stick_to_bottom = near_bottom;
        if self.selected.is_none() {
            if ui.conversations.len() > 0 {
                let first = ui.conversations[0].conv;
                self.selected = Some(first);
                if near_bottom && ui.messages_for(first).len() > 0 {
                    self.pending_scroll_frames = 2;
                }
            }
        }
    }

    /// Where the end of the selected conversation is in view, its messages count as
    /// read.
    pub fn clear_selected_unread_if_needed(&self, ui: &mut UiState) -> (r: Option<StateCmd>)
        requires
            old(ui).wf(),
        ensures
            final(ui).wf(),
            match self.selected {
                Some(conv) if self.stick_to_bottom => {
                    &&& final(ui)@ == old(ui)@.with_count_shown(conv, 0)
                    &&& r == match conversation::place_of(old(ui)@.conversations, conv) {
                        Some(i) if old(ui)@.conversations[i].unread > 0 => Some(
                            StateCmd::ClearUnread { addr: conv.spec_addr() },
                        ),
                        _ => None,
                    }
                },
                _ => r is None && final(ui)@ == old(ui)@,
            },
    {
        if !self.stick_to_bottom {
            return None;
        }
        match self.selected {
            Some(conv) => if ui.clear_count(conv) {
                Some(StateCmd::ClearUnread { addr: conv.addr() })
            } else {
                None
            },
            None => None,
        }
    }

    /// The conversation of which earlier messages are to be asked for.
    pub open spec fn to_load(self, ui: ui_state::UiView, near_top: bool) -> Option<ConvId> {
        match self.selected {
            Some(conv) => if !self.loading_more && near_top && ui_state::thread_of(
                ui.threads,
                conv,
            ).len() > 0 && ui.has_more.contains_key(
                conv.spec_addr(),
            ) && ui.has_more[conv.spec_addr()] {
                Some(conv)
            } else {
                None
            },
            None => None,
        }
    }

    /// Where the view is near its beginning, and there are earlier messages, these are
    /// asked for; not twice at the same time.
    pub fn maybe_load_more_history(&mut self, ui: &UiState, near_top: bool, top_item: usize) -> (r:
        Option<StateCmd>)
        requires
            ui.wf(),
        ensures
            match old(self).to_load(ui@, near_top) {
                Some(conv) => {
                    &&& r == Some(
                        StateCmd::LoadMore {
                            addr: conv.spec_addr(),
                            before_id: ui_state::thread_of(ui@.threads, conv)[0].id,
                            limit: LOAD_MORE_LIMIT,
                        },
                    )
                    &&& *final(self) == (ShellState {
                        loading_more: true,
                        load_more_anchor: Some(top_item),
                        ..*old(self)
                    })
                },
                None => r is None && *final(self) == *old(self),
            },
    {
        if self.loading_more || !near_top {
            return None;
        }
        let conv = match self.selected {
            Some(conv) => conv,
            None => {
                return None;
            },
        };
        let (has_more, oldest) = ui.oldest_id_and_has_more(conv);
        if !has_more {
            return None;
        }
        match oldest {
            Some(before_id) => {
                self.load_more_anchor = Some(top_item);
                self.loading_more = true;
                Some(StateCmd::LoadMore { addr: conv.addr(), before_id, limit: LOAD_MORE_LIMIT })
            },
            None => None,
        }
    }

    /// Ends a frame: whether the view is scrolled to its end, and whether another frame
    /// is wanted.
    pub fn end_frame(&mut self) -> (r: (bool, bool))
        ensures
            r.0 == (old(self).pending_scroll_frames > 0),
            r.1 == (old(self).pending_scroll_frames > 1),
            *final(self) == (ShellState {
                pending_scroll_frames: if old(self).pending_scroll_frames > 0 {
                    (old(self).pending_scroll_frames - 1) as u8
                } else {
                    0
                },
                ..*old(self)
            }),
    {
        if self.pending_scroll_frames > 0 {
            self.pending_scroll_frames = self.pending_scroll_frames - 1;
            (true, self.pending_scroll_frames > 0)
        } else {
            (false, false)
        }
    }

    /// Acts on what the user interface was told. Where earlier messages were put in
    /// front, the view stays where it was.
    pub fn on_ui_event(&mut self, event: UiEvent) -> (r: ShellAction)
        requires
            event matches UiEvent::MessagesLoaded { conv, count } ==> (old(
                self,
            ).load_more_anchor matches Some(anchor) ==> anchor + count <= usize::MAX),
        ensures
            match event {
                UiEvent::MessageAdded { conv } => {
                    &&& r == ShellAction::Nothing
                    &&& *final(self) == if old(self).selected == Some(conv) && old(
                        self,
                    ).stick_to_bottom {
                        ShellState { pending_scroll_frames: 2, ..*old(self) }
                    } else {
                        *old(self)
                    }
                },
                UiEvent::MessagesLoaded { conv, count } => {
                    &&& *final(self) == (ShellState {
                        loading_more: false,
                        load_more_anchor: None,
                        ..*old(self)
                    })
                    &&& r == if old(self).selected != Some(conv) {
                        ShellAction::Nothing
                    } else if old(self).stick_to_bottom {
                        ShellAction::ScrollToBottom
                    } else {
                        match old(self).load_more_anchor {
                            Some(anchor) => ShellAction::ScrollToItem((anchor + count) as usize),
                            None => ShellAction::Nothing,
                        }
                    }
                },
                UiEvent::SettingsChanged => r == ShellAction::RefreshTexts && *final(self) == *old(
                    self,
                ),
                UiEvent::Changed => r == ShellAction::Nothing && *final(self) == *old(self),
            },
    {
        match event {
            UiEvent::MessageAdded { conv } => {
                if self.is_selected(conv) && self.stick_to_bottom {
                    self.pending_scroll_frames = 2;
                }
                ShellAction::Nothing
            },
            UiEvent::SettingsChanged => ShellAction::RefreshTexts,
            UiEvent::MessagesLoaded { conv, count } => {
                let action = if !self.is_selected(conv) {
                    ShellAction::Nothing
                } else if self.stick_to_bottom {
                    ShellAction::ScrollToBottom
                } else {
                    match self.load_more_anchor {
                        Some(anchor) => ShellAction::ScrollToItem(anchor + count),
                        None => ShellAction::Nothing,
                    }
                };
                self.load_more_anchor = None;
                self.loading_more = false;
                action
            },
            UiEvent::Changed => ShellAction::Nothing,
        }
    }

    fn is_selected(&self, conv: ConvId) -> (r: bool)
        ensures
            r == (self.selected == Some(conv)),
    {
        match self.selected {
            Some(selected) => selected == conv,
            None => false,
        }
    }

    /// Shows a conversation, whose messages then count as read. What was asked for in
    /// the one before does not matter any more.
    pub fn select_conversation(&mut self, ui: &mut UiState, conv: ConvId) -> (r: StateCmd)
        requires
            old(ui).wf(),
        ensures
            final(ui).wf(),
            final(ui)@ == old(ui)@.with_count_shown(conv, 0),
            r == (StateCmd::ClearUnread { addr: conv.spec_addr() }),
            *final(self) == (ShellState {
                selected: Some(conv),
                loading_more: false,
                load_more_anchor: None,
                ..*old(self)
            }),
    {
        self.selected = Some(conv);
        let _ = ui.clear_count(conv);
        self.loading_more = false;
        self.load_more_anchor = None;
        StateCmd::ClearUnread { addr: conv.addr() }
    }

    /// What the user typed is sent, without the white space around it, to the selected
    /// peer; nothing is where nothing was typed or nobody is selected.
    pub fn send_current_message(&mut self) -> (r: Option<(SocketAddr, String)>)
        ensures
            match old(self).selected {
                Some(conv) if chars::trimmed(old(self).compose_text@).len() > 0 => {
                    &&& r is Some
                    &&& (r->0).0 == conv.spec_addr()
                    &&& (r->0).1@ == chars::trimmed(old(self).compose_text@)
                    &&& final(self).compose_text@ == Seq::<char>::empty()
                    &&& *final(self) == (ShellState {
                        compose_text: final(self).compose_text,
                        ..*old(self)
                    })
                },
                _ => r is None && *final(self) == *old(self),
            },
    {
        let text = to_chars(self.compose_text.as_str());
        let text = trim(text.as_slice());
        if text.len() == 0 {
            return None;
        }
        match self.selected {
            Some(conv) => {
                self.compose_text = String::new();
                Some((conv.addr(), to_text(text.as_slice())))
            },
            None => None,
        }
    }
}

} // verus!
