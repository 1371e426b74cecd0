//! What is said of an offer that comes in.
use crate::app_state::model::StateCmd;
use crate::app_state::size;
use crate::app_state::size::format_size;
use crate::ipmsg_core::event::Event;
use vstd::prelude::*;

verus! {

/// What is said of an offer, to be put into the language of the user.
#[derive(Debug)]
pub enum OfferLabel {
    Folder { name: String },
    /// A file, with its size as it is shown.
    File { name: String, size: String },
}

/// What is said of the offer that a command brings in, if it brings in any.
pub fn offer_label(cmd: &StateCmd) -> (r: Option<OfferLabel>)
    ensures
        match *cmd {
            StateCmd::ApplyEvent(Event::FileOffer { name, size, is_dir, .. }) => if is_dir {
                r == Some(OfferLabel::Folder { name })
            } else {
                r matches Some(OfferLabel::File { name: n, size: s }) && n == name && s@
                    == size::size_text(size)
            },
            _ => r is None,
        },
{
    match cmd {
        StateCmd::ApplyEvent(Event::FileOffer { name, size, is_dir, .. }) => if *is_dir {
            Some(OfferLabel::Folder { name: name.clone() })
        } else {
            Some(OfferLabel::File { name: name.clone(), size: format_size(*size) })
        },
        _ => None,
    }
}

} // verus!
