//! What tells a conversation from others.
use crate::addr_form;
use crate::net;
use crate::net::{addr_to_string, SocketAddr};
use vstd::prelude::*;

verus! {

/// What tells a conversation from others: what the written form of an address says. A
/// flow label is no part of it.
#[derive(Debug, Clone, Copy, PartialEq, Eq, Structural)]
pub enum ConvId {
    V4 { ip: u32, port: u16 },
    V6 { ip: u128, port: u16, scope_id: u32 },
}

impl ConvId {
    pub open spec fn spec_of(addr: SocketAddr) -> ConvId {
        match addr {
            SocketAddr::V4 { ip, port } => ConvId::V4 { ip, port },
            SocketAddr::V6 { ip, port, scope_id, .. } => ConvId::V6 { ip, port, scope_id },
        }
    }

    pub open spec fn spec_addr(self) -> SocketAddr {
        match self {
            ConvId::V4 { ip, port } => SocketAddr::V4 { ip, port },
            ConvId::V6 { ip, port, scope_id } => SocketAddr::V6 {
                ip,
                port,
                flowinfo: 0,
                scope_id,
            },
        }
    }

    /// The written form.
    pub open spec fn text(self) -> Seq<char> {
        net::addr_text(self.spec_addr())
    }

    /// The conversation with an address.
    pub fn of(addr: SocketAddr) -> (r: ConvId)
        ensures
            r == Self::spec_of(addr),
    {
        match addr {
            SocketAddr::V4 { ip, port } => ConvId::V4 { ip, port },
            SocketAddr::V6 { ip, port, scope_id, .. } => ConvId::V6 { ip, port, scope_id },
        }
    }

    /// The address that the written form states.
    pub fn addr(&self) -> (r: SocketAddr)
        ensures
            r == self.spec_addr(),
    {
        match *self {
            ConvId::V4 { ip, port } => SocketAddr::V4 { ip, port },
            ConvId::V6 { ip, port, scope_id } => SocketAddr::V6 {
                ip,
                port,
                flowinfo: 0,
                scope_id,
            },
        }
    }

    /// The written form.
    pub fn to_text(&self) -> (r: String)
        ensures
            r@ == self.text(),
    {
        addr_to_string(&self.addr())
    }
}

/// An address without a flow label: its written form says all there is to it.
pub open spec fn plain(addr: SocketAddr) -> bool {
    ConvId::spec_of(addr).spec_addr() == addr
}

/// Addresses belong to the same conversation exactly where their written forms are the
/// same, and these are that of the conversation.
pub proof fn law_conversation_is_written_form(a: SocketAddr, b: SocketAddr)
    ensures
        ConvId::spec_of(a).text() == net::addr_text(a),
        net::addr_text(a) == net::addr_text(b) <==> ConvId::spec_of(a) == ConvId::spec_of(b),
{
    addr_form::law_addr_text_tells(a, b);
    addr_form::law_addr_text_tells(ConvId::spec_of(a).spec_addr(), a);
}

} // verus!
