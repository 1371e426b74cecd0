//! The reception of files that peers offer.
use crate::chars;
use crate::chars::to_text;
use crate::ipmsg_core::file_table;
use crate::ipmsg_core::inbound;
use crate::ipmsg_core::offer;
use crate::ipmsg_core::packet;
use crate::ipmsg_core::protocol::{IPMSG_GETDIRFILES, IPMSG_GETFILEDATA};
use crate::ipmsg_core::serve;
use crate::ipmsg_core::service::{make_packet, Service};
use crate::net::SocketAddr;
use crate::number;
use crate::number::{push_decimal, push_hexadecimal};
use vstd::prelude::*;

verus! {

/// How a request writes its numbers.
#[derive(Debug, Clone, Copy, PartialEq, Eq, Structural)]
pub enum Radix {
    Hex,
    Decimal,
}

pub open spec fn radix_of(radix: Radix) -> nat {
    match radix {
        Radix::Hex => 16,
        Radix::Decimal => 10,
    }
}

/// A request for what was offered under these numbers, from its beginning.
pub open spec fn request_text(packet_no: u32, file_id: u32, radix: Radix) -> Seq<char> {
    number::digits(packet_no as nat, radix_of(radix)).push(':') + (number::digits(
        file_id as nat,
        radix_of(radix),
    ).push(':') + seq!['0'])
}

fn make_request(service: &mut Service, command: u32, packet_no: u32, file_id: u32, radix: Radix)
    -> (r: Vec<u8>)
    requires
        old(service).wf(),
    ensures
        *final(service) == old(service).advanced(),
        r@ == old(service).next_bytes(command, request_text(packet_no, file_id, radix)),
{
    let mut s: Vec<char> = Vec::new();
    match radix {
        Radix::Hex => {
            push_hexadecimal(&mut s, packet_no as u64);
            s.push(':');
            push_hexadecimal(&mut s, file_id as u64);
        },
        Radix::Decimal => {
            push_decimal(&mut s, packet_no as u64);
            s.push(':');
            push_decimal(&mut s, file_id as u64);
        },
    }
    s.push(':');
    s.push('0');
    proof {
        assert(s@ =~= request_text(packet_no, file_id, radix));
        reveal_with_fuel(number::digits, 11);
    }
    let (_, bytes) = make_packet(service, command, to_text(s.as_slice()));
    bytes
}

/// The request for a file.
pub fn file_request(service: &mut Service, packet_no: u32, file_id: u32, radix: Radix) -> (r: Vec<
    u8,
>)
    requires
        old(service).wf(),
    ensures
        *final(service) == old(service).advanced(),
        r@ == old(service).next_bytes(
            IPMSG_GETFILEDATA,
            request_text(packet_no, file_id, radix),
        ),
{
    make_request(service, IPMSG_GETFILEDATA, packet_no, file_id, radix)
}

/// The request for a folder.
pub fn folder_request(service: &mut Service, packet_no: u32, file_id: u32) -> (r: Vec<u8>)
    requires
        old(service).wf(),
    ensures
        *final(service) == old(service).advanced(),
        r@ == old(service).next_bytes(
            IPMSG_GETDIRFILES,
            request_text(packet_no, file_id, Radix::Hex),
        ),
{
    make_request(service, IPMSG_GETDIRFILES, packet_no, file_id, Radix::Hex)
}

/// What follows an attempt to receive a file.
#[derive(Debug, Clone, Copy, PartialEq, Eq, Structural)]
pub enum Next {
    Done,
    Retry(Radix),
    GiveUp,
}

/// What follows an attempt: where the hexadecimal one fails a decimal one is made,
/// whose outcome stands.
pub fn after_attempt(radix: Radix, succeeded: bool) -> (r: Next)
    ensures
        r == match (succeeded, radix) {
            (true, _) => Next::Done,
            (false, Radix::Hex) => Next::Retry(Radix::Decimal),
            (false, Radix::Decimal) => Next::GiveUp,
        },
{
    if succeeded {
        Next::Done
    } else {
        match radix {
            Radix::Hex => Next::Retry(Radix::Decimal),
            Radix::Decimal => Next::GiveUp,
        }
    }
}

/// A file ended before it was complete.
#[derive(Debug, Clone, Copy, PartialEq, Eq, Structural)]
pub struct Incomplete {
    pub expected: u64,
    pub got: u64,
}

/// Counts the bytes of a file that comes in.
#[derive(Debug, Clone, Copy, PartialEq, Eq, Structural)]
pub struct FileReceiver {
    /// The size that was stated, or 0 where none was.
    pub expected: u64,
    pub total: u64,
}

impl FileReceiver {
    /// All that was stated has come in; never so where no size was stated.
    pub open spec fn full(self) -> bool {
        self.expected > 0 && self.total >= self.expected
    }

    pub fn new(expected: u64) -> (r: FileReceiver)
        ensures
            r == (FileReceiver { expected, total: 0 }),
    {
        FileReceiver { expected, total: 0 }
    }

    /// Counts bytes that came in; whether the file is complete.
    pub fn take(&mut self, n: usize) -> (r: bool)
        requires
            old(self).total + n <= u64::MAX,
        ensures
            *final(self) == (FileReceiver { total: (old(self).total + n) as u64, ..*old(self) }),
            r == final(self).full(),
    {
        self.total = self.total + n as u64;
        self.expected > 0 && self.total >= self.expected
    }

    /// What has been received once no more comes: the file, if it is complete or
    /// its size was not stated.
    pub fn finish(&self) -> (r: Result<u64, Incomplete>)
        ensures
            r == if self.expected == 0 || self.total >= self.expected {
                Ok::<u64, Incomplete>(self.total)
            } else {
                Err(Incomplete { expected: self.expected, got: self.total })
            },
    {
        if self.expected > 0 && self.total < self.expected {
            return Err(Incomplete { expected: self.expected, got: self.total });
        }
        Ok(self.total)
    }
}

/// Counts the bytes of a file inside a folder that goes out.
#[derive(Debug, Clone, Copy, PartialEq, Eq, Structural)]
pub struct FileSender {
    /// The size that its header stated.
    pub size: u64,
    pub sent: u64,
}

impl FileSender {
    pub fn new(size: u64) -> (r: FileSender)
        ensures
            r == (FileSender { size, sent: 0 }),
    {
        FileSender { size, sent: 0 }
    }

    /// Counts bytes that went out; whether as many went out as were stated.
    pub fn sent(&mut self, n: usize) -> (r: bool)
        requires
            old(self).sent + n <= u64::MAX,
        ensures
            *final(self) == (FileSender { sent: (old(self).sent + n) as u64, ..*old(self) }),
            r == (final(self).sent >= final(self).size),
    {
        self.sent = self.sent + n as u64;
        self.sent >= self.size
    }
}

proof fn lemma_request_parts(packet_no: u32, file_id: u32, radix: Radix)
    ensures
        chars::pieces(request_text(packet_no, file_id, radix), ':') == seq![
            number::digits(packet_no as nat, radix_of(radix)),
            number::digits(file_id as nat, radix_of(radix)),
            seq!['0'],
        ],
{
    let p = number::digits(packet_no as nat, radix_of(radix));
    let f = number::digits(file_id as nat, radix_of(radix));
    let rest = f.push(':') + seq!['0'];
    offer::lemma_digits_lack(packet_no as nat, radix_of(radix));
    offer::lemma_digits_lack(file_id as nat, radix_of(radix));
    chars::lemma_pieces_plain(p, ':');
    chars::lemma_pieces_plain(f, ':');
    chars::lemma_pieces_plain(seq!['0'], ':');
    chars::lemma_pieces_joined(f, seq!['0'], ':');
    chars::lemma_pieces_joined(p, rest, ':');
    assert(chars::pieces(request_text(packet_no, file_id, radix), ':') =~= seq![p, f, seq!['0']]);
}

/// A request reaches the file that was offered: the host it was offered to is served
/// from its beginning, every other is refused.
pub proof fn law_file_request_served(
    requester: Service,
    server: Service,
    packet_no: u32,
    file_id: u32,
    data: Seq<u8>,
    peer: SocketAddr,
)
    requires
        data.len() > 0,
        inbound::carries(
            requester,
            server,
            IPMSG_GETFILEDATA,
            request_text(packet_no, file_id, Radix::Hex),
            data,
        ),
        server.files@.contains_key((packet_no, file_id)),
        !server.files@[(packet_no, file_id)].is_dir,
    ensures
        server.files@[(packet_no, file_id)].to != peer.spec_ip() ==> serve::decide(
            server,
            data,
            peer,
        ) == serve::Decision::Refuse(serve::ServeError::NotAuthorized),
        server.files@[(packet_no, file_id)].to == peer.spec_ip() && !serve::withdrawn(
            server,
            serve::cancel_key(peer, (packet_no, file_id)),
        ) ==> serve::decide(server, data, peer) == serve::Decision::Serve((packet_no, file_id), 0),
{
    let extra = request_text(packet_no, file_id, Radix::Hex);
    packet::law_packet_text_round_trip(requester.next_packet(IPMSG_GETFILEDATA, extra));
    assert(0x60u32 & 0xff == 0x60) by (bit_vector);
    lemma_request_parts(packet_no, file_id, Radix::Hex);
    file_table::law_hex_echo(server.files@, packet_no, file_id);
    reveal_with_fuel(number::digits, 2);
    assert(number::decimal(0) =~= seq!['0']);
    offer::lemma_decimal_read(0, u64::MAX as nat);
}

/// A request reaches the folder that was offered: the host it was offered to is
/// served, every other is refused.
pub proof fn law_folder_request_served(
    requester: Service,
    server: Service,
    packet_no: u32,
    file_id: u32,
    data: Seq<u8>,
    peer: SocketAddr,
)
    requires
        data.len() > 0,
        inbound::carries(
            requester,
            server,
            IPMSG_GETDIRFILES,
            request_text(packet_no, file_id, Radix::Hex),
            data,
        ),
        server.files@.contains_key((packet_no, file_id)),
        server.files@[(packet_no, file_id)].is_dir,
    ensures
        server.files@[(packet_no, file_id)].to != peer.spec_ip() ==> serve::decide(
            server,
            data,
            peer,
        ) == serve::Decision::Refuse(serve::ServeError::NotAuthorized),
        server.files@[(packet_no, file_id)].to == peer.spec_ip() && !serve::withdrawn(
            server,
            serve::cancel_key(peer, (packet_no, file_id)),
        ) ==> serve::decide(server, data, peer) == serve::Decision::Serve((packet_no, file_id), 0),
{
    let extra = request_text(packet_no, file_id, Radix::Hex);
    packet::law_packet_text_round_trip(requester.next_packet(IPMSG_GETDIRFILES, extra));
    assert(0x62u32 & 0xff == 0x62) by (bit_vector);
    lemma_request_parts(packet_no, file_id, Radix::Hex);
    file_table::law_hex_echo(server.files@, packet_no, file_id);
}

} // verus!
