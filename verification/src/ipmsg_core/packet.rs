//! Packets: six fields that colons part, of which the last takes the rest.
use crate::chars;
use crate::chars::{split, splitn, strip_control, to_chars, to_text, trim};
use crate::ipmsg_core::text;
use crate::ipmsg_core::text::{decode_text, encode_text, TextEncoding};
use crate::number;
use crate::number::{parse_u32, push_decimal};
use vstd::prelude::*;

verus! {

#[derive(Debug, Clone)]
pub struct Packet {
    pub version: u32,
    pub packet_no: u32,
    pub username: String,
    pub hostname: String,
    pub command: u32,
    pub extra: String,
}

/// The fields of a packet, with its texts as sequences of characters.
#[verifier::ext_equal]
pub struct PacketView {
    pub version: u32,
    pub packet_no: u32,
    pub username: Seq<char>,
    pub hostname: Seq<char>,
    pub command: u32,
    pub extra: Seq<char>,
}

impl View for Packet {
    type V = PacketView;

    open spec fn view(&self) -> PacketView {
        PacketView {
            version: self.version,
            packet_no: self.packet_no,
            username: self.username@,
            hostname: self.hostname@,
            command: self.command,
            extra: self.extra@,
        }
    }
}

/// Why bytes are no packet.
#[derive(Debug, Clone, Copy, PartialEq, Eq, Structural)]
pub enum PacketError {
    /// There are fewer than five fields.
    TooFewFields,
    /// The second field is no packet number.
    BadPacketNo,
    /// The fifth field is no command.
    BadCommand,
}

/// The text of a packet.
pub open spec fn packet_text(p: PacketView) -> Seq<char> {
    number::decimal(p.version as nat).push(':') + (number::decimal(p.packet_no as nat).push(':') + (
    p.username.push(':') + (p.hostname.push(':') + (number::decimal(p.command as nat).push(':')
        + p.extra))))
}

/// The number in a field, white space around it left aside.
pub open spec fn field_number(field: Seq<char>) -> Option<u32> {
    number::u32_in(chars::trimmed(field), 10)
}

/// The packet that a text is.
pub open spec fn packet_in(text: Seq<char>) -> Result<PacketView, PacketError> {
    let fields = chars::first_pieces(text, 6, ':');
    if fields.len() < 5 {
        Err(PacketError::TooFewFields)
    } else {
        match (field_number(fields[1]), field_number(fields[4])) {
            (None, _) => Err(PacketError::BadPacketNo),
            (_, None) => Err(PacketError::BadCommand),
            (Some(packet_no), Some(command)) => Ok(
                PacketView {
                    version: match field_number(fields[0]) {
                        Some(v) => v,
                        None => 0,
                    },
                    packet_no,
                    username: fields[2],
                    hostname: fields[3],
                    command,
                    extra: if fields.len() >= 6 {
                        fields[5]
                    } else {
                        Seq::empty()
                    },
                },
            ),
        }
    }
}

/// No colon in a field but the last.
pub open spec fn well_parted(p: PacketView) -> bool {
    !p.username.contains(':') && !p.hostname.contains(':')
}

impl Packet {
    /// The packet's bytes on the wire.
    pub fn encode(&self, encoding: TextEncoding) -> (r: Vec<u8>)
        requires
            packet_text(self@).len() <= text::MAX_TEXT,
        ensures
            r@ == text::encoded(encoding, packet_text(self@)),
    {
        let mut s: Vec<char> = Vec::new();
        push_decimal(&mut s, self.version as u64);
        s.push(':');
        push_decimal(&mut s, self.packet_no as u64);
        s.push(':');
        let mut username = to_chars(self.username.as_str());
        s.append(&mut username);
        s.push(':');
        let mut hostname = to_chars(self.hostname.as_str());
        s.append(&mut hostname);
        s.push(':');
        push_decimal(&mut s, self.command as u64);
        s.push(':');
        let mut extra = to_chars(self.extra.as_str());
        s.append(&mut extra);
        assert(s@ =~= packet_text(self@));
        let line = to_text(s.as_slice());
        encode_text(encoding, line.as_str())
    }
}

fn parse_field(field: &Vec<char>) -> (r: Option<u32>)
    ensures
        r == field_number(field@),
{
    let t = trim(field.as_slice());
    parse_u32(t.as_slice(), 10)
}

/// Reads a packet from its text.
pub fn parse_packet_text(s: &str) -> (r: Result<Packet, PacketError>)
    ensures
        match packet_in(s@) {
            Ok(p) => r is Ok && r->Ok_0@ == p,
            Err(e) => r == Err::<Packet, PacketError>(e),
        },
{
    let line = to_chars(s);
    let fields = splitn(line.as_slice(), 6, ':');
    assert(chars::views(fields@) == chars::first_pieces(s@, 6, ':'));
    assert(forall|i: int|
        0 <= i < fields@.len() ==> chars::views(fields@)[i] == (#[trigger] fields@[i])@);
    if fields.len() < 5 {
        return Err(PacketError::TooFewFields);
    }
    let version: u32 = match parse_field(&fields[0]) {
        Some(v) => v,
        None => 0,
    };
    let packet_no: u32 = match parse_field(&fields[1]) {
        Some(v) => v,
        None => {
            return Err(PacketError::BadPacketNo);
        },
    };
    let command: u32 = match parse_field(&fields[4]) {
        Some(v) => v,
        None => {
            return Err(PacketError::BadCommand);
        },
    };
    let extra = if fields.len() >= 6 {
        to_text(fields[5].as_slice())
    } else {
        String::new()
    };
    Ok(
        Packet {
            version,
            packet_no,
            username: to_text(fields[2].as_slice()),
            hostname: to_text(fields[3].as_slice()),
            command,
            extra,
        },
    )
}

/// Reads a packet from its bytes. The bytes of a packet give that packet back,
/// where the encoding can hold its text and no name in it holds a colon.
pub fn parse_packet(encoding: TextEncoding, buf: &[u8]) -> (r: Result<Packet, PacketError>)
    requires
        buf@.len() <= text::MAX_TEXT,
    ensures
        match packet_in(text::decoded(encoding, buf@)) {
            Ok(p) => r is Ok && r->Ok_0@ == p,
            Err(e) => r == Err::<Packet, PacketError>(e),
        },
        forall|p: PacketView|
            buf@ == #[trigger] text::encoded(encoding, packet_text(p)) && well_parted(p)
                && text::lossless(encoding, packet_text(p)) ==> r is Ok && r->Ok_0@ == p
                && text::decoded(encoding, buf@) == packet_text(p),
{
    let s = decode_text(encoding, buf);
    proof {
        assert forall|p: PacketView|
            buf@ == #[trigger] text::encoded(encoding, packet_text(p)) && well_parted(p)
                && text::lossless(encoding, packet_text(p)) implies s@ == packet_text(p)
            && packet_in(s@) == Ok::<PacketView, PacketError>(p) by {
            number::lemma_digits_plain(p.version as nat, 10);
            assert(packet_text(p)[0] == number::decimal(p.version as nat)[0]);
            assert(text::unmarked(packet_text(p), buf@));
            assert(s@ == packet_text(p));
            law_packet_text_round_trip(p);
        }
    }
    parse_packet_text(s.as_str())
}

/// A written packet number is read back from its field.
proof fn lemma_field_round_trip(n: u32)
    ensures
        field_number(number::decimal(n as nat)) == Some(n),
        !number::decimal(n as nat).contains(':'),
{
    let s = number::decimal(n as nat);
    number::lemma_digits_plain(n as nat, 10);
    number::law_number_round_trip(n as nat, 10);
    assert(s[s.len() - 1] == s.last());
    chars::lemma_trimmed_tight(s);
    if s.contains(':') {
        let k = s.index_of(':');
        assert(s[k] == ':');
    }
}

/// The text of a packet whose names hold no colon is read back as that packet.
pub proof fn law_packet_text_round_trip(p: PacketView)
    requires
        well_parted(p),
    ensures
        packet_in(packet_text(p)) == Ok::<PacketView, PacketError>(p),
{
    lemma_field_round_trip(p.version);
    lemma_field_round_trip(p.packet_no);
    lemma_field_round_trip(p.command);
    let version = number::decimal(p.version as nat);
    let packet_no = number::decimal(p.packet_no as nat);
    let command = number::decimal(p.command as nat);
    let r4 = command.push(':') + p.extra;
    let r3 = p.hostname.push(':') + r4;
    let r2 = p.username.push(':') + r3;
    let r1 = packet_no.push(':') + r2;
    chars::lemma_first_pieces_one(p.extra, ':');
    chars::lemma_first_pieces_joined(command, p.extra, 2, ':');
    chars::lemma_first_pieces_joined(p.hostname, r4, 3, ':');
    chars::lemma_first_pieces_joined(p.username, r3, 4, ':');
    chars::lemma_first_pieces_joined(packet_no, r2, 5, ':');
    chars::lemma_first_pieces_joined(version, r1, 6, ':');
    let fields = chars::first_pieces(packet_text(p), 6, ':');
    assert(fields =~= seq![version, packet_no, p.username, p.hostname, command, p.extra]);
}

/// The text before the first null character.
pub open spec fn main_part(extra: Seq<char>) -> Seq<char> {
    chars::pieces(extra, '\0')[0]
}

/// What stands behind the first null character: the parts that are not empty.
pub open spec fn further_parts(extra: Seq<char>) -> Seq<Seq<char>> {
    chars::pieces(extra, '\0').skip(1).filter(|part: Seq<char>| part.len() > 0)
}

/// Parts the last field of a packet at its null characters.
pub fn split_extra(extra: &str) -> (r: (String, Vec<String>))
    ensures
        r.0@ == main_part(extra@),
        chars::string_views(r.1@) == further_parts(extra@),
{
    let s = to_chars(extra);
    let parts = split(s.as_slice(), '\0');
    proof {
        chars::lemma_pieces_some(extra@, '\0');
    }
    let ghost all = chars::pieces(extra@, '\0');
    let ghost keep = |part: Seq<char>| part.len() > 0;
    assert(forall|i: int| 0 <= i < parts@.len() ==> all[i] == (#[trigger] parts@[i])@);
    let main = to_text(parts[0].as_slice());
    let mut rest: Vec<String> = Vec::new();
    let mut i: usize = 1;
    assert(chars::string_views(rest@) =~= all.skip(1).take(0).filter(keep)) by {
        reveal(Seq::filter);
    }
    while i < parts.len()
        invariant
            1 <= i <= parts@.len(),
            all.len() == parts@.len(),
            forall|k: int| 0 <= k < parts@.len() ==> all[k] == (#[trigger] parts@[k])@,
            keep == (|part: Seq<char>| part.len() > 0),
            chars::string_views(rest@) == all.skip(1).take(i - 1).filter(keep),
        decreases parts@.len() - i,
    {
        let ghost before = rest@;
        assert(all.skip(1).take(i as int).drop_last() =~= all.skip(1).take(i - 1));
        assert(all.skip(1).take(i as int).last() == parts@[i as int]@);
        proof {
            reveal(Seq::filter);
        }
        if parts[i].len() > 0 {
            rest.push(to_text(parts[i].as_slice()));
            assert(chars::string_views(rest@) =~= chars::string_views(before).push(
                parts@[i as int]@,
            ));
        }
        i += 1;
    }
    assert(all.skip(1).take(i - 1) =~= all.skip(1));
    (main, rest)
}

/// A name as it is shown: without control characters, then trimmed.
pub open spec fn clean_name(s: Seq<char>) -> Seq<char> {
    chars::trimmed(chars::printable(s))
}

/// The nickname that an entry packet states, or the user name where it states none.
pub open spec fn entry_nick(username: Seq<char>, extra: Seq<char>) -> Seq<char> {
    let nick = clean_name(chars::pieces(extra, '\0')[0]);
    if nick.len() > 0 {
        nick
    } else {
        username
    }
}

/// The group that an entry packet states.
pub open spec fn entry_group(extra: Seq<char>) -> Seq<char> {
    let parts = chars::pieces(extra, '\0');
    if parts.len() >= 2 {
        clean_name(parts[1])
    } else {
        Seq::empty()
    }
}

/// The nickname and the group in the last field of an entry packet.
pub fn parse_entry_extra(username: &str, extra: &str) -> (r: (String, String))
    ensures
        r.0@ == entry_nick(username@, extra@),
        r.1@ == entry_group(extra@),
{
    let s = to_chars(extra);
    let parts = split(s.as_slice(), '\0');
    proof {
        chars::lemma_pieces_some(extra@, '\0');
    }
    assert(forall|i: int|
        0 <= i < parts@.len() ==> chars::pieces(extra@, '\0')[i] == (#[trigger] parts@[i])@);
    let shown = strip_control(parts[0].as_slice());
    let nick = trim(shown.as_slice());
    let final_nick = if nick.len() > 0 {
        to_text(nick.as_slice())
    } else {
        username.to_owned()
    };
    let final_group = if parts.len() >= 2 {
        let shown = strip_control(parts[1].as_slice());
        let group = trim(shown.as_slice());
        to_text(group.as_slice())
    } else {
        String::new()
    };
    (final_nick, final_group)
}

} // verus!
