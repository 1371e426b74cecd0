//! The files that are on offer, and the marks that stop their transfers.
use crate::chars;
use crate::chars::{to_chars, trim};
use crate::net::IpAddr;
use crate::number;
use crate::number::{parse_auto_radix, parse_u32};
use std::collections::HashMap;
use vstd::prelude::*;

verus! {

broadcast use vstd::std_specs::hash::group_hash_axioms;

/// A file or a folder on offer.
#[derive(Debug, Clone)]
pub struct FileEntry {
    /// The peer that it was offered to. Nobody else gets it.
    pub to: IpAddr,
    pub path: String,
    pub size: u64,
    pub is_dir: bool,
}

impl FileEntry {
    pub fn copy(&self) -> (r: FileEntry)
        ensures
            r == *self,
    {
        FileEntry { to: self.to, path: self.path.clone(), size: self.size, is_dir: self.is_dir }
    }
}

pub open spec fn spec_table_key(packet_no: u32, file_id: u32) -> u64 {
    (packet_no * 0x1_0000_0000 + file_id) as u64
}

fn table_key(packet_no: u32, file_id: u32) -> (r: u64)
    ensures
        r == spec_table_key(packet_no, file_id),
{
    packet_no as u64 * 0x1_0000_0000 + file_id as u64
}

/// The files on offer, by the number of the packet that offered them and their
/// own number.
pub struct FileTable {
    entries: HashMap<u64, FileEntry>,
}

impl View for FileTable {
    type V = Map<(u32, u32), FileEntry>;

    closed spec fn view(&self) -> Map<(u32, u32), FileEntry> {
        Map::new(
            |k: (u32, u32)| self.entries@.contains_key(spec_table_key(k.0, k.1)),
            |k: (u32, u32)| self.entries@[spec_table_key(k.0, k.1)],
        )
    }
}

impl FileTable {
    pub fn new() -> (r: FileTable)
        ensures
            r@ == Map::<(u32, u32), FileEntry>::empty(),
    {
        let r = FileTable { entries: HashMap::new() };
        assert(r@ =~= Map::<(u32, u32), FileEntry>::empty());
        r
    }

    pub fn contains(&self, packet_no: u32, file_id: u32) -> (r: bool)
        ensures
            r == self@.contains_key((packet_no, file_id)),
    {
        self.entries.contains_key(&table_key(packet_no, file_id))
    }

    pub fn get(&self, packet_no: u32, file_id: u32) -> (r: Option<FileEntry>)
        ensures
            r == if self@.contains_key((packet_no, file_id)) {
                Some(self@[(packet_no, file_id)])
            } else {
                None
            },
    {
        match self.entries.get(&table_key(packet_no, file_id)) {
            Some(entry) => Some(entry.copy()),
            None => None,
        }
    }

    pub fn insert(&mut self, packet_no: u32, file_id: u32, entry: FileEntry)
        ensures
            final(self)@ == old(self)@.insert((packet_no, file_id), entry),
    {
        self.entries.insert(table_key(packet_no, file_id), entry);
        assert(self@ =~= old(self)@.insert((packet_no, file_id), entry));
    }

    /// Takes a file off the table; whether it was there.
    pub fn remove(&mut self, packet_no: u32, file_id: u32) -> (r: bool)
        ensures
            final(self)@ == old(self)@.remove((packet_no, file_id)),
            r == old(self)@.contains_key((packet_no, file_id)),
    {
        let r = self.entries.remove(&table_key(packet_no, file_id)).is_some();
        assert(self@ =~= old(self)@.remove((packet_no, file_id)));
        r
    }
}

/// What a number may mean that a peer wrote in hexadecimal or in decimal: the
/// readings in the order in which they are tried.
pub open spec fn readings(s: Seq<char>) -> Seq<u32> {
    let s = chars::trimmed(s);
    let hex = match number::u32_in(s, 16) {
        Some(n) => seq![n],
        None => Seq::empty(),
    };
    let dec = match number::u32_in(s, 10) {
        Some(n) => seq![n],
        None => Seq::empty(),
    };
    (hex + dec).push(number::auto_radix(s, u32::MAX as nat) as u32)
}

fn readings_of(s: &str) -> (r: Vec<u32>)
    ensures
        r@ == readings(s@),
{
    let s = to_chars(s);
    let s = trim(s.as_slice());
    let mut r: Vec<u32> = Vec::new();
    if let Some(n) = parse_u32(s.as_slice(), 16) {
        r.push(n);
    }
    if let Some(n) = parse_u32(s.as_slice(), 10) {
        r.push(n);
    }
    r.push(parse_auto_radix(s.as_slice(), u32::MAX as u64) as u32);
    r
}

/// The first file number that goes with this packet number.
pub open spec fn first_with(
    table: Map<(u32, u32), FileEntry>,
    packet_no: u32,
    file_ids: Seq<u32>,
) -> Option<(u32, u32)>
    decreases file_ids.len(),
{
    if file_ids.len() == 0 {
        None
    } else if table.contains_key((packet_no, file_ids[0])) {
        Some((packet_no, file_ids[0]))
    } else {
        first_with(table, packet_no, file_ids.skip(1))
    }
}

/// The first pair that is on the table, all file numbers tried with the first
/// packet number, then all with the next.
pub open spec fn first_hit(
    table: Map<(u32, u32), FileEntry>,
    packet_nos: Seq<u32>,
    file_ids: Seq<u32>,
) -> Option<(u32, u32)>
    decreases packet_nos.len(),
{
    if packet_nos.len() == 0 {
        None
    } else {
        match first_with(table, packet_nos[0], file_ids) {
            Some(key) => Some(key),
            None => first_hit(table, packet_nos.skip(1), file_ids),
        }
    }
}

/// The file that a peer asks for.
pub open spec fn requested(
    table: Map<(u32, u32), FileEntry>,
    packet_no: Seq<char>,
    file_id: Seq<char>,
) -> Option<(u32, u32)> {
    first_hit(table, readings(packet_no), readings(file_id))
}

/// Finds the file that a peer asks for. Peers write the numbers in hexadecimal, as
/// they should, or in decimal; both are tried against the table.
pub fn lookup_file_entry(table: &FileTable, pkt_no: &str, file_id: &str) -> (r: Option<
    (u32, u32, FileEntry),
>)
    ensures
        r == match requested(table@, pkt_no@, file_id@) {
            Some(key) => Some((key.0, key.1, table@[key])),
            None => None,
        },
{
    let packet_nos = readings_of(pkt_no);
    let file_ids = readings_of(file_id);
    let mut i: usize = 0;
    assert(packet_nos@.skip(0) =~= packet_nos@);
    while i < packet_nos.len()
        invariant
            i <= packet_nos@.len(),
            packet_nos@ == readings(pkt_no@),
            file_ids@ == readings(file_id@),
            requested(table@, pkt_no@, file_id@) == first_hit(
                table@,
                packet_nos@.skip(i as int),
                file_ids@,
            ),
        decreases packet_nos@.len() - i,
    {
        let packet_no: u32 = packet_nos[i];
        let mut k: usize = 0;
        assert(file_ids@.skip(0) =~= file_ids@);
        assert(packet_nos@.skip(i as int)[0] == packet_no);
        assert(packet_nos@.skip(i as int).skip(1) =~= packet_nos@.skip(i + 1));
        while k < file_ids.len()
            invariant
                i < packet_nos@.len(),
                packet_no == packet_nos@[i as int],
                packet_nos@.skip(i as int)[0] == packet_no,
                k <= file_ids@.len(),
                requested(table@, pkt_no@, file_id@) == first_hit(
                    table@,
                    packet_nos@.skip(i as int),
                    file_ids@,
                ),
                first_with(table@, packet_no, file_ids@) == first_with(
                    table@,
                    packet_no,
                    file_ids@.skip(k as int),
                ),
            decreases file_ids@.len() - k,
        {
            assert(file_ids@.skip(k as int).skip(1) =~= file_ids@.skip(k + 1));
            if let Some(entry) = table.get(packet_no, file_ids[k]) {
                return Some((packet_no, file_ids[k], entry));
            }
            k += 1;
        }
        i += 1;
    }
    None
}

/// Numbers that a peer echoes in hexadecimal name the file that was offered under
/// them.
pub proof fn law_hex_echo(table: Map<(u32, u32), FileEntry>, packet_no: u32, file_id: u32)
    requires
        table.contains_key((packet_no, file_id)),
    ensures
        requested(
            table,
            number::hexadecimal(packet_no as nat),
            number::hexadecimal(file_id as nat),
        ) == Some((packet_no, file_id)),
{
    lemma_reading(packet_no, 16);
    lemma_reading(file_id, 16);
}

/// Numbers that a peer echoes in decimal name a file on offer, and it is the one
/// that was offered under them where no other is offered under what the echo
/// could mean as well.
pub proof fn law_decimal_echo(table: Map<(u32, u32), FileEntry>, packet_no: u32, file_id: u32)
    requires
        table.contains_key((packet_no, file_id)),
    ensures
        ({
            let p = number::decimal(packet_no as nat);
            let f = number::decimal(file_id as nat);
            &&& requested(table, p, f) is Some
            &&& (forall|k: (u32, u32)|
                #![trigger table.contains_key(k)]
                table.contains_key(k) && readings(p).contains(k.0) && readings(f).contains(k.1)
                    ==> k == (packet_no, file_id)) ==> requested(table, p, f) == Some(
                (packet_no, file_id),
            )
        }),
{
    let p = number::decimal(packet_no as nat);
    let f = number::decimal(file_id as nat);
    lemma_reading(packet_no, 10);
    lemma_reading(file_id, 10);
    lemma_first_hit(table, readings(p), readings(f), packet_no, file_id);
}

proof fn lemma_reading(n: u32, radix: nat)
    requires
        radix == 10 || radix == 16,
    ensures
        readings(number::digits(n as nat, radix)).contains(n),
        radix == 16 ==> readings(number::digits(n as nat, radix))[0] == n,
{
    let s = number::digits(n as nat, radix);
    number::lemma_digits_plain(n as nat, radix);
    number::law_number_round_trip(n as nat, radix);
    assert(s[s.len() - 1] == s.last());
    chars::lemma_trimmed_tight(s);
    let r = readings(s);
    if radix == 16 {
        assert(r[0] == n);
    } else if number::u32_in(s, 16) is Some {
        assert(r[1] == n);
    } else {
        assert(r[0] == n);
    }
}

proof fn lemma_first_with(
    table: Map<(u32, u32), FileEntry>,
    packet_no: u32,
    file_ids: Seq<u32>,
    file_id: u32,
)
    ensures
        file_ids.contains(file_id) && table.contains_key((packet_no, file_id)) ==> first_with(
            table,
            packet_no,
            file_ids,
        ) is Some,
        first_with(table, packet_no, file_ids) matches Some(k) ==> table.contains_key(k) && k.0
            == packet_no && file_ids.contains(k.1),
    decreases file_ids.len(),
{
    if file_ids.len() > 0 {
        lemma_first_with(table, packet_no, file_ids.skip(1), file_id);
        assert(file_ids =~= seq![file_ids[0]] + file_ids.skip(1));
    }
}

proof fn lemma_first_hit(
    table: Map<(u32, u32), FileEntry>,
    packet_nos: Seq<u32>,
    file_ids: Seq<u32>,
    packet_no: u32,
    file_id: u32,
)
    ensures
        packet_nos.contains(packet_no) && file_ids.contains(file_id) && table.contains_key(
            (packet_no, file_id),
        ) ==> first_hit(table, packet_nos, file_ids) is Some,
        first_hit(table, packet_nos, file_ids) matches Some(k) ==> table.contains_key(k)
            && packet_nos.contains(k.0) && file_ids.contains(k.1),
    decreases packet_nos.len(),
{
    if packet_nos.len() > 0 {
        lemma_first_with(table, packet_nos[0], file_ids, file_id);
        lemma_first_hit(table, packet_nos.skip(1), file_ids, packet_no, file_id);
        assert(packet_nos =~= seq![packet_nos[0]] + packet_nos.skip(1));
    }
}

/// What a peer gets is on the table, under numbers that the peer can mean.
pub proof fn lemma_requested_on_table(
    table: Map<(u32, u32), FileEntry>,
    packet_no: Seq<char>,
    file_id: Seq<char>,
)
    ensures
        requested(table, packet_no, file_id) matches Some(key) ==> table.contains_key(key)
            && readings(packet_no).contains(key.0) && readings(file_id).contains(key.1),
{
    lemma_first_hit(table, readings(packet_no), readings(file_id), 0, 0);
}

} // verus!
