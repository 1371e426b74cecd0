//! How many messages of each peer are unread.
use crate::addr_map::AddrMap;
use crate::net::SocketAddr;
use vstd::prelude::*;

verus! {

/// The count of a peer; peers without any unread message are left out.
pub open spec fn count_of(counts: Map<SocketAddr, u32>, addr: SocketAddr) -> u32 {
    if counts.contains_key(addr) {
        counts[addr]
    } else {
        0
    }
}

/// The count of a peer.
pub fn count_for(counts: &AddrMap<u32>, addr: SocketAddr) -> (r: u32)
    requires
        counts.wf(),
    ensures
        r == count_of(counts@, addr),
{
    match counts.get(addr) {
        Some(count) => *count,
        None => 0,
    }
}

/// Counts one more message of a peer, and gives the count.
pub fn increment(counts: &mut AddrMap<u32>, addr: SocketAddr) -> (r: u32)
    requires
        old(counts).wf(),
        count_of(old(counts)@, addr) < u32::MAX,
    ensures
        final(counts).wf(),
        r == count_of(old(counts)@, addr) + 1,
        final(counts)@ == old(counts)@.insert(addr, r),
{
    let count: u32 = count_for(counts, addr) + 1;
    counts.insert(addr, count);
    count
}

} // verus!
