//! Conversations within the row of all messages.
use crate::app_state::model;
use crate::app_state::model::{message_peer_addr, ChatMessage};
use crate::net;
use crate::net::{normalize_addr, SocketAddr};
use vstd::prelude::*;

verus! {

/// How many messages of each conversation are shown at first.
pub const SYNC_WINDOW: usize = 10;

/// How many more messages are loaded at once.
pub const LOAD_MORE_LIMIT: usize = 10;

/// The messages of a conversation, where `before` is given only those with a lower
/// number.
pub open spec fn selected(messages: Seq<ChatMessage>, addr: SocketAddr, before: Option<u64>) -> Seq<
    ChatMessage,
> {
    messages.filter(
        |m: ChatMessage| model::peer_of(m) == addr && (before matches Some(b) ==> m.id < b),
    )
}

/// The last `n` of a row.
pub open spec fn last_of(messages: Seq<ChatMessage>, n: nat) -> Seq<ChatMessage> {
    if messages.len() <= n {
        messages
    } else {
        messages.skip(messages.len() - n)
    }
}

/// The peers in the order in which their conversations began.
pub open spec fn peers_in(messages: Seq<ChatMessage>) -> Seq<SocketAddr>
    decreases messages.len(),
{
    if messages.len() == 0 {
        Seq::empty()
    } else {
        let peers = peers_in(messages.drop_last());
        let peer = model::peer_of(messages.last());
        if peers.contains(peer) {
            peers
        } else {
            peers.push(peer)
        }
    }
}

/// The last messages of each of these conversations.
pub open spec fn windows(messages: Seq<ChatMessage>, peers: Seq<SocketAddr>) -> Seq<ChatMessage>
    decreases peers.len(),
{
    if peers.len() == 0 {
        Seq::empty()
    } else {
        windows(messages, peers.drop_last()) + last_of(
            selected(messages, peers.last(), None),
            SYNC_WINDOW as nat,
        )
    }
}

/// For each of these conversations, whether it has more messages than are shown at
/// first.
pub open spec fn overflowing(messages: Seq<ChatMessage>, peers: Seq<SocketAddr>) -> Seq<
    (SocketAddr, bool),
> {
    peers.map_values(
        |p: SocketAddr| (p, selected(messages, p, None).len() > SYNC_WINDOW),
    )
}

/// The messages of a conversation.
pub fn select(messages: &Vec<ChatMessage>, addr: SocketAddr, before: Option<u64>) -> (r: Vec<
    ChatMessage,
>)
    ensures
        r@ == selected(messages@, addr, before),
{
    let mut r: Vec<ChatMessage> = Vec::new();
    let mut i: usize = 0;
    let ghost keep = |m: ChatMessage|
        model::peer_of(m) == addr && (before matches Some(b) ==> m.id < b);
    assert(messages@.take(0).filter(keep) =~= r@) by {
        reveal(Seq::filter);
    }
    while i < messages.len()
        invariant
            i <= messages@.len(),
            keep == (|m: ChatMessage|
                model::peer_of(m) == addr && (before matches Some(b) ==> m.id < b)),
            r@ == messages@.take(i as int).filter(keep),
        decreases messages@.len() - i,
    {
        assert(messages@.take(i + 1).drop_last() =~= messages@.take(i as int));
        proof {
            reveal(Seq::filter);
        }
        let m = &messages[i];
        let early = match before {
            Some(b) => m.id < b,
            None => true,
        };
        if message_peer_addr(m) == addr && early {
            r.push(m.duplicate());
        }
        i += 1;
    }
    assert(messages@.take(i as int) =~= messages@);
    r
}

/// The last `n` of a row.
pub fn keep_last(messages: &Vec<ChatMessage>, n: usize) -> (r: Vec<ChatMessage>)
    ensures
        r@ == last_of(messages@, n as nat),
{
    let start: usize = if messages.len() <= n {
        0
    } else {
        messages.len() - n
    };
    let mut r: Vec<ChatMessage> = Vec::new();
    let mut i: usize = start;
    while i < messages.len()
        invariant
            start <= i <= messages@.len(),
            r@ =~= messages@.subrange(start as int, i as int),
        decreases messages@.len() - i,
    {
        r.push(messages[i].duplicate());
        i += 1;
    }
    assert(r@ =~= last_of(messages@, n as nat));
    r
}

fn list_peers(messages: &Vec<ChatMessage>) -> (r: Vec<SocketAddr>)
    ensures
        r@ == peers_in(messages@),
{
    let mut r: Vec<SocketAddr> = Vec::new();
    let mut i: usize = 0;
    assert(messages@.take(0) =~= Seq::<ChatMessage>::empty());
    while i < messages.len()
        invariant
            i <= messages@.len(),
            r@ == peers_in(messages@.take(i as int)),
        decreases messages@.len() - i,
    {
        assert(messages@.take(i + 1).drop_last() =~= messages@.take(i as int));
        assert(messages@.take(i + 1).last() == messages@[i as int]);
        let peer = message_peer_addr(&messages[i]);
        if !has_peer(&r, peer) {
            r.push(peer);
        }
        i += 1;
    }
    assert(messages@.take(i as int) =~= messages@);
    r
}

fn has_peer(peers: &Vec<SocketAddr>, peer: SocketAddr) -> (r: bool)
    ensures
        r == peers@.contains(peer),
{
    let mut i: usize = 0;
    while i < peers.len()
        invariant
            i <= peers@.len(),
            forall|k: int| 0 <= k < i ==> peers@[k] != peer,
        decreases peers@.len() - i,
    {
        if peers[i] == peer {
            return true;
        }
        i += 1;
    }
    false
}

/// What is shown at first: the last messages of each conversation, and which
/// conversations have more.
pub fn first_sight(messages: &Vec<ChatMessage>) -> (r: (Vec<ChatMessage>, Vec<(SocketAddr, bool)>))
    ensures
        r.0@ == windows(messages@, peers_in(messages@)),
        r.1@ == overflowing(messages@, peers_in(messages@)),
{
    let peers = list_peers(messages);
    let mut shown: Vec<ChatMessage> = Vec::new();
    let mut has_more: Vec<(SocketAddr, bool)> = Vec::new();
    let mut i: usize = 0;
    assert(peers@.take(0) =~= Seq::<SocketAddr>::empty());
    while i < peers.len()
        invariant
            i <= peers@.len(),
            shown@ == windows(messages@, peers@.take(i as int)),
            has_more@ =~= overflowing(messages@, peers@.take(i as int)),
        decreases peers@.len() - i,
    {
        assert(peers@.take(i + 1).drop_last() =~= peers@.take(i as int));
        assert(peers@.take(i + 1).last() == peers@[i as int]);
        let all = select(messages, peers[i], None);
        has_more.push((peers[i], all.len() > SYNC_WINDOW));
        let mut last = keep_last(&all, SYNC_WINDOW);
        shown.append(&mut last);
        i += 1;
    }
    assert(peers@.take(i as int) =~= peers@);
    (shown, has_more)
}

/// A message of an earlier run as it enters this one: with a number of this run, and
/// with the addresses at which clients listen.
pub open spec fn renumbered(m: ChatMessage, id: u64) -> ChatMessage {
    ChatMessage { id, from: net::normalized(m.from), to: net::normalized(m.to), ..m }
}

/// Messages of an earlier run as they enter this one.
pub open spec fn revived(messages: Seq<ChatMessage>, first_id: u64) -> Seq<ChatMessage> {
    Seq::new(
        messages.len(),
        |i: int| renumbered(messages[i], (first_id + i) as u64),
    )
}

/// Takes in the messages of an earlier run.
pub fn revive(messages: Vec<ChatMessage>, first_id: u64) -> (r: Vec<ChatMessage>)
    requires
        first_id + messages@.len() <= u64::MAX,
    ensures
        r@ == revived(messages@, first_id),
{
    let mut r: Vec<ChatMessage> = Vec::new();
    let mut i: usize = 0;
    while i < messages.len()
        invariant
            i <= messages@.len(),
            first_id + messages@.len() <= u64::MAX,
            r@ =~= revived(messages@.take(i as int), first_id),
        decreases messages@.len() - i,
    {
        let mut m = messages[i].duplicate();
        m.id = first_id + i as u64;
        m.from = normalize_addr(m.from);
        m.to = normalize_addr(m.to);
        r.push(m);
        i += 1;
    }
    assert(messages@.take(i as int) =~= messages@);
    r
}

/// What is loaded in two steps is what would be loaded in one: the last messages
/// before some number, then the last ones before the first of these.
pub proof fn law_windows_meet(older: Seq<ChatMessage>, n: nat, k: nat)
    ensures
        older.len() > n ==> last_of(older, n + k) == last_of(
            older.take(older.len() - n),
            k,
        ) + last_of(older, n),
        older.len() <= n ==> last_of(older, n) == older,
        last_of(older, n).len() == if older.len() < n {
            older.len()
        } else {
            n
        },
{
    if older.len() > n {
        let cut = older.len() - n;
        let front = older.take(cut);
        assert(last_of(older, n + k) =~= last_of(front, k) + last_of(older, n));
    }
}

/// The numbers of the messages grow.
pub open spec fn growing(messages: Seq<ChatMessage>) -> bool {
    forall|i: int, j: int|
        0 <= i < j < messages.len() ==> (#[trigger] messages[i]).id < (#[trigger] messages[j]).id
}

/// Of the messages of a conversation, those before a number come first.
pub proof fn lemma_selected(messages: Seq<ChatMessage>, addr: SocketAddr, b: u64)
    requires
        growing(messages),
    ensures
        ({
            let all = selected(messages, addr, None);
            let early = selected(messages, addr, Some(b));
            &&& early.len() <= all.len()
            &&& early == all.take(early.len() as int)
            &&& forall|i: int| 0 <= i < early.len() ==> (#[trigger] all[i]).id < b
            &&& forall|i: int| early.len() <= i < all.len() ==> (#[trigger] all[i]).id >= b
            &&& growing(all)
            &&& forall|i: int|
                0 <= i < all.len() ==> messages.len() > 0 && (#[trigger] all[i]).id
                    <= messages.last().id && model::peer_of(all[i]) == addr
        }),
    decreases messages.len(),
{
    reveal(Seq::filter);
    let all = selected(messages, addr, None);
    let early = selected(messages, addr, Some(b));
    if messages.len() > 0 {
        let init = messages.drop_last();
        let last = messages.last();
        assert(growing(init)) by {
            assert(forall|i: int| 0 <= i < init.len() ==> init[i] == messages[i]);
        }
        lemma_selected(init, addr, b);
        let all0 = selected(init, addr, None);
        let early0 = selected(init, addr, Some(b));
        if init.len() > 0 {
            assert(messages[init.len() - 1].id < messages[messages.len() - 1].id);
            assert(init.last() == messages[init.len() - 1]);
        }
        if model::peer_of(last) == addr {
            assert(all == all0.push(last));
            if last.id < b {
                assert(early == early0.push(last));
                if early0.len() < all0.len() {
                    assert(all0[early0.len() as int].id >= b);
                }
                assert(early =~= all.take(early.len() as int));
            } else {
                assert(early =~= all.take(early.len() as int));
            }
        }
    }
}

/// What is asked for next continues what is shown: the messages of a conversation
/// before the first of the last `n` are all others, and none is shown twice.
pub proof fn law_load_more_continues(messages: Seq<ChatMessage>, addr: SocketAddr, n: nat)
    requires
        growing(messages),
        0 < n < selected(messages, addr, None).len(),
    ensures
        ({
            let all = selected(messages, addr, None);
            selected(messages, addr, Some(last_of(all, n)[0].id)) == all.take(all.len() - n)
        }),
{
    let all = selected(messages, addr, None);
    let k = all.len() - n;
    let b = all[k].id;
    assert(last_of(all, n)[0] == all[k]);
    lemma_selected(messages, addr, b);
    let early = selected(messages, addr, Some(b));
    if early.len() > k {
        assert(all[k].id < b);
    }
    if early.len() < k {
        assert(all[early.len() as int].id >= b);
        assert(all[early.len() as int].id < all[k].id);
    }
}

/// What is loaded belongs to the conversation and comes before the given number.
pub proof fn law_loaded_are_earlier(messages: Seq<ChatMessage>, addr: SocketAddr, b: u64, n: nat)
    requires
        growing(messages),
    ensures
        ({
            let loaded = last_of(selected(messages, addr, Some(b)), n);
            &&& growing(loaded)
            &&& forall|i: int|
                0 <= i < loaded.len() ==> model::peer_of(#[trigger] loaded[i]) == addr
                    && loaded[i].id < b
        }),
{
    lemma_selected(messages, addr, b);
    let all = selected(messages, addr, None);
    let early = selected(messages, addr, Some(b));
    assert(forall|i: int| 0 <= i < early.len() ==> early[i] == all[i]);
}

} // verus!
