//! The marks by which outgoing transfers are stopped.
use crate::net::IpAddr;
use vstd::prelude::*;

verus! {

/// An outgoing transfer: the host it goes to, and what was offered there.
#[derive(Debug, Clone, Copy, PartialEq, Eq, Structural)]
pub struct CancelKey {
    pub peer: IpAddr,
    pub packet_no: u32,
    pub file_id: u32,
}

/// Marks by token. A transfer holds on to its token; `current` says which token a
/// transfer that begins now shares.
#[verifier::ext_equal]
pub struct CancelView {
    pub marks: Seq<bool>,
    pub current: Map<CancelKey, nat>,
}

impl CancelView {
    /// Every current token has a mark, and no two transfers share one.
    pub open spec fn sound(self) -> bool {
        &&& forall|k: CancelKey|
            self.current.contains_key(k) ==> #[trigger] self.current[k] < self.marks.len()
        &&& forall|j: CancelKey, k: CancelKey|
            self.current.contains_key(j) && self.current.contains_key(k) && #[trigger]
            self.current[j] == #[trigger] self.current[k] ==> j == k
    }

    /// The token of a transfer that begins.
    pub open spec fn token_of(self, key: CancelKey) -> nat {
        if self.current.contains_key(key) {
            self.current[key]
        } else {
            self.marks.len()
        }
    }

    /// A transfer has a token; a new one is not marked.
    pub open spec fn with_token(self, key: CancelKey) -> CancelView {
        if self.current.contains_key(key) {
            self
        } else {
            CancelView {
                marks: self.marks.push(false),
                current: self.current.insert(key, self.marks.len()),
            }
        }
    }

    /// The token of a transfer is marked.
    pub open spec fn with_mark(self, key: CancelKey) -> CancelView {
        let v = self.with_token(key);
        CancelView { marks: v.marks.update(v.current[key] as int, true), ..v }
    }

    /// The next transfer under this key gets a token of its own.
    pub open spec fn without(self, key: CancelKey) -> CancelView {
        CancelView { current: self.current.remove(key), ..self }
    }
}

/// The marks by which outgoing transfers are stopped.
pub struct CancelFlags {
    marks: Vec<bool>,
    current: Vec<(CancelKey, usize)>,
}

/// The tokens in a list of keys.
spec fn tokens_in(list: Seq<(CancelKey, usize)>) -> Map<CancelKey, nat>
    decreases list.len(),
{
    if list.len() == 0 {
        Map::empty()
    } else {
        tokens_in(list.drop_last()).insert(list.last().0, list.last().1 as nat)
    }
}

spec fn distinct_keys(list: Seq<(CancelKey, usize)>) -> bool {
    forall|i: int, j: int| 0 <= i < j < list.len() ==> (#[trigger] list[i]).0 != (#[trigger] list[j]).0
}

proof fn lemma_tokens_in(list: Seq<(CancelKey, usize)>, key: CancelKey)
    requires
        distinct_keys(list),
    ensures
        tokens_in(list).contains_key(key) <==> exists|i: int|
            0 <= i < list.len() && #[trigger] list[i].0 == key,
        forall|i: int|
            0 <= i < list.len() && #[trigger] list[i].0 == key ==> tokens_in(list)[key]
                == list[i].1,
    decreases list.len(),
{
    if list.len() > 0 {
        let l = list.drop_last();
        lemma_tokens_in(l, key);
        assert(forall|i: int| 0 <= i < l.len() ==> l[i] == list[i]);
    }
}

proof fn lemma_tokens_removed(list: Seq<(CancelKey, usize)>, at: int)
    requires
        distinct_keys(list),
        0 <= at < list.len(),
    ensures
        tokens_in(list.remove(at)) == tokens_in(list).remove(list[at].0),
        distinct_keys(list.remove(at)),
{
    let key = list[at].0;
    let rest = list.remove(at);
    assert(forall|i: int| 0 <= i < at ==> rest[i] == list[i]);
    assert(forall|i: int| at <= i < rest.len() ==> rest[i] == list[i + 1]);
    assert(distinct_keys(rest));
    assert forall|k: CancelKey|
        tokens_in(rest).contains_key(k) <==> tokens_in(list).remove(key).contains_key(k) by {
        lemma_tokens_in(rest, k);
        lemma_tokens_in(list, k);
        if k != key && tokens_in(list).contains_key(k) {
            let i = choose|i: int| 0 <= i < list.len() && #[trigger] list[i].0 == k;
            assert(rest[if i < at { i } else { i - 1 }].0 == k);
        }
        if tokens_in(rest).contains_key(k) {
            let i = choose|i: int| 0 <= i < rest.len() && #[trigger] rest[i].0 == k;
            assert(list[if i < at { i } else { i + 1 }].0 == k);
        }
    }
    assert forall|k: CancelKey| tokens_in(rest).contains_key(k) implies tokens_in(rest)[k]
        == tokens_in(list).remove(key)[k] by {
        lemma_tokens_in(rest, k);
        lemma_tokens_in(list, k);
        let i = choose|i: int| 0 <= i < rest.len() && #[trigger] rest[i].0 == k;
        assert(list[if i < at { i } else { i + 1 }].0 == k);
    }
    assert(tokens_in(rest) =~= tokens_in(list).remove(key));
}

impl View for CancelFlags {
    type V = CancelView;

    closed spec fn view(&self) -> CancelView {
        CancelView { marks: self.marks@, current: tokens_in(self.current@) }
    }
}

impl CancelFlags {
    pub closed spec fn wf(self) -> bool {
        &&& distinct_keys(self.current@)
        &&& self@.sound()
    }

    pub fn new() -> (r: CancelFlags)
        ensures
            r.wf(),
            r@.marks == Seq::<bool>::empty(),
            r@.current == Map::<CancelKey, nat>::empty(),
    {
        CancelFlags { marks: Vec::new(), current: Vec::new() }
    }

    fn position(&self, key: CancelKey) -> (r: Option<usize>)
        requires
            self.wf(),
        ensures
            match r {
                Some(i) => i < self.current@.len() && self.current@[i as int].0 == key
                    && self@.current.contains_key(key) && self@.current[key]
                    == self.current@[i as int].1,
                None => !self@.current.contains_key(key),
            },
    {
        proof {
            lemma_tokens_in(self.current@, key);
        }
        let mut i: usize = 0;
        while i < self.current.len()
            invariant
                self.wf(),
                i <= self.current@.len(),
                forall|k: int| 0 <= k < i ==> (#[trigger] self.current@[k]).0 != key,
            decreases self.current@.len() - i,
        {
            if self.current[i].0 == key {
                proof {
                    lemma_tokens_in(self.current@, key);
                }
                assert(self.current@[i as int].0 == key);
                return Some(i);
            }
            i += 1;
        }
        None
    }

    /// The token of a transfer that begins.
    pub fn send_cancel_token(&mut self, key: CancelKey) -> (r: usize)
        requires
            old(self).wf(),
        ensures
            final(self).wf(),
            final(self)@ == old(self)@.with_token(key),
            r == old(self)@.token_of(key),
            r < final(self)@.marks.len(),
    {
        match self.position(key) {
            Some(i) => self.current[i].1,
            None => {
                let token: usize = self.marks.len();
                proof {
                    lemma_tokens_in(self.current@, key);
                }
                self.marks.push(false);
                self.current.push((key, token));
                assert(self.current@.drop_last() =~= old(self).current@);
                assert(self@ =~= old(self)@.with_token(key));
                token
            },
        }
    }

    /// Stops the transfers under this key, also one that is still to begin.
    pub fn mark(&mut self, key: CancelKey)
        requires
            old(self).wf(),
        ensures
            final(self).wf(),
            final(self)@ == old(self)@.with_mark(key),
    {
        let token = self.send_cancel_token(key);
        self.marks.set(token, true);
        assert(self@ =~= old(self)@.with_mark(key));
    }

    /// Lets go of the token of a transfer that is over.
    pub fn clear_send_cancel_token(&mut self, key: CancelKey)
        requires
            old(self).wf(),
        ensures
            final(self).wf(),
            final(self)@ == old(self)@.without(key),
    {
        match self.position(key) {
            Some(i) => {
                proof {
                    lemma_tokens_removed(self.current@, i as int);
                }
                self.current.remove(i);
                assert(self@ =~= old(self)@.without(key));
            },
            None => {
                assert(self@ =~= old(self)@.without(key));
            },
        }
    }

    /// Whether the transfer that holds this token is to stop.
    pub fn is_canceled(&self, token: usize) -> (r: bool)
        ensures
            r == (token < self@.marks.len() && self@.marks[token as int]),
    {
        token < self.marks.len() && self.marks[token]
    }
}

/// Flags that are in use are always sound: every token is that of one file.
pub proof fn law_flags_sound(flags: CancelFlags)
    requires
        flags.wf(),
    ensures
        flags@.sound(),
{
}

/// Stopping a transfer marks the token that it holds, or will get, and no other;
/// and no transfer loses its token.
pub proof fn law_mark_reaches_transfer(v: CancelView, key: CancelKey, other: nat)
    requires
        v.sound(),
    ensures
        v.with_mark(key).sound(),
        v.with_mark(key).token_of(key) == v.token_of(key),
        v.with_mark(key).marks[v.token_of(key) as int],
        other < v.marks.len() && other != v.token_of(key) ==> v.with_mark(key).marks[other as int]
            == v.marks[other as int],
        forall|k: CancelKey|
            v.current.contains_key(k) ==> v.with_mark(key).current.contains_key(k)
                && v.with_mark(key).current[k] == #[trigger] v.current[k],
{
}

/// Once the token of a transfer was let go, the next transfer under the same key
/// begins without a mark.
pub proof fn law_fresh_after_clear(v: CancelView, key: CancelKey)
    requires
        v.sound(),
    ensures
        v.without(key).sound(),
        !v.without(key).with_token(key).marks[v.without(key).token_of(key) as int],
{
}

} // verus!
