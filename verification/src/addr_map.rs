//! A small map by address.
use crate::net::SocketAddr;
use vstd::prelude::*;

verus! {

/// A map by address, for few entries.
pub struct AddrMap<V> {
    list: Vec<(SocketAddr, V)>,
}

spec fn entries_in<V>(list: Seq<(SocketAddr, V)>) -> Map<SocketAddr, V>
    decreases list.len(),
{
    if list.len() == 0 {
        Map::empty()
    } else {
        entries_in(list.drop_last()).insert(list.last().0, list.last().1)
    }
}

spec fn distinct<V>(list: Seq<(SocketAddr, V)>) -> bool {
    forall|i: int, j: int| 0 <= i < j < list.len() ==> (#[trigger] list[i]).0 != (#[trigger] list[j]).0
}

proof fn lemma_entries<V>(list: Seq<(SocketAddr, V)>, addr: SocketAddr)
    requires
        distinct(list),
    ensures
        entries_in(list).contains_key(addr) <==> exists|i: int|
            0 <= i < list.len() && #[trigger] list[i].0 == addr,
        forall|i: int|
            0 <= i < list.len() && #[trigger] list[i].0 == addr ==> entries_in(list)[addr]
                == list[i].1,
    decreases list.len(),
{
    if list.len() > 0 {
        let l = list.drop_last();
        lemma_entries(l, addr);
        assert(forall|i: int| 0 <= i < l.len() ==> l[i] == list[i]);
    }
}

impl<V> View for AddrMap<V> {
    type V = Map<SocketAddr, V>;

    closed spec fn view(&self) -> Map<SocketAddr, V> {
        entries_in(self.list@)
    }
}

impl<V> AddrMap<V> {
    pub closed spec fn wf(self) -> bool {
        distinct(self.list@)
    }

    pub fn new() -> (r: AddrMap<V>)
        ensures
            r.wf(),
            r@ == Map::<SocketAddr, V>::empty(),
    {
        AddrMap { list: Vec::new() }
    }

    fn position(&self, addr: SocketAddr) -> (r: Option<usize>)
        requires
            self.wf(),
        ensures
            match r {
                Some(i) => i < self.list@.len() && self.list@[i as int].0 == addr
                    && self@.contains_key(addr) && self@[addr] == self.list@[i as int].1,
                None => !self@.contains_key(addr) && forall|k: int|
                    0 <= k < self.list@.len() ==> (#[trigger] self.list@[k]).0 != addr,
            },
    {
        proof {
            lemma_entries(self.list@, addr);
        }
        let mut i: usize = 0;
        while i < self.list.len()
            invariant
                self.wf(),
                i <= self.list@.len(),
                forall|k: int| 0 <= k < i ==> (#[trigger] self.list@[k]).0 != addr,
            decreases self.list@.len() - i,
        {
            if self.list[i].0 == addr {
                proof {
                    lemma_entries(self.list@, addr);
                }
                assert(self.list@[i as int].0 == addr);
                return Some(i);
            }
            i += 1;
        }
        None
    }

    /// The value at an address.
    pub fn get(&self, addr: SocketAddr) -> (r: Option<&V>)
        requires
            self.wf(),
        ensures
            match r {
                Some(v) => self@.contains_key(addr) && self@[addr] == *v,
                None => !self@.contains_key(addr),
            },
    {
        match self.position(addr) {
            Some(i) => Some(&self.list[i].1),
            None => None,
        }
    }

    /// Sets the value at an address.
    pub fn insert(&mut self, addr: SocketAddr, value: V)
        requires
            old(self).wf(),
        ensures
            final(self).wf(),
            final(self)@ == old(self)@.insert(addr, value),
    {
        match self.position(addr) {
            Some(i) => {
                self.list.set(i, (addr, value));
                assert(distinct(self.list@)) by {
                    assert(forall|k: int|
                        0 <= k < self.list@.len() ==> (#[trigger] self.list@[k]).0 == old(
                            self,
                        ).list@[k].0);
                }
                proof {
                    lemma_entries_set(old(self).list@, i as int, value);
                }
            },
            None => {
                self.list.push((addr, value));
                assert(self.list@.drop_last() =~= old(self).list@);
            },
        }
    }

    /// Takes out the value at an address; whether there was any.
    pub fn remove(&mut self, addr: SocketAddr) -> (r: bool)
        requires
            old(self).wf(),
        ensures
            final(self).wf(),
            r == old(self)@.contains_key(addr),
            final(self)@ == old(self)@.remove(addr),
    {
        match self.position(addr) {
            Some(i) => {
                self.list.remove(i);
                proof {
                    lemma_entries_removed(old(self).list@, i as int);
                }
                true
            },
            None => {
                assert(self@ =~= old(self)@.remove(addr));
                false
            },
        }
    }
}

proof fn lemma_entries_set<V>(list: Seq<(SocketAddr, V)>, at: int, value: V)
    requires
        distinct(list),
        0 <= at < list.len(),
    ensures
        entries_in(list.update(at, (list[at].0, value))) == entries_in(list).insert(
            list[at].0,
            value,
        ),
    decreases list.len(),
{
    let after = list.update(at, (list[at].0, value));
    let init = list.drop_last();
    assert(forall|i: int| 0 <= i < init.len() ==> init[i] == list[i]);
    if at == list.len() - 1 {
        assert(after.drop_last() =~= init);
        assert(entries_in(after) =~= entries_in(list).insert(list[at].0, value));
    } else {
        lemma_entries_set(init, at, value);
        assert(after.drop_last() =~= init.update(at, (list[at].0, value)));
        assert(list[at].0 != list[list.len() - 1].0);
        assert(entries_in(after) =~= entries_in(list).insert(list[at].0, value));
    }
}

proof fn lemma_entries_removed<V>(list: Seq<(SocketAddr, V)>, at: int)
    requires
        distinct(list),
        0 <= at < list.len(),
    ensures
        distinct(list.remove(at)),
        entries_in(list.remove(at)) == entries_in(list).remove(list[at].0),
    decreases list.len(),
{
    let rest = list.remove(at);
    let init = list.drop_last();
    assert(forall|i: int| 0 <= i < init.len() ==> init[i] == list[i]);
    assert(distinct(rest)) by {
        assert(forall|i: int| 0 <= i < at ==> rest[i] == list[i]);
        assert(forall|i: int| at <= i < rest.len() ==> rest[i] == list[i + 1]);
    }
    if at == list.len() - 1 {
        assert(rest =~= init);
        lemma_entries(init, list[at].0);
        assert(entries_in(rest) =~= entries_in(list).remove(list[at].0));
    } else {
        lemma_entries_removed(init, at);
        assert(rest.drop_last() =~= init.remove(at));
        assert(list[at].0 != list[list.len() - 1].0);
        assert(entries_in(rest) =~= entries_in(list).remove(list[at].0));
    }
}

} // verus!
