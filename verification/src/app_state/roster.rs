//! The users who are online, in the order of their addresses.
use crate::app_state::model;
use crate::app_state::model::OnlineUser;
use crate::net;
use crate::net::{addr_precedes, SocketAddr};
use vstd::prelude::*;

verus! {

/// Each address occurs once, and the addresses are in order.
pub open spec fn in_order(users: Seq<model::UserView>) -> bool {
    forall|i: int, j: int|
        0 <= i < j < users.len() ==> net::addr_before(
            (#[trigger] users[i]).addr,
            (#[trigger] users[j]).addr,
        )
}

/// Somebody is online at this address.
pub open spec fn is_online(users: Seq<model::UserView>, addr: SocketAddr) -> bool {
    exists|i: int| 0 <= i < users.len() && (#[trigger] users[i]).addr == addr
}

/// The users once this one is online, in their place and instead of who was at their
/// address.
pub open spec fn with_user(users: Seq<model::UserView>, user: model::UserView) -> Seq<
    model::UserView,
>
    decreases users.len(),
{
    if users.len() == 0 || net::addr_before(users.last().addr, user.addr) {
        users.push(user)
    } else if users.last().addr == user.addr {
        users.drop_last().push(user)
    } else {
        with_user(users.drop_last(), user).push(users.last())
    }
}

/// The users without the one at this address.
pub open spec fn without_user(users: Seq<model::UserView>, addr: SocketAddr) -> Seq<
    model::UserView,
>
    decreases users.len(),
{
    if users.len() == 0 {
        users
    } else if users.last().addr == addr {
        users.drop_last()
    } else {
        without_user(users.drop_last(), addr).push(users.last())
    }
}

/// The user at an address.
pub open spec fn user_at(users: Seq<model::UserView>, addr: SocketAddr) -> Option<model::UserView>
    decreases users.len(),
{
    if users.len() == 0 {
        None
    } else if users.last().addr == addr {
        Some(users.last())
    } else {
        user_at(users.drop_last(), addr)
    }
}

/// Takes a user in, in their place.
pub fn insert_user(users: &mut Vec<OnlineUser>, user: OnlineUser)
    ensures
        model::user_views(final(users)@) == with_user(model::user_views(old(users)@), user@),
{
    let ghost all = model::user_views(users@);
    let mut i: usize = users.len();
    assert(all.take(i as int) =~= all);
    assert(all.skip(i as int) =~= Seq::<model::UserView>::empty());
    while i > 0
        invariant
            *users == *old(users),
            all == model::user_views(users@),
            i <= users@.len(),
            with_user(all, user@) == with_user(all.take(i as int), user@) + all.skip(i as int),
        ensures
            with_user(all.take(i as int), user@) == all.take(i as int).push(user@),
        decreases i,
    {
        let last = &users[i - 1];
        assert(all.take(i as int).last() == last@);
        assert(all.take(i as int).drop_last() =~= all.take(i - 1));
        if addr_precedes(&last.addr, &user.addr) {
            break;
        }
        if last.addr == user.addr {
            proof {
                assert(with_user(all.take(i as int), user@) == all.take(i - 1).push(user@));
                assert(all.update(i - 1, user@) =~= all.take(i - 1).push(user@) + all.skip(
                    i as int,
                ));
            }
            users.set(i - 1, user);
            assert(model::user_views(users@) =~= all.update(i - 1, user@));
            return;
        }
        assert(seq![last@] + all.skip(i as int) =~= all.skip(i - 1));
        assert(with_user(all.take(i - 1), user@).push(last@) + all.skip(i as int) =~= with_user(
            all.take(i - 1),
            user@,
        ) + all.skip(i - 1));
        i -= 1;
    }
    users.insert(i, user);
    assert(model::user_views(users@) =~= all.take(i as int).push(user@) + all.skip(i as int));
}

/// Lets a user go; whether they were there.
pub fn remove_user(users: &mut Vec<OnlineUser>, addr: SocketAddr) -> (r: bool)
    ensures
        model::user_views(final(users)@) == without_user(model::user_views(old(users)@), addr),
        r == is_online(model::user_views(old(users)@), addr),
{
    let ghost all = model::user_views(users@);
    let mut i: usize = users.len();
    assert(all.take(i as int) =~= all);
    assert(all.skip(i as int) =~= Seq::<model::UserView>::empty());
    while i > 0
        invariant
            *users == *old(users),
            all == model::user_views(users@),
            i <= users@.len(),
            without_user(all, addr) == without_user(all.take(i as int), addr) + all.skip(i as int),
            forall|k: int| i <= k < all.len() ==> (#[trigger] all[k]).addr != addr,
        decreases i,
    {
        assert(all.take(i as int).last() == all[i - 1]);
        assert(all.take(i as int).drop_last() =~= all.take(i - 1));
        if users[i - 1].addr == addr {
            assert(all[i - 1].addr == addr);
            users.remove(i - 1);
            assert(model::user_views(users@) =~= all.take(i - 1) + all.skip(i as int));
            return true;
        }
        assert(without_user(all.take(i - 1), addr).push(all[i - 1]) + all.skip(i as int)
            =~= without_user(all.take(i - 1), addr) + all.skip(i - 1));
        i -= 1;
    }
    assert(all.skip(0) =~= all);
    assert(without_user(all, addr) =~= all);
    false
}

/// Whether somebody is online at this address.
pub fn has_user(users: &Vec<OnlineUser>, addr: SocketAddr) -> (r: bool)
    ensures
        r == is_online(model::user_views(users@), addr),
{
    let mut i: usize = 0;
    while i < users.len()
        invariant
            i <= users@.len(),
            forall|k: int| 0 <= k < i ==> (#[trigger] users@[k]).addr != addr,
        decreases users@.len() - i,
    {
        if users[i].addr == addr {
            assert(model::user_views(users@)[i as int].addr == addr);
            return true;
        }
        i += 1;
    }
    assert(forall|k: int|
        0 <= k < users@.len() ==> (#[trigger] model::user_views(users@)[k]).addr
            == users@[k].addr);
    false
}

/// The user at an address.
pub fn find_user(users: &Vec<OnlineUser>, addr: SocketAddr) -> (r: Option<OnlineUser>)
    ensures
        match user_at(model::user_views(users@), addr) {
            Some(u) => r is Some && r->0@ == u,
            None => r is None,
        },
{
    let ghost all = model::user_views(users@);
    let mut i: usize = users.len();
    assert(all.take(i as int) =~= all);
    while i > 0
        invariant
            all == model::user_views(users@),
            i <= users@.len(),
            user_at(all, addr) == user_at(all.take(i as int), addr),
        decreases i,
    {
        assert(all.take(i as int).last() == users@[i - 1]@);
        assert(all.take(i as int).drop_last() =~= all.take(i - 1));
        if users[i - 1].addr == addr {
            return Some(users[i - 1].duplicate());
        }
        i -= 1;
    }
    None
}

/// The users, in the order of their addresses.
pub fn sorted_users(users: &Vec<OnlineUser>) -> (r: Vec<OnlineUser>)
    ensures
        r@ == users@,
{
    let mut r: Vec<OnlineUser> = Vec::new();
    let mut i: usize = 0;
    while i < users.len()
        invariant
            i <= users@.len(),
            r@ =~= users@.take(i as int),
        decreases users@.len() - i,
    {
        r.push(users[i].duplicate());
        i += 1;
    }
    assert(users@.take(i as int) =~= users@);
    r
}

/// A user who comes online is found at their address; nobody else changes, and the
/// order is kept.
pub proof fn law_user_comes(
    users: Seq<model::UserView>,
    user: model::UserView,
    other: SocketAddr,
)
    requires
        in_order(users),
    ensures
        in_order(with_user(users, user)),
        user_at(with_user(users, user), user.addr) == Some(user),
        other != user.addr ==> user_at(with_user(users, user), other) == user_at(users, other),
    decreases users.len(),
{
    let r = with_user(users, user);
    if users.len() == 0 || net::addr_before(users.last().addr, user.addr) {
        assert(r.drop_last() =~= users);
        assert forall|i: int, j: int| 0 <= i < j < r.len() implies net::addr_before(
            (#[trigger] r[i]).addr,
            (#[trigger] r[j]).addr,
        ) by {
            if j == users.len() && i < users.len() - 1 {
                assert(net::addr_before(users[i].addr, users[users.len() - 1].addr));
            }
        }
    } else if users.last().addr == user.addr {
        assert(r.drop_last() =~= users.drop_last());
        assert forall|i: int, j: int| 0 <= i < j < r.len() implies net::addr_before(
            (#[trigger] r[i]).addr,
            (#[trigger] r[j]).addr,
        ) by {
            assert(net::addr_before(users[i].addr, users[j].addr));
        }
    } else {
        let init = users.drop_last();
        law_user_comes(init, user, other);
        let s = with_user(init, user);
        assert(r.drop_last() =~= s);
        lemma_members(init, user);
        assert forall|i: int, j: int| 0 <= i < j < r.len() implies net::addr_before(
            (#[trigger] r[i]).addr,
            (#[trigger] r[j]).addr,
        ) by {
            if j == s.len() {
                assert(r[i] == s[i]);
                if s[i].addr != user.addr {
                    let k = choose|k: int| 0 <= k < init.len() && init[k].addr == s[i].addr;
                    assert(net::addr_before(users[k].addr, users[users.len() - 1].addr));
                }
            } else {
                assert(r[i] == s[i] && r[j] == s[j]);
            }
        }
    }
}

proof fn lemma_members(users: Seq<model::UserView>, user: model::UserView)
    ensures
        forall|i: int|
            0 <= i < with_user(users, user).len() ==> (#[trigger] with_user(users, user)[i]).addr
                == user.addr || exists|k: int|
                0 <= k < users.len() && (#[trigger] users[k]).addr == with_user(users, user)[i].addr,
    decreases users.len(),
{
    let r = with_user(users, user);
    if users.len() == 0 || net::addr_before(users.last().addr, user.addr) {
        assert forall|i: int| 0 <= i < r.len() implies (#[trigger] r[i]).addr == user.addr
            || exists|k: int| 0 <= k < users.len() && (#[trigger] users[k]).addr == r[i].addr by {
            if i < users.len() {
                assert(users[i].addr == r[i].addr);
            }
        }
    } else if users.last().addr == user.addr {
        assert forall|i: int| 0 <= i < r.len() implies (#[trigger] r[i]).addr == user.addr
            || exists|k: int| 0 <= k < users.len() && (#[trigger] users[k]).addr == r[i].addr by {
            assert(users[i].addr == r[i].addr);
        }
    } else {
        let init = users.drop_last();
        lemma_members(init, user);
        let s = with_user(init, user);
        assert forall|i: int| 0 <= i < r.len() implies (#[trigger] r[i]).addr == user.addr
            || exists|k: int| 0 <= k < users.len() && (#[trigger] users[k]).addr == r[i].addr by {
            if i < s.len() {
                assert(r[i] == s[i]);
                if s[i].addr != user.addr {
                    let k = choose|k: int| 0 <= k < init.len() && init[k].addr == s[i].addr;
                    assert(users[k].addr == r[i].addr);
                }
            } else {
                assert(users[users.len() - 1].addr == r[i].addr);
            }
        }
    }
}

/// A user who goes offline is not found any more; nobody else changes, and the order
/// is kept.
pub proof fn law_user_goes(users: Seq<model::UserView>, addr: SocketAddr, other: SocketAddr)
    requires
        in_order(users),
    ensures
        in_order(without_user(users, addr)),
        user_at(without_user(users, addr), addr) is None,
        other != addr ==> user_at(without_user(users, addr), other) == user_at(users, other),
    decreases users.len(),
{
    let r = without_user(users, addr);
    if users.len() > 0 {
        let init = users.drop_last();
        assert(in_order(init)) by {
            assert(forall|i: int| 0 <= i < init.len() ==> init[i] == users[i]);
        }
        law_user_goes(init, addr, other);
        if users.last().addr == addr {
            lemma_not_at(init, addr, users.last());
        } else {
            let s = without_user(init, addr);
            assert(r.drop_last() =~= s);
            lemma_remaining(init, addr);
            assert forall|i: int, j: int| 0 <= i < j < r.len() implies net::addr_before(
                (#[trigger] r[i]).addr,
                (#[trigger] r[j]).addr,
            ) by {
                if j == s.len() {
                    assert(r[i] == s[i]);
                    let k = choose|k: int| 0 <= k < init.len() && init[k] == s[i];
                    assert(net::addr_before(users[k].addr, users[users.len() - 1].addr));
                } else {
                    assert(r[i] == s[i] && r[j] == s[j]);
                }
            }
        }
    }
}

proof fn lemma_remaining(users: Seq<model::UserView>, addr: SocketAddr)
    ensures
        forall|i: int|
            0 <= i < without_user(users, addr).len() ==> exists|k: int|
                0 <= k < users.len() && #[trigger] users[k] == (#[trigger] without_user(
                    users,
                    addr,
                )[i]),
    decreases users.len(),
{
    let r = without_user(users, addr);
    if users.len() > 0 {
        let init = users.drop_last();
        lemma_remaining(init, addr);
        let s = without_user(init, addr);
        assert forall|i: int| 0 <= i < r.len() implies exists|k: int|
            0 <= k < users.len() && #[trigger] users[k] == (#[trigger] r[i]) by {
            if users.last().addr == addr {
                assert(users[i] == r[i]);
            } else if i < s.len() {
                assert(r[i] == s[i]);
                let k = choose|k: int| 0 <= k < init.len() && init[k] == s[i];
                assert(users[k] == r[i]);
            } else {
                assert(users[users.len() - 1] == r[i]);
            }
        }
    }
}

proof fn lemma_not_at(users: Seq<model::UserView>, addr: SocketAddr, last: model::UserView)
    requires
        last.addr == addr,
        in_order(users.push(last)),
    ensures
        user_at(users, addr) is None,
    decreases users.len(),
{
    if users.len() > 0 {
        let all = users.push(last);
        assert(net::addr_before(all[users.len() - 1].addr, all[users.len() as int].addr));
        let init = users.drop_last();
        assert(in_order(init.push(last))) by {
            assert forall|i: int, j: int| 0 <= i < j < init.push(last).len() implies
                net::addr_before(
                (#[trigger] init.push(last)[i]).addr,
                (#[trigger] init.push(last)[j]).addr,
            ) by {
                assert(net::addr_before(
                    all[i].addr,
                    all[if j == init.len() {
                        users.len() as int
                    } else {
                        j
                    }].addr,
                ));
            }
        }
        lemma_not_at(init, addr, last);
    }
}

} // verus!
