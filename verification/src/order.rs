//! Collections handed out in the order of their keys.
use std::collections::BTreeMap;
use vstd::prelude::*;
use vstd::std_specs::btree::increasing_seq;
use vstd::std_specs::cmp::OrdSpec;
use vstd::std_specs::iter::IteratorSpec;

use crate::types::{Address, SessionId};

verus! {

/// Every item of `s` comes before every later one.
pub open spec fn ascending<T>(s: Seq<T>, before: spec_fn(T, T) -> bool) -> bool {
    forall|i: int, j: int| 0 <= i < j < s.len() ==> before(#[trigger] s[i], #[trigger] s[j])
}

/// A set has only one ascending enumeration.
pub proof fn lemma_one_ascending_order<T>(a: Seq<T>, b: Seq<T>, before: spec_fn(T, T) -> bool)
    requires
        ascending(a, before),
        ascending(b, before),
        a.to_set() == b.to_set(),
        forall|x: T, y: T| #[trigger] before(x, y) ==> !before(y, x),
    ensures
        a == b,
    decreases a.len(),
{
    if a.len() == 0 {
        if b.len() > 0 {
            assert(b.to_set().contains(b[0]));
            assert(a.contains(b[0]));
        }
        assert(a =~= b);
    } else {
        assert(a.to_set().contains(a[0]));
        assert(b.contains(a[0]));
        let j = choose|j: int| 0 <= j < b.len() && b[j] == a[0];
        assert(b.to_set().contains(b[0]));
        assert(a.contains(b[0]));
        let i = choose|i: int| 0 <= i < a.len() && a[i] == b[0];
        if j > 0 {
            assert(before(b[0], b[j]));
            if i > 0 {
                assert(before(a[0], a[i]));
            }
        }
        assert(a[0] == b[0]);
        let (p, q) = (a.drop_first(), b.drop_first());
        assert forall|x: T| p.to_set().contains(x) <==> q.to_set().contains(x) by {
            if p.to_set().contains(x) {
                let k = choose|k: int| 0 <= k < p.len() && p[k] == x;
                assert(before(a[0], a[k + 1]));
                assert(a.to_set().contains(a[k + 1]));
                assert(b.contains(x));
                let l = choose|l: int| 0 <= l < b.len() && b[l] == x;
                assert(l > 0);
                assert(q[l - 1] == x);
            }
            if q.to_set().contains(x) {
                let k = choose|k: int| 0 <= k < q.len() && q[k] == x;
                assert(before(b[0], b[k + 1]));
                assert(b.to_set().contains(b[k + 1]));
                assert(a.contains(x));
                let l = choose|l: int| 0 <= l < a.len() && a[l] == x;
                assert(l > 0);
                assert(p[l - 1] == x);
            }
        }
        assert(p.to_set() =~= q.to_set());
        assert forall|k: int, l: int| 0 <= k < l < p.len() implies before(
            #[trigger] p[k],
            #[trigger] p[l],
        ) by {
            assert(before(a[k + 1], a[l + 1]));
        }
        assert forall|k: int, l: int| 0 <= k < l < q.len() implies before(
            #[trigger] q[k],
            #[trigger] q[l],
        ) by {
            assert(before(b[k + 1], b[l + 1]));
        }
        lemma_one_ascending_order(p, q, before);
        assert(a =~= seq![a[0]] + p);
        assert(b =~= seq![b[0]] + q);
    }
}

/// A finite set has an ascending enumeration.
pub proof fn lemma_some_ascending_order<T>(
    set: Set<T>,
    before: spec_fn(T, T) -> bool,
) -> (r: Seq<T>)
    requires
        set.finite(),
        forall|x: T, y: T| x == y || #[trigger] before(x, y) || before(y, x),
        forall|x: T, y: T, z: T| #[trigger]
            before(x, y) && #[trigger] before(y, z) ==> before(x, z),
    ensures
        ascending(r, before),
        r.to_set() == set,
    decreases set.len(),
{
    if set.len() == 0 {
        let r = Seq::<T>::empty();
        assert(r.to_set() =~= set);
        r
    } else {
        let x = set.choose();
        let rest = lemma_some_ascending_order(set.remove(x), before);
        let at = lemma_insertion_point(rest, x, before);
        let r = rest.insert(at, x);
        assert forall|i: int, j: int| 0 <= i < j < r.len() implies before(
            #[trigger] r[i],
            #[trigger] r[j],
        ) by {
            let p = if i < at { i } else { i - 1 };
            let q = if j < at { j } else { j - 1 };
            if i == at {
                assert(before(x, rest[q]));
            } else if j == at {
                assert(before(rest[p], x));
            } else {
                assert(before(rest[p], rest[q]));
            }
        }
        assert forall|y: T| r.to_set().contains(y) <==> set.contains(y) by {
            if r.contains(y) {
                let i = r.index_of(y);
                if i != at {
                    let p = if i < at { i } else { i - 1 };
                    assert(rest[p] == y);
                    assert(rest.to_set().contains(y));
                }
            }
            if set.contains(y) {
                if y == x {
                    assert(r[at] == y);
                } else {
                    assert(rest.to_set().contains(y));
                    let p = rest.index_of(y);
                    let i = if p < at { p } else { p + 1 };
                    assert(r[i] == y);
                }
            }
        }
        assert(r.to_set() =~= set);
        r
    }
}

/// An item that an ascending list lacks has its place in it.
proof fn lemma_insertion_point<T>(s: Seq<T>, x: T, before: spec_fn(T, T) -> bool) -> (at: int)
    requires
        ascending(s, before),
        !s.to_set().contains(x),
        forall|x: T, y: T| x == y || #[trigger] before(x, y) || before(y, x),
        forall|x: T, y: T, z: T| #[trigger]
            before(x, y) && #[trigger] before(y, z) ==> before(x, z),
    ensures
        0 <= at <= s.len(),
        forall|i: int| 0 <= i < at ==> before(#[trigger] s[i], x),
        forall|i: int| at <= i < s.len() ==> before(x, #[trigger] s[i]),
    decreases s.len(),
{
    if s.len() == 0 {
        0
    } else if before(s.last(), x) {
        assert forall|i: int| 0 <= i < s.len() implies before(#[trigger] s[i], x) by {
            if i < s.len() - 1 {
                assert(before(s[i], s.last()));
            }
        }
        s.len() as int
    } else {
        let front = s.drop_last();
        assert(!front.to_set().contains(x)) by {
            if front.contains(x) {
                let i = front.index_of(x);
                assert(s[i] == x);
                assert(s.to_set().contains(x));
            }
        }
        assert(s.last() != x) by {
            assert(s.to_set().contains(s.last()));
        }
        assert(before(x, s.last()) || before(s.last(), x));
        let at = lemma_insertion_point(front, x, before);
        assert forall|i: int| at <= i < s.len() implies before(x, #[trigger] s[i]) by {
            if i < s.len() - 1 {
                assert(before(x, front[i]));
            }
        }
        assert forall|i: int| 0 <= i < at implies before(#[trigger] s[i], x) by {
            assert(before(front[i], x));
        }
        at
    }
}

/// The order of session numbers.
pub open spec fn session_before() -> spec_fn(SessionId, SessionId) -> bool {
    |a: SessionId, b: SessionId| a < b
}

/// The sessions of a set, lowest number first.
pub open spec fn in_order(sessions: Set<SessionId>) -> Seq<SessionId> {
    choose|s: Seq<SessionId>| ascending(s, session_before()) && s.to_set() == sessions
}

/// An ascending enumeration of a set of sessions is the one that `in_order`
/// names.
pub proof fn lemma_in_order(s: Seq<SessionId>, sessions: Set<SessionId>)
    requires
        ascending(s, session_before()),
        s.to_set() == sessions,
    ensures
        in_order(sessions) == s,
{
    lemma_one_ascending_order(in_order(sessions), s, session_before());
}

/// `in_order` enumerates every finite set of sessions.
pub proof fn lemma_in_order_enumerates(sessions: Set<SessionId>)
    requires
        sessions.finite(),
    ensures
        ascending(in_order(sessions), session_before()),
        in_order(sessions).to_set() == sessions,
{
    let _s = lemma_some_ascending_order(sessions, session_before());
}

proof fn lemma_increasing_sessions(s: Seq<SessionId>)
    requires
        increasing_seq(s),
    ensures
        ascending(s, session_before()),
{
    assert forall|i: int, j: int| 0 <= i < j < s.len() implies session_before()(
        #[trigger] s[i],
        #[trigger] s[j],
    ) by {
        assert(s[i].cmp_spec(&s[j]) is Less);
    }
}

/// The sessions that a map has as keys, lowest number first.
pub fn session_ids<V>(m: &BTreeMap<SessionId, V>) -> (ids: Vec<SessionId>)
    ensures
        ids@ == in_order(m@.dom()),
        ascending(ids@, session_before()),
        ids@.to_set() == m@.dom(),
{
    let mut ids: Vec<SessionId> = Vec::new();
    let iter = m.iter();
    let ghost items = iter.remaining();
    let ghost keys = items.map_values(|kv: (&SessionId, &V)| *kv.0);
    for (id, _value) in it: iter
        invariant
            it.seq() == items,
            keys == items.map_values(|kv: (&SessionId, &V)| *kv.0),
            ids@ == keys.take(it.index() as int),
    {
        ids.push(*id);
    }
    proof {
        assert(ids@ == keys);
        lemma_increasing_sessions(keys);
        assert forall|k: SessionId| m@.contains_key(k) implies keys.contains(k) by {
            assert(items.contains((&k, &m@[k])));
            let i = items.index_of((&k, &m@[k]));
            assert(keys[i] == k);
        }
        assert forall|k: SessionId| keys.contains(k) implies m@.contains_key(k) by {
            let i = keys.index_of(k);
            assert(m@.contains_key(*items[i].0));
        }
        assert(ids@.to_set() =~= m@.dom());
        lemma_in_order(ids@, m@.dom());
    }
    ids
}

/// The sessions at the places that `wanted` marks.
pub open spec fn picked(ids: Seq<SessionId>, wanted: Seq<bool>) -> Set<SessionId> {
    Set::new(|id: SessionId| ids.contains(id) && wanted[ids.index_of(id)])
}

/// The sessions at the places that `wanted` marks, lowest number first.
pub fn pick(ids: &Vec<SessionId>, wanted: &Vec<bool>) -> (r: Vec<SessionId>)
    requires
        ascending(ids@, session_before()),
        wanted@.len() == ids@.len(),
    ensures
        r@ == in_order(picked(ids@, wanted@)),
{
    let mut r: Vec<SessionId> = Vec::new();
    let mut i: usize = 0;
    while i < ids.len()
        invariant
            ascending(ids@, session_before()),
            wanted@.len() == ids@.len(),
            i <= ids@.len(),
            ascending(r@, session_before()),
            forall|id: SessionId| #[trigger]
                r@.contains(id) <==> exists|j: int| 0 <= j < i && ids@[j] == id && wanted@[j],
        decreases ids@.len() - i,
    {
        let ghost so_far = r@;
        if wanted[i] {
            r.push(ids[i]);
            proof {
                let id = ids@[i as int];
                assert forall|j: int, k: int| 0 <= j < k < r@.len() implies session_before()(
                    #[trigger] r@[j],
                    #[trigger] r@[k],
                ) by {
                    if k == r@.len() - 1 {
                        assert(so_far.contains(so_far[j]));
                        let p = choose|p: int| 0 <= p < i && ids@[p] == so_far[j] && wanted@[p];
                        assert(session_before()(ids@[p], ids@[i as int]));
                    }
                }
                assert forall|x: SessionId| #[trigger] r@.contains(x) <==> exists|j: int|
                    0 <= j < i + 1 && ids@[j] == x && wanted@[j] by {
                    if r@.contains(x) {
                        let k = r@.index_of(x);
                        if k == r@.len() - 1 {
                            assert(ids@[i as int] == x);
                        } else {
                            assert(so_far[k] == x);
                            assert(so_far.contains(x));
                        }
                    }
                    if so_far.contains(x) {
                        let k = so_far.index_of(x);
                        assert(r@[k] == x);
                    }
                    if x == id {
                        assert(r@[r@.len() - 1] == x);
                    }
                }
            }
        } else {
            assert forall|x: SessionId| #[trigger] r@.contains(x) <==> exists|j: int|
                0 <= j < i + 1 && ids@[j] == x && wanted@[j] by {
                if exists|j: int| 0 <= j < i + 1 && ids@[j] == x && wanted@[j] {
                    let j = choose|j: int| 0 <= j < i + 1 && ids@[j] == x && wanted@[j];
                    assert(j < i);
                }
            }
        }
        i = i + 1;
    }
    proof {
        assert forall|id: SessionId| r@.to_set().contains(id) <==> picked(
            ids@,
            wanted@,
        ).contains(id) by {
            if r@.contains(id) {
                let j = choose|j: int| 0 <= j < i && ids@[j] == id && wanted@[j];
                let k = ids@.index_of(id);
                if j < k {
                    assert(session_before()(ids@[j], ids@[k]));
                } else if k < j {
                    assert(session_before()(ids@[k], ids@[j]));
                }
            }
            if picked(ids@, wanted@).contains(id) {
                let k = ids@.index_of(id);
                assert(ids@[k] == id && wanted@[k]);
                assert(r@.contains(id));
            }
        }
        assert(r@.to_set() =~= picked(ids@, wanted@));
        lemma_in_order(r@, picked(ids@, wanted@));
    }
    r
}

/// The order of account addresses: that of their bytes.
pub open spec fn address_before(a: Address, b: Address) -> bool {
    a.0 < b.0 || (a.0 == b.0 && a.1 < b.1)
}

/// `key` is the first address that `peers` maps to `session`.
pub open spec fn is_first_peer(
    peers: Map<Address, SessionId>,
    session: SessionId,
    key: Address,
) -> bool {
    &&& peers.contains_key(key)
    &&& peers[key] == session
    &&& forall|other: Address| #[trigger]
        peers.contains_key(other) && peers[other] == session && other != key ==> address_before(
            key,
            other,
        )
}

/// The first address that `peers` maps to `session`, if there is one.
pub open spec fn first_peer(peers: Map<Address, SessionId>, session: SessionId) -> Option<Address> {
    if exists|key: Address| is_first_peer(peers, session, key) {
        Some(choose|key: Address| is_first_peer(peers, session, key))
    } else {
        None
    }
}

/// There is only one first address.
pub proof fn lemma_first_peer(peers: Map<Address, SessionId>, session: SessionId, key: Address)
    requires
        is_first_peer(peers, session, key),
    ensures
        first_peer(peers, session) == Some(key),
{
    let other = choose|key: Address| is_first_peer(peers, session, key);
    if other != key {
        assert(address_before(key, other));
        assert(address_before(other, key));
    }
}

proof fn lemma_increasing_addresses(s: Seq<Address>)
    requires
        increasing_seq(s),
    ensures
        forall|i: int, j: int|
            0 <= i < j < s.len() ==> address_before(#[trigger] s[i], #[trigger] s[j]),
{
    assert forall|i: int, j: int| 0 <= i < j < s.len() implies address_before(
        #[trigger] s[i],
        #[trigger] s[j],
    ) by {
        assert(s[i].cmp_spec(&s[j]) is Less);
    }
}

/// The first address that `peers` maps to `session`.
pub fn find_peer(peers: &BTreeMap<Address, SessionId>, session: SessionId) -> (r: Option<Address>)
    ensures
        r == first_peer(peers@, session),
        r is None <==> forall|key: Address| #[trigger]
            peers@.contains_key(key) ==> peers@[key] != session,
        r matches Some(key) ==> is_first_peer(peers@, session, key),
{
    let iter = peers.iter();
    let ghost items = iter.remaining();
    let ghost keys = items.map_values(|kv: (&Address, &SessionId)| *kv.0);
    proof {
        lemma_increasing_addresses(keys);
        assert forall|k: Address| #[trigger] peers@.contains_key(k) implies keys.contains(k) by {
            assert(items.contains((&k, &peers@[k])));
            let i = items.index_of((&k, &peers@[k]));
            assert(keys[i] == k);
        }
    }
    let mut found: Option<Address> = None;
    for (key, value) in it: iter
        invariant
            it.seq() == items,
            keys == items.map_values(|kv: (&Address, &SessionId)| *kv.0),
            forall|i: int|
                0 <= i < items.len() ==> peers@.contains_key(*(#[trigger] items[i]).0)
                    && peers@[*items[i].0] == *items[i].1,
            forall|i: int, j: int|
                0 <= i < j < keys.len() ==> address_before(#[trigger] keys[i], #[trigger] keys[j]),
            forall|k: Address| #[trigger] peers@.contains_key(k) ==> keys.contains(k),
            match found {
                Some(key) => is_first_peer(peers@, session, key),
                None => forall|i: int|
                    0 <= i < it.index() ==> peers@[#[trigger] keys[i]] != session,
            },
    {
        if found.is_none() && *value == session {
            found = Some(*key);
            proof {
                let at = it.index() as int;
                assert(keys[at] == *key);
                assert forall|other: Address| #[trigger]
                    peers@.contains_key(other) && peers@[other] == session && other
                        != *key implies address_before(*key, other) by {
                    assert(keys.contains(other));
                    let j = keys.index_of(other);
                    assert(j > at);
                }
            }
        }
    }
    proof {
        match found {
            Some(key) => {
                lemma_first_peer(peers@, session, key);
            },
            None => {
                assert forall|k: Address| #[trigger] peers@.contains_key(k) implies peers@[k]
                    != session by {
                    assert(keys.contains(k));
                    let j = keys.index_of(k);
                    assert(peers@[keys[j]] != session);
                }
            },
        }
    }
    found
}

} // verus!
