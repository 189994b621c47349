//! The peers that the configuration names, and the addresses of those whose
//! names have been resolved.
use vstd::prelude::*;

use crate::order::{ascending, lemma_one_ascending_order, lemma_some_ascending_order};
use crate::text::{
    lemma_text_order_asymmetric, lemma_text_order_total, lemma_text_order_transitive, sorts,
    text_before, Sorts,
};
use crate::types::SocketAddr;

verus! {

/// The order of peer names.
pub open spec fn name_before() -> spec_fn(Seq<char>, Seq<char>) -> bool {
    |a: Seq<char>, b: Seq<char>| text_before(a, b)
}

/// The names of a set, in their order.
pub open spec fn names_in_order(names: Set<Seq<char>>) -> Seq<Seq<char>> {
    choose|s: Seq<Seq<char>>| ascending(s, name_before()) && s.to_set() == names
}

/// An ascending enumeration of a set of names is the one that
/// `names_in_order` names.
pub proof fn lemma_names_in_order(s: Seq<Seq<char>>, names: Set<Seq<char>>)
    requires
        ascending(s, name_before()),
        s.to_set() == names,
    ensures
        names_in_order(names) == s,
{
    lemma_name_order_asymmetric();
    lemma_one_ascending_order(names_in_order(names), s, name_before());
}

/// `names_in_order` enumerates every finite set of names.
pub proof fn lemma_names_in_order_enumerates(names: Set<Seq<char>>)
    requires
        names.finite(),
    ensures
        ascending(names_in_order(names), name_before()),
        names_in_order(names).to_set() == names,
{
    assert forall|a: Seq<char>, b: Seq<char>| a == b || #[trigger] name_before()(a, b)
        || name_before()(b, a) by {
        lemma_text_order_total(a, b);
    }
    assert forall|a: Seq<char>, b: Seq<char>, c: Seq<char>| #[trigger]
        name_before()(a, b) && #[trigger] name_before()(b, c) implies name_before()(a, c) by {
        lemma_text_order_transitive(a, b, c);
    }
    let _s = lemma_some_ascending_order(names, name_before());
}

proof fn lemma_name_order_asymmetric()
    ensures
        forall|a: Seq<char>, b: Seq<char>| #[trigger]
            name_before()(a, b) ==> !name_before()(b, a),
{
    assert forall|a: Seq<char>, b: Seq<char>| #[trigger] name_before()(a, b) implies !name_before()(
        b,
        a,
    ) by {
        lemma_text_order_asymmetric(a, b);
    }
}

/// The views of a list of strings.
pub open spec fn texts(list: Seq<String>) -> Seq<Seq<char>> {
    list.map_values(|s: String| s@)
}

/// Each name with its address, if it has been resolved; in the order of the
/// names.
pub struct ConfigAddrs {
    pub entries: Vec<(String, Option<SocketAddr>)>,
}

impl View for ConfigAddrs {
    type V = Map<Seq<char>, Option<SocketAddr>>;

    open spec fn view(&self) -> Map<Seq<char>, Option<SocketAddr>> {
        Map::new(
            |name: Seq<char>| self.names().contains(name),
            |name: Seq<char>| self.entries@[self.names().index_of(name)].1,
        )
    }
}

impl ConfigAddrs {
    /// The names, as they are stored.
    pub open spec fn names(&self) -> Seq<Seq<char>> {
        self.entries@.map_values(|e: (String, Option<SocketAddr>)| e.0@)
    }

    /// The names are stored in their order, each once.
    pub open spec fn wf(&self) -> bool {
        ascending(self.names(), name_before())
    }

    /// What the map holds under the name that is stored at `i`.
    pub proof fn lemma_entry(&self, i: int)
        requires
            self.wf(),
            0 <= i < self.entries@.len(),
        ensures
            self@.contains_key(self.names()[i]),
            self@[self.names()[i]] == self.entries@[i].1,
    {
        self.lemma_place(i);
    }

    /// The map is finite.
    pub proof fn lemma_finite(&self)
        ensures
            self@.dom().finite(),
            self@.dom() == self.names().to_set(),
    {
        assert(self@.dom() =~= self.names().to_set());
        vstd::seq_lib::seq_to_set_is_finite(self.names());
    }

    pub fn new() -> (r: Self)
        ensures
            r.wf(),
            r@ == Map::<Seq<char>, Option<SocketAddr>>::empty(),
    {
        let r = ConfigAddrs { entries: Vec::new() };
        assert(r@ =~= Map::<Seq<char>, Option<SocketAddr>>::empty());
        r
    }

    /// Where `name` is stored, or would be, and whether it is there.
    fn locate(&self, name: &str) -> (r: (usize, bool))
        requires
            self.wf(),
        ensures
            r.0 <= self.entries@.len(),
            forall|k: int| 0 <= k < r.0 ==> text_before(#[trigger] self.names()[k], name@),
            r.1 ==> r.0 < self.entries@.len() && self.names()[r.0 as int] == name@,
            !r.1 ==> forall|k: int|
                r.0 <= k < self.entries@.len() ==> text_before(name@, #[trigger] self.names()[k]),
            r.1 == self@.contains_key(name@),
    {
        let mut i: usize = 0;
        while i < self.entries.len()
            invariant
                self.wf(),
                i <= self.entries@.len(),
                forall|k: int| 0 <= k < i ==> text_before(#[trigger] self.names()[k], name@),
            decreases self.entries@.len() - i,
        {
            match sorts(self.entries[i].0.as_str(), name) {
                Sorts::Before => {},
                Sorts::Same => {
                    proof {
                        assert(self.names()[i as int] == name@);
                    }
                    return (i, true);
                },
                Sorts::After => {
                    proof {
                        let names = self.names();
                        assert(text_before(name@, names[i as int]));
                        assert forall|k: int| i <= k < names.len() implies text_before(
                            name@,
                            #[trigger] names[k],
                        ) by {
                            if k > i {
                                assert(name_before()(names[i as int], names[k]));
                                lemma_text_order_transitive(name@, names[i as int], names[k]);
                            }
                        }
                        self.lemma_absent(name@, i as int);
                    }
                    return (i, false);
                },
            }
            i = i + 1;
        }
        proof {
            self.lemma_absent(name@, i as int);
        }
        (i, false)
    }

    /// A name that would go between the names before and after `at` is not
    /// there.
    proof fn lemma_absent(&self, name: Seq<char>, at: int)
        requires
            forall|k: int| 0 <= k < at ==> text_before(#[trigger] self.names()[k], name),
            forall|k: int|
                at <= k < self.entries@.len() ==> text_before(name, #[trigger] self.names()[k]),
        ensures
            !self@.contains_key(name),
    {
        if self.names().contains(name) {
            let k = self.names().index_of(name);
            lemma_text_order_asymmetric(name, self.names()[k]);
        }
    }

    /// The address of a name, if the name is there.
    pub fn get(&self, name: &str) -> (r: Option<Option<SocketAddr>>)
        requires
            self.wf(),
        ensures
            r == (if self@.contains_key(name@) {
                Some(self@[name@])
            } else {
                None
            }),
    {
        let (i, found) = self.locate(name);
        if found {
            proof {
                self.lemma_entry(i as int);
            }
            Some(self.entries[i].1)
        } else {
            None
        }
    }

    /// Puts `value` under `name`, in place of what was there.
    pub fn insert(&mut self, name: String, value: Option<SocketAddr>)
        requires
            old(self).wf(),
        ensures
            final(self).wf(),
            final(self)@ == old(self)@.insert(name@, value),
    {
        let (i, found) = self.locate(name.as_str());
        let ghost before = *self;
        let ghost key = name@;
        let ghost at = i as int;
        if found {
            self.entries[i] = (name, value);
            assert(self.names() =~= before.names());
        } else {
            self.entries.insert(i, (name, value));
            assert(self.names() =~= before.names().insert(at, key));
        }
        proof {
            let names = self.names();
            assert forall|j: int, k: int| 0 <= j < k < names.len() implies name_before()(
                #[trigger] names[j],
                #[trigger] names[k],
            ) by {
                if !found {
                    let p = if j < at { j } else { j - 1 };
                    let q = if k < at { k } else { k - 1 };
                    if j == at {
                        assert(text_before(key, before.names()[q]));
                    } else if k == at {
                        assert(text_before(before.names()[p], key));
                    } else {
                        assert(name_before()(before.names()[p], before.names()[q]));
                    }
                } else {
                    assert(name_before()(before.names()[j], before.names()[k]));
                }
            }
            self.lemma_entry(at);
            assert forall|n: Seq<char>| #[trigger] self@.contains_key(n) <==> before@.insert(
                key,
                value,
            ).contains_key(n) by {
                if names.contains(n) {
                    let k = names.index_of(n);
                    if k != at {
                        let p = if found || k < at { k } else { k - 1 };
                        assert(before.names()[p] == n);
                    }
                }
                if before.names().contains(n) {
                    let k = before.names().index_of(n);
                    let p = if found || k < at { k } else { k + 1 };
                    assert(names[p] == n);
                }
                assert(names[at] == key);
            }
            assert forall|n: Seq<char>| before@.insert(key, value).contains_key(n) implies (
            #[trigger] self@[n]) == before@.insert(key, value)[n] by {
                assert(self@.contains_key(n));
                let k = names.index_of(n);
                self.lemma_entry(k);
                if n != key {
                    let p = if found || k < at { k } else { k - 1 };
                    assert(before.names()[p] == n);
                    before.lemma_entry(p);
                } else {
                    lemma_name_order_asymmetric();
                    if k < at {
                        assert(name_before()(names[k], names[at]));
                    } else if at < k {
                        assert(name_before()(names[at], names[k]));
                    }
                }
            }
            assert(self@ =~= before@.insert(key, value));
        }
    }

    /// Adds `name`, not yet resolved, unless it is there.
    pub fn add(&mut self, name: String)
        requires
            old(self).wf(),
        ensures
            final(self).wf(),
            final(self)@ == (if old(self)@.contains_key(name@) {
                old(self)@
            } else {
                old(self)@.insert(name@, None)
            }),
    {
        let (_i, found) = self.locate(name.as_str());
        if !found {
            self.insert(name, None);
        }
    }

    /// Takes `name` out and gives what was under it.
    pub fn remove(&mut self, name: &str) -> (r: Option<Option<SocketAddr>>)
        requires
            old(self).wf(),
        ensures
            final(self).wf(),
            final(self)@ == old(self)@.remove(name@),
            r == (if old(self)@.contains_key(name@) {
                Some(old(self)@[name@])
            } else {
                None
            }),
    {
        let (i, found) = self.locate(name);
        let ghost before = *self;
        let ghost at = i as int;
        if !found {
            assert(self@ =~= before@.remove(name@));
            return None;
        }
        proof {
            before.lemma_entry(at);
        }
        let (_name, value) = self.entries.remove(i);
        proof {
            let names = self.names();
            assert(names =~= before.names().remove(at));
            assert forall|j: int, k: int| 0 <= j < k < names.len() implies name_before()(
                #[trigger] names[j],
                #[trigger] names[k],
            ) by {
                let p = if j < at { j } else { j + 1 };
                let q = if k < at { k } else { k + 1 };
                assert(name_before()(before.names()[p], before.names()[q]));
            }
            lemma_name_order_asymmetric();
            assert forall|n: Seq<char>| #[trigger] self@.contains_key(n) <==> before@.remove(
                name@,
            ).contains_key(n) by {
                if names.contains(n) {
                    let k = names.index_of(n);
                    let p = if k < at { k } else { k + 1 };
                    assert(before.names()[p] == n);
                    if p < at {
                        assert(name_before()(before.names()[p], before.names()[at]));
                    } else {
                        assert(name_before()(before.names()[at], before.names()[p]));
                    }
                }
                if before.names().contains(n) && n != name@ {
                    let k = before.names().index_of(n);
                    let p = if k < at { k } else { k - 1 };
                    assert(names[p] == n);
                }
            }
            assert forall|n: Seq<char>| before@.remove(name@).contains_key(n) implies (
            #[trigger] self@[n]) == before@.remove(name@)[n] by {
                assert(self@.contains_key(n));
                let k = names.index_of(n);
                self.lemma_entry(k);
                let p = if k < at { k } else { k + 1 };
                assert(before.names()[p] == n);
                before.lemma_entry(p);
            }
            assert(self@ =~= before@.remove(name@));
        }
        Some(value)
    }

    /// The names at the places that `wanted` marks, in their order.
    fn select(&self, wanted: &Vec<bool>) -> (r: Vec<String>)
        requires
            self.wf(),
            wanted@.len() == self.entries@.len(),
        ensures
            ascending(texts(r@), name_before()),
            forall|name: Seq<char>| #[trigger]
                texts(r@).contains(name) <==> self.names().contains(name)
                    && wanted@[self.names().index_of(name)],
    {
        let mut r: Vec<String> = Vec::new();
        let ghost mut origin: Seq<int> = Seq::empty();
        let mut i: usize = 0;
        while i < self.entries.len()
            invariant
                self.wf(),
                wanted@.len() == self.entries@.len(),
                i <= self.entries@.len(),
                origin.len() == r@.len(),
                forall|k: int|
                    0 <= k < origin.len() ==> 0 <= #[trigger] origin[k] < i && r@[k]@
                        == self.names()[origin[k]] && wanted@[origin[k]],
                forall|j: int, k: int| 0 <= j < k < origin.len() ==> origin[j] < origin[k],
                forall|j: int|
                    0 <= j < i && wanted@[j] ==> texts(r@).contains(#[trigger] self.names()[j]),
            decreases self.entries@.len() - i,
        {
            let ghost so_far = texts(r@);
            if wanted[i] {
                r.push(self.entries[i].0.clone());
                proof {
                    origin = origin.push(i as int);
                    let now = texts(r@);
                    assert(now =~= so_far.push(self.names()[i as int]));
                    assert(now[now.len() - 1] == self.names()[i as int]);
                    assert forall|j: int| 0 <= j < i && wanted@[j] implies now.contains(
                        #[trigger] self.names()[j],
                    ) by {
                        let k = so_far.index_of(self.names()[j]);
                        assert(now[k] == self.names()[j]);
                    }
                }
            }
            i = i + 1;
        }
        proof {
            let list = texts(r@);
            assert forall|j: int, k: int| 0 <= j < k < list.len() implies name_before()(
                #[trigger] list[j],
                #[trigger] list[k],
            ) by {
                assert(name_before()(self.names()[origin[j]], self.names()[origin[k]]));
            }
            assert forall|name: Seq<char>| #[trigger]
                list.contains(name) implies self.names().contains(name)
                && wanted@[self.names().index_of(name)] by {
                let k = list.index_of(name);
                self.lemma_place(origin[k]);
            }
        }
        r
    }

    /// A name is found where it is stored.
    proof fn lemma_place(&self, i: int)
        requires
            self.wf(),
            0 <= i < self.entries@.len(),
        ensures
            self.names().contains(self.names()[i]),
            self.names().index_of(self.names()[i]) == i,
    {
        lemma_name_order_asymmetric();
        let names = self.names();
        assert(names.contains(names[i]));
        let j = names.index_of(names[i]);
        if j < i {
            assert(name_before()(names[j], names[i]));
        } else if i < j {
            assert(name_before()(names[i], names[j]));
        }
    }

    /// The names that have not been resolved, in their order.
    pub fn untranslated(&self) -> (r: Vec<String>)
        requires
            self.wf(),
        ensures
            texts(r@) == names_in_order(unresolved(self@)),
    {
        let mut wanted: Vec<bool> = Vec::new();
        let mut i: usize = 0;
        while i < self.entries.len()
            invariant
                i <= self.entries@.len(),
                wanted@.len() == i,
                forall|j: int| 0 <= j < i ==> #[trigger] wanted@[j] == (self.entries@[j].1 is None),
            decreases self.entries@.len() - i,
        {
            wanted.push(self.entries[i].1.is_none());
            i = i + 1;
        }
        let r = self.select(&wanted);
        proof {
            assert(texts(r@).to_set() =~= unresolved(self@));
            lemma_names_in_order(texts(r@), unresolved(self@));
        }
        r
    }

    /// The names that are not among `kept`, in their order.
    pub fn names_outside(&self, kept: &Vec<String>) -> (r: Vec<String>)
        requires
            self.wf(),
        ensures
            texts(r@) == names_in_order(self@.dom().difference(texts(kept@).to_set())),
            ascending(texts(r@), name_before()),
            texts(r@).to_set() == self@.dom().difference(texts(kept@).to_set()),
    {
        let mut wanted: Vec<bool> = Vec::new();
        let mut i: usize = 0;
        while i < self.entries.len()
            invariant
                i <= self.entries@.len(),
                wanted@.len() == i,
                forall|j: int|
                    0 <= j < i ==> #[trigger] wanted@[j] == !texts(kept@).contains(self.names()[j]),
            decreases self.entries@.len() - i,
        {
            let listed = is_listed(kept, self.entries[i].0.as_str());
            wanted.push(!listed);
            i = i + 1;
        }
        let r = self.select(&wanted);
        proof {
            let rest = self@.dom().difference(texts(kept@).to_set());
            assert(texts(r@).to_set() =~= rest);
            lemma_names_in_order(texts(r@), rest);
        }
        r
    }
}

/// The names that have no address.
pub open spec fn unresolved(config: Map<Seq<char>, Option<SocketAddr>>) -> Set<Seq<char>> {
    config.dom().filter(|name: Seq<char>| config[name] is None)
}

/// Whether `name` is in `list`.
fn is_listed(list: &Vec<String>, name: &str) -> (r: bool)
    ensures
        r == texts(list@).contains(name@),
{
    let mut i: usize = 0;
    while i < list.len()
        invariant
            i <= list@.len(),
            forall|k: int| 0 <= k < i ==> #[trigger] texts(list@)[k] != name@,
        decreases list@.len() - i,
    {
        if let Sorts::Same = sorts(list[i].as_str(), name) {
            assert(texts(list@)[i as int] == name@);
            return true;
        }
        i = i + 1;
    }
    false
}

} // verus!
