//! Rounds of dialing.
use vstd::prelude::*;

use crate::action::{asked, Action};
use crate::chance::{lemma_reordered, shuffle};
use crate::config_addrs::{names_in_order, texts, unresolved};
use crate::fnv_map;
use crate::manager::{lemma_sessions, NodesManager};
use crate::state::{is_order, ManagerState};
use crate::types::{
    same_socket, NodeSource, NodeStatus, SocketAddr, DIALING_SCORE, FULL_SCORE,
    KEEP_ON_LINE_SCORE, MIN_DIALING_SCORE,
};

verus! {

/// As many addresses are passed over as cannot be dialed before the first one
/// that can.
pub proof fn lemma_passed_over(s: ManagerState, order: Seq<SocketAddr>, n: int)
    requires
        0 <= n <= order.len(),
        forall|k: int| 0 <= k < n ==> !s.dialable(#[trigger] order[k]),
        n < order.len() ==> s.dialable(order[n]),
    ensures
        s.passed_over(order) == n,
    decreases n,
{
    if n > 0 {
        let rest = order.drop_first();
        assert(!s.dialable(order[0]));
        assert forall|k: int| 0 <= k < n - 1 implies !s.dialable(#[trigger] rest[k]) by {
            assert(rest[k] == order[k + 1]);
        }
        lemma_passed_over(s, rest, n - 1);
    }
}

impl NodesManager {
    /// The configured peers whose names are to be looked up before the next
    /// round.
    pub fn names_to_translate(&self) -> (r: Vec<String>)
        requires
            self.wf(),
        ensures
            texts(r@) == self@.to_translate(),
    {
        if self.dialing_node.is_some() {
            let r: Vec<String> = Vec::new();
            assert(texts(r@) =~= self@.to_translate());
            r
        } else {
            self.config_addrs.untranslated()
        }
    }

    /// Takes in the addresses of the configured peers that have none yet,
    /// where the lookups of their names found some.
    pub fn translate_address(&mut self, answers: &Vec<Option<SocketAddr>>)
        requires
            old(self).wf(),
            answers@.len() == names_in_order(unresolved(old(self)@.config)).len(),
        ensures
            final(self).wf(),
            final(self)@ == old(self)@.translated(
                names_in_order(unresolved(old(self)@.config)),
                answers@,
            ),
    {
        let names = self.config_addrs.untranslated();
        let ghost start = self@;
        let ghost all = texts(names@);
        let mut i: usize = 0;
        proof {
            assert(all.take(0) =~= Seq::<Seq<char>>::empty());
        }
        while i < names.len()
            invariant
                i <= names@.len(),
                all == texts(names@),
                answers@.len() == all.len(),
                self.wf(),
                self@ == start.translated(all.take(i as int), answers@.take(i as int)),
            decreases names@.len() - i,
        {
            proof {
                let next = all.take(i + 1);
                assert(next.drop_last() =~= all.take(i as int));
                assert(answers@.take(i + 1).drop_last() =~= answers@.take(i as int));
            }
            if let Some(addr) = answers[i] {
                let status = NodeStatus::new(FULL_SCORE, None, NodeSource::FromConfig);
                fnv_map::insert(&mut self.known_addrs, addr, status);
                self.config_addrs.insert(names[i].clone(), Some(addr));
            }
            assert(self@ =~= start.translated(all.take(i + 1), answers@.take(i + 1)));
            i = i + 1;
        }
        proof {
            assert(all.take(i as int) =~= all);
            assert(answers@.take(i as int) =~= answers@);
        }
    }

    /// The status after a round of an address that may not be dialed, or
    /// nothing where it may be.
    fn rest(&self, addr: SocketAddr, status: NodeStatus) -> (r: Option<NodeStatus>)
        requires
            self@.known.contains_key(addr),
            self@.known[addr] == status,
        ensures
            match r {
                Some(rested) => !self@.dialable(addr) && rested == self@.rested(addr),
                None => self@.dialable(addr),
            },
    {
        if status.session_id.is_some() {
            let score: i32 = if status.score > FULL_SCORE - KEEP_ON_LINE_SCORE {
                FULL_SCORE
            } else {
                status.score + KEEP_ON_LINE_SCORE
            };
            return Some(NodeStatus::new(score, status.session_id, status.node_src));
        }
        if let Some(self_addr) = self.self_addr {
            if same_socket(addr, self_addr) {
                return Some(status);
            }
        }
        if status.score < MIN_DIALING_SCORE {
            let sugar: i32 = if status.node_src == NodeSource::FromConfig {
                2
            } else {
                1
            };
            return Some(
                NodeStatus::new(status.score + sugar, status.session_id, status.node_src),
            );
        }
        None
    }

    /// A round that dials the first address of the given order that may be
    /// dialed, unless there are as many sessions as there may be. All known
    /// addresses that may not be dialed rest.
    pub fn dial_round(&mut self, order: &Vec<SocketAddr>) -> (r: Vec<Action>)
        requires
            old(self).wf(),
            is_order(order@, old(self)@.known),
        ensures
            final(self).wf(),
            final(self)@ == old(self)@.round_made(order@),
            asked(r@) == old(self)@.round_actions(order@),
    {
        let ghost s = self@;
        let mut i: usize = 0;
        let mut first: Option<usize> = None;
        while i < order.len()
            invariant
                i <= order@.len(),
                s == old(self)@,
                is_order(order@, s.known),
                self.config_addrs.wf(),
                match first {
                    Some(n) => n < i && s.dialable(order@[n as int]) && forall|k: int|
                        0 <= k < n ==> !s.dialable(#[trigger] order@[k]),
                    None => forall|k: int| 0 <= k < i ==> !s.dialable(#[trigger] order@[k]),
                },
                self@ == (ManagerState { known: self@.known, ..s }),
                self@.known.dom() == s.known.dom(),
                forall|k: int|
                    0 <= k < i ==> self@.known[#[trigger] order@[k]] == s.after_round(order@[k]),
                forall|k: int|
                    i <= k < order@.len() ==> self@.known[#[trigger] order@[k]]
                        == s.known[order@[k]],
            decreases order@.len() - i,
        {
            let addr = order[i];
            proof {
                assert(order@.to_set().contains(order@[i as int]));
            }
            if let Some(status) = fnv_map::get(&self.known_addrs, addr) {
                match self.rest(addr, status) {
                    Some(rested) => {
                        fnv_map::insert(&mut self.known_addrs, addr, rested);
                        assert(self@.known.dom() =~= s.known.dom());
                    },
                    None => {
                        if first.is_none() {
                            first = Some(i);
                        }
                    },
                }
            }
            i = i + 1;
        }
        proof {
            let n = match first {
                Some(n) => n as int,
                None => order@.len() as int,
            };
            lemma_passed_over(s, order@, n);
            let made = s.round_made(order@);
            assert forall|addr: SocketAddr| s.known.contains_key(addr) implies (
            #[trigger] self@.known[addr]) == made.known[addr] by {
                assert(order@.to_set().contains(addr));
                let k = order@.index_of(addr);
                assert(self@.known[order@[k]] == s.after_round(order@[k]));
            }
            assert(self@.known =~= made.known);
            assert(self@.inv());
            lemma_sessions(self.connected_addrs@, 0, arbitrary());
        }
        let mut r: Vec<Action> = Vec::new();
        if self.service_ctrl && self.connected_addrs.len() < self.max_connects {
            if let Some(n) = first {
                self.dialing_node = Some(order[n]);
                r.push(Action::Dial(order[n]));
            }
        }
        proof {
            assert(asked(r@) =~= s.round_actions(order@));
            assert(self@ =~= s.round_made(order@));
        }
        r
    }

    /// Makes a round in which the known addresses stand in a random order,
    /// unless a dial is under way. `answers` holds what the lookups of
    /// [`Self::names_to_translate`] found.
    pub fn dial_nodes(&mut self, answers: &Vec<Option<SocketAddr>>) -> (r: Vec<Action>)
        requires
            old(self).wf(),
            answers@.len() == old(self)@.to_translate().len(),
        ensures
            final(self).wf(),
            match old(self)@.ready_for_round(answers@) {
                Some(s) => exists|order: Seq<SocketAddr>|
                    is_order(order, s.known) && final(self)@ == #[trigger] s.round_made(order)
                        && asked(r@) == s.round_actions(order),
                None => final(self)@ == old(self)@ && r@.len() == 0,
            },
    {
        if self.dialing_node.is_some() {
            return Vec::new();
        }
        self.translate_address(answers);
        let mut order = fnv_map::keys(&self.known_addrs);
        let ghost listed = order@;
        shuffle(&mut order);
        proof {
            lemma_reordered(listed, order@);
            assert(is_order(order@, self@.known));
        }
        let ghost s = self@;
        let r = self.dial_round(&order);
        assert(self@ == s.round_made(order@));
        r
    }

    /// The network layer was told to dial `addr`, and took the dial or not.
    pub fn dialed(&mut self, addr: SocketAddr, taken: bool)
        requires
            old(self).wf(),
            taken ==> old(self)@.bears(addr, -DIALING_SCORE),
        ensures
            final(self).wf(),
            final(self)@ == (if taken {
                old(self)@.dial_taken(addr)
            } else {
                old(self)@
            }),
    {
        if taken {
            if let Some(status) = fnv_map::get(&self.known_addrs, addr) {
                let paid = NodeStatus::new(
                    status.score - DIALING_SCORE,
                    status.session_id,
                    status.node_src,
                );
                fnv_map::insert(&mut self.known_addrs, addr, paid);
            }
        }
    }
}

} // verus!
