//! Addresses: how they become known, are handed out and are dropped.
use fnv::FnvHashMap;
use vstd::prelude::*;
use vstd::std_specs::iter::IteratorSpec;

use crate::action::{asked, tell, Action};
use crate::chance::{lemma_reordered, shuffle};
use crate::config::{configured_names, names_of_peers, NetConfig};
use crate::config_addrs::{name_before, texts};
use crate::fnv_map;
use crate::manager::{lemma_sessions, NodesManager};
use crate::state::is_order;
use crate::text::{lemma_text_order_asymmetric, sorts, Sorts};
use crate::types::{
    Address, IpAddr, NodeSource, NodeStatus, SessionId, SocketAddr, DEFAULT_MAX_KNOWN_ADDRS,
    FULL_SCORE,
};

verus! {

/// An address was found.
pub struct AddNodeReq {
    pub addr: SocketAddr,
    pub source: NodeSource,
}

impl AddNodeReq {
    pub fn new(addr: SocketAddr, source: NodeSource) -> (r: Self)
        ensures
            r == (AddNodeReq { addr, source }),
    {
        AddNodeReq { addr, source }
    }

    /// Makes the address known, unless it is or too many are.
    pub fn handle(self, service: &mut NodesManager)
        requires
            old(service).wf(),
        ensures
            final(service).wf(),
            final(service)@ == old(service)@.node_added(self.addr, self.source),
    {
        if fnv_map::len(&service.known_addrs) > DEFAULT_MAX_KNOWN_ADDRS {
            return;
        }
        if fnv_map::get(&service.known_addrs, self.addr).is_none() {
            let status = NodeStatus::new(FULL_SCORE, None, self.source);
            fnv_map::insert(&mut service.known_addrs, self.addr, status);
        }
    }
}

/// Some known addresses are asked for.
pub struct GetRandomNodesReq {
    pub num: usize,
}

impl GetRandomNodesReq {
    pub fn new(num: usize) -> (r: Self)
        ensures
            r == (GetRandomNodesReq { num }),
    {
        GetRandomNodesReq { num }
    }

    /// The first addresses of a list, as many as are asked for.
    pub fn first_of(self, addrs: Vec<SocketAddr>) -> (r: Vec<SocketAddr>)
        ensures
            r@ == addrs@.take(
                if self.num <= addrs@.len() {
                    self.num as int
                } else {
                    addrs@.len() as int
                },
            ),
    {
        let mut r = addrs;
        r.truncate(self.num);
        assert(r@ =~= addrs@.take(
            if self.num <= addrs@.len() {
                self.num as int
            } else {
                addrs@.len() as int
            },
        ));
        r
    }

    /// The first known addresses of a random order, as many as are asked for.
    pub fn handle(self, service: &NodesManager) -> (r: Vec<SocketAddr>)
        ensures
            exists|order: Seq<SocketAddr>| #[trigger]
                is_order(order, service@.known) && r@ == order.take(
                    if self.num <= order.len() {
                        self.num as int
                    } else {
                        order.len() as int
                    },
                ),
    {
        let mut addrs = fnv_map::keys(&service.known_addrs);
        let ghost listed = addrs@;
        shuffle(&mut addrs);
        proof {
            lemma_reordered(listed, addrs@);
            assert(is_order(addrs@, service@.known));
        }
        self.first_of(addrs)
    }
}

/// The number of open sessions is asked for.
pub struct GetPeerCountReq {}

impl GetPeerCountReq {
    pub fn new() -> (r: Self)
        ensures
            r == (GetPeerCountReq {  }),
    {
        GetPeerCountReq {  }
    }

    pub fn handle(self, service: &NodesManager) -> (r: usize)
        ensures
            r == service@.connected.len(),
    {
        proof {
            lemma_sessions(service.connected_addrs@, 0, arbitrary());
        }
        service.connected_addrs.len()
    }
}

/// The addresses of the peers are asked for.
pub struct GetPeersInfoReq {}

impl GetPeersInfoReq {
    pub fn new() -> (r: Self)
        ensures
            r == (GetPeersInfoReq {  }),
    {
        GetPeersInfoReq {  }
    }

    /// The accounts of the peers with the IP addresses of their sessions.
    pub fn handle(self, service: &NodesManager) -> (r: FnvHashMap<Address, IpAddr>)
        ensures
            r@ == service@.peers_info(),
    {
        let mut peers: FnvHashMap<Address, IpAddr> = FnvHashMap::default();
        let iter = service.connected_peer_keys.iter();
        let ghost items = iter.remaining();
        let ghost keys = items.map_values(|kv: (&Address, &SessionId)| *kv.0);
        let ghost info = service@.peers_info();
        proof {
            assert forall|k: Address| #[trigger] service@.peers.contains_key(
                k,
            ) implies keys.contains(k) by {
                assert(items.contains((&k, &service@.peers[k])));
                let i = items.index_of((&k, &service@.peers[k]));
                assert(keys[i] == k);
            }
        }
        for (key, value) in it: iter
            invariant
                it.seq() == items,
                keys == items.map_values(|kv: (&Address, &SessionId)| *kv.0),
                info == service@.peers_info(),
                forall|i: int|
                    0 <= i < items.len() ==> service@.peers.contains_key(*(#[trigger] items[i]).0)
                        && service@.peers[*items[i].0] == *items[i].1,
                forall|k: Address| #[trigger]
                    peers@.contains_key(k) <==> info.contains_key(k) && keys.take(
                        it.index() as int,
                    ).contains(k),
                forall|k: Address| #[trigger] peers@.contains_key(k) ==> peers@[k] == info[k],
        {
            let ghost at = it.index() as int;
            let ghost before = peers@;
            proof {
                assert(keys[at] == *key);
                assert(keys.take(at + 1) =~= keys.take(at).push(*key));
                assert forall|k: Address| keys.take(at + 1).contains(k) <==> keys.take(
                    at,
                ).contains(k) || k == *key by {
                    if k == *key {
                        assert(keys.take(at + 1)[at] == k);
                    }
                    if keys.take(at).contains(k) {
                        let i = keys.take(at).index_of(k);
                        assert(keys.take(at + 1)[i] == k);
                    }
                }
            }
            if let Some(session) = service.connected_addrs.get(value) {
                fnv_map::insert(&mut peers, *key, (session.conn_addr.0, session.conn_addr.1));
            }
            proof {
                assert(service@.peers[*items[at].0] == *items[at].1);
                assert(info.contains_key(*key) <==> service.connected_addrs@.contains_key(*value));
                assert forall|k: Address| #[trigger] peers@.contains_key(k) <==> info.contains_key(
                    k,
                ) && keys.take(at + 1).contains(k) by {
                    assert(before.contains_key(k) <==> info.contains_key(k) && keys.take(
                        at,
                    ).contains(k));
                }
            }
        }
        proof {
            assert(keys.take(keys.len() as int) =~= keys);
            assert(peers@ =~= info);
        }
        peers
    }
}

/// The list of configured peers was replaced.
pub struct ModifiedConfigPeersReq {
    pub peers: Vec<String>,
}

impl ModifiedConfigPeersReq {
    pub fn new(peers: Vec<String>) -> (r: Self)
        ensures
            r == (ModifiedConfigPeersReq { peers }),
    {
        ModifiedConfigPeersReq { peers }
    }

    /// Drops the peers that the list leaves out, closes their sessions, and
    /// adds those that are new.
    pub fn handle(self, service: &mut NodesManager) -> (r: Vec<Action>)
        requires
            old(service).wf(),
        ensures
            final(service).wf(),
            final(service)@ == old(service)@.config_modified(texts(self.peers@)),
            asked(r@) == old(service)@.peers_dropped_actions(
                old(service)@.left_out(texts(self.peers@)),
            ),
    {
        let ghost s = service@;
        let ghost names = texts(self.peers@);
        let dropped = service.config_addrs.names_outside(&self.peers);
        let ghost out = texts(dropped@);
        let mut actions: Vec<Action> = Vec::new();
        let mut i: usize = 0;
        proof {
            assert(out.take(0) =~= Seq::<Seq<char>>::empty());
            assert(asked(actions@) =~= s.peers_dropped_actions(out.take(0)));
            assert forall|k: int| 0 <= k < out.len() implies s.config.contains_key(
                #[trigger] out[k],
            ) by {
                assert(out.to_set().contains(out[k]));
            }
            assert forall|j: int, k: int| 0 <= j < k < out.len() implies out[j] != out[k] by {
                assert(name_before()(out[j], out[k]));
                lemma_text_order_asymmetric(out[j], out[k]);
            }
        }
        while i < dropped.len()
            invariant
                i <= dropped@.len(),
                out == texts(dropped@),
                service.wf(),
                service@ == s.peers_dropped(out.take(i as int)),
                asked(actions@) == s.peers_dropped_actions(out.take(i as int)),
                forall|k: int|
                    i <= k < out.len() ==> service@.config.contains_key(#[trigger] out[k]),
                forall|j: int, k: int| 0 <= j < k < out.len() ==> out[j] != out[k],
            decreases dropped@.len() - i,
        {
            proof {
                assert(out.take(i + 1).drop_last() =~= out.take(i as int));
            }
            Self::drop_peer(dropped[i].as_str(), service, &mut actions);
            proof {
                assert(service@ =~= s.peers_dropped(out.take(i + 1)));
                assert(asked(actions@) =~= s.peers_dropped_actions(out.take(i + 1)));
            }
            i = i + 1;
        }
        let ghost t = service@;
        let mut j: usize = 0;
        proof {
            assert(out.take(i as int) =~= out);
            assert(service@ =~= t.peers_named(names.take(0)));
        }
        while j < self.peers.len()
            invariant
                j <= self.peers@.len(),
                names == texts(self.peers@),
                service.wf(),
                service@ == t.peers_named(names.take(j as int)),
            decreases self.peers@.len() - j,
        {
            service.config_addrs.add(self.peers[j].clone());
            proof {
                let next = names.take(j + 1);
                assert(next =~= names.take(j as int).push(names[j as int]));
                assert forall|name: Seq<char>| next.contains(name) <==> names.take(
                    j as int,
                ).contains(name) || name == names[j as int] by {
                    if name == names[j as int] {
                        assert(next[j as int] == name);
                    }
                    if names.take(j as int).contains(name) {
                        let k = names.take(j as int).index_of(name);
                        assert(next[k] == name);
                    }
                }
                assert(service@.config =~= t.peers_named(next).config);
            }
            j = j + 1;
        }
        assert(names.take(j as int) =~= names);
        actions
    }

    /// Drops one configured peer.
    fn drop_peer(name: &str, service: &mut NodesManager, actions: &mut Vec<Action>)
        requires
            old(service).wf(),
            old(service)@.config.contains_key(name@),
        ensures
            final(service).wf(),
            final(service)@ == old(service)@.peer_dropped(name@),
            asked(final(actions)@) == asked(old(actions)@) + old(service)@.dropping_actions(name@),
    {
        let addr = service.config_addrs.remove(name);
        if let Some(Some(addr)) = addr {
            if let Some(status) = fnv_map::remove(&mut service.known_addrs, addr) {
                if let Some(session_id) = status.session_id {
                    tell(actions, service.service_ctrl, Action::Disconnect(session_id));
                }
            }
        }
        proof {
            assert(service@ =~= old(service)@.peer_dropped(name@));
            assert(asked(actions@) =~= asked(old(actions)@) + old(service)@.dropping_actions(
                name@,
            ));
        }
    }

    /// The request that a new configuration calls for, if it lists peers.
    pub fn for_config(cfg: &NetConfig) -> (r: Option<Self>)
        ensures
            match r {
                Some(req) => cfg.peers is Some && texts(req.peers@) == configured_names(*cfg),
                None => cfg.peers is None,
            },
    {
        match &cfg.peers {
            Some(peers) => Some(ModifiedConfigPeersReq::new(names_of_peers(peers))),
            None => None,
        }
    }

    /// Whether a file that was created or written is the watched one.
    pub fn concerns(file_name: &str, fname: &str) -> (r: bool)
        ensures
            r == (file_name@ == fname@),
    {
        match sorts(file_name, fname) {
            Sorts::Same => true,
            _ => false,
        }
    }
}

} // verus!
