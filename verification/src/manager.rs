//! The manager of the peers of this node.
use fnv::FnvHashMap;
use std::collections::BTreeMap;
use vstd::prelude::*;

use crate::cert::{Certificate, NodeCert};
use crate::config::{
    ca_enabled, configured_names, is_named, law_peer_names, names_of_peers, ConsensusRule,
    NetConfig,
};
use crate::config_addrs::{texts, ConfigAddrs};
use crate::state::{ConnectedState, ManagerState};
use crate::topology::ConsensusNodeTopology;
use crate::types::{
    Address, NodeStatus, SessionId, SessionInfo, SocketAddr, DEFAULT_MAX_CONNECTS,
};

verus! {

/// What is known of an open session.
pub struct ConnectedInfo {
    /// The address at the other end.
    pub conn_addr: SocketAddr,
    /// The address under which the peer can be dialed, where it differs.
    pub trans_addr: Option<SocketAddr>,
    pub node_crt: Option<NodeCert>,
}

impl View for ConnectedInfo {
    type V = ConnectedState;

    open spec fn view(&self) -> ConnectedState {
        ConnectedState {
            conn_addr: self.conn_addr,
            trans_addr: self.trans_addr,
            node_crt: match self.node_crt {
                Some(crt) => Some(crt@),
                None => None,
            },
        }
    }
}

impl ConnectedInfo {
    pub fn new(
        conn_addr: SocketAddr,
        trans_addr: Option<SocketAddr>,
        node_crt: Option<NodeCert>,
    ) -> (r: Self)
        ensures
            r == (ConnectedInfo { conn_addr, trans_addr, node_crt }),
    {
        ConnectedInfo { conn_addr, trans_addr, node_crt }
    }
}

/// What is known of the open sessions.
pub open spec fn sessions(m: Map<SessionId, ConnectedInfo>) -> Map<SessionId, ConnectedState> {
    m.map_values(|info: ConnectedInfo| info@)
}

/// Putting in a session and taking one out.
pub proof fn lemma_sessions(m: Map<SessionId, ConnectedInfo>, id: SessionId, info: ConnectedInfo)
    ensures
        sessions(m.insert(id, info)) == sessions(m).insert(id, info@),
        sessions(m.remove(id)) == sessions(m).remove(id),
        sessions(m).dom() == m.dom(),
{
    assert(sessions(m.insert(id, info)) =~= sessions(m).insert(id, info@));
    assert(sessions(m.remove(id)) =~= sessions(m).remove(id));
    assert(sessions(m).dom() =~= m.dom());
}

/// Everything that this node knows of its peers.
pub struct NodesManager {
    /// The addresses that may be dialed.
    pub known_addrs: FnvHashMap<SocketAddr, NodeStatus>,
    /// The configured peers.
    pub config_addrs: ConfigAddrs,
    /// The open sessions.
    pub connected_addrs: BTreeMap<SessionId, ConnectedInfo>,
    /// The sessions that have not yet introduced themselves.
    pub pending_connected_addrs: BTreeMap<SessionId, SessionInfo>,
    /// The accounts of the peers, with their sessions.
    pub connected_peer_keys: BTreeMap<Address, SessionId>,
    pub max_connects: usize,
    /// The network layer is there to be told what to do.
    pub service_ctrl: bool,
    /// The account of this node.
    pub peer_key: Address,
    /// The highest number of a message from each account.
    pub gossip_key_version: FnvHashMap<Address, u64>,
    pub consensus_topology: ConsensusNodeTopology,
    /// The number of the next message that starts from this node.
    pub self_version: u64,
    /// The address that is being dialed.
    pub dialing_node: Option<SocketAddr>,
    /// An address at which this node reached itself.
    pub self_addr: Option<SocketAddr>,
    /// The certificate that all others are checked against.
    pub root_crt: Option<Certificate>,
    /// The certificate of this node, in PEM format.
    pub node_crt: Option<Vec<u8>>,
    /// Certificates are in use.
    pub enable_ca: bool,
    /// The height at which the revocation list was asked for last.
    pub get_crl_point: u64,
    /// The certificate revocation list.
    pub crl: Vec<Address>,
    /// Which messages the peers pass on.
    pub consensus: ConsensusRule,
}

impl View for NodesManager {
    type V = ManagerState;

    open spec fn view(&self) -> ManagerState {
        ManagerState {
            known: self.known_addrs@,
            config: self.config_addrs@,
            connected: sessions(self.connected_addrs@),
            pending: self.pending_connected_addrs@,
            peers: self.connected_peer_keys@,
            max_connects: self.max_connects,
            ctrl: self.service_ctrl,
            peer_key: self.peer_key,
            gossip: self.gossip_key_version@,
            topology: self.consensus_topology@,
            self_version: self.self_version,
            dialing: self.dialing_node,
            self_addr: self.self_addr,
            root_crt: match self.root_crt {
                Some(crt) => Some(crt@),
                None => None,
            },
            node_crt: match self.node_crt {
                Some(crt) => Some(crt@),
                None => None,
            },
            enable_ca: self.enable_ca,
            get_crl_point: self.get_crl_point,
            crl: self.crl@,
            consensus: self.consensus@,
        }
    }
}

/// The certificates that a node needs where certificates are in use: the one
/// that all others are checked against, and its own in PEM format.
pub struct CaCerts {
    pub root_crt: Certificate,
    pub node_crt: Vec<u8>,
}

/// The state of a manager that was set up from a configuration.
pub open spec fn configured(
    cfg: NetConfig,
    key: Address,
    rule: ConsensusRule,
    certs: Option<CaCerts>,
) -> ManagerState {
    let names = configured_names(cfg);
    ManagerState {
        max_connects: match cfg.max_connects {
            Some(max_connects) => max_connects,
            None => DEFAULT_MAX_CONNECTS,
        },
        enable_ca: ca_enabled(cfg),
        root_crt: if ca_enabled(cfg) {
            Some(certs->0.root_crt@)
        } else {
            None
        },
        node_crt: if ca_enabled(cfg) {
            Some(certs->0.node_crt@)
        } else {
            None
        },
        config: Map::new(|name: Seq<char>| names.contains(name), |name: Seq<char>| None),
        ..ManagerState::initial(key, rule@)
    }
}

/// What is known of a manager is what it stores, field by field.
pub proof fn law_what_is_stored(m: NodesManager, id: SessionId)
    ensures
        m@.known == m.known_addrs@,
        m@.config == m.config_addrs@,
        m@.connected.contains_key(id) == m.connected_addrs@.contains_key(id),
        m.connected_addrs@.contains_key(id) ==> {
            &&& m@.connected[id].conn_addr == m.connected_addrs@[id].conn_addr
            &&& m@.connected[id].trans_addr == m.connected_addrs@[id].trans_addr
            &&& m@.connected[id].node_crt is Some == m.connected_addrs@[id].node_crt is Some
            &&& m.connected_addrs@[id].node_crt matches Some(crt)
                ==> m@.connected[id].node_crt->0.pem == crt@.pem
                && m@.connected[id].node_crt->0.address == crt@.address
        },
        m@.pending == m.pending_connected_addrs@,
        m@.peers == m.connected_peer_keys@,
        m@.max_connects == m.max_connects,
        m@.ctrl == m.service_ctrl,
        m@.peer_key == m.peer_key,
        m@.gossip == m.gossip_key_version@,
        m@.topology.linked == m.consensus_topology.linked_nodes@,
        m@.topology.validators == m.consensus_topology.validator_nodes@,
        m@.topology.all_linked == m.consensus_topology.consensus_all_linked,
        m@.topology.height == m.consensus_topology.height,
        m@.self_version == m.self_version,
        m@.dialing == m.dialing_node,
        m@.self_addr == m.self_addr,
        m@.root_crt is Some == m.root_crt is Some,
        m.root_crt matches Some(crt) ==> m@.root_crt == Some(crt@),
        m@.node_crt is Some == m.node_crt is Some,
        m.node_crt matches Some(pem) ==> m@.node_crt == Some(pem@),
        m@.enable_ca == m.enable_ca,
        m@.get_crl_point == m.get_crl_point,
        m@.crl == m.crl@,
        m@.consensus.marker == m.consensus.marker@,
        m@.consensus.ttl == m.consensus.ttl,
{
}

/// A manager that was set up from a configuration has the number of sessions
/// that this gives, or 666; it uses certificates where this says so, and has
/// them then and only then; it has exactly the peers that this names, none of
/// them with an address. Only the account is linked, and nothing else is known
/// or under way.
pub proof fn law_setup(
    cfg: NetConfig,
    key: Address,
    rule: ConsensusRule,
    certs: Option<CaCerts>,
    name: Seq<char>,
)
    requires
        cfg.enable_ca == Some(true) ==> certs is Some,
    ensures
        ({
            let s = configured(cfg, key, rule, certs);
            &&& s.max_connects == match cfg.max_connects {
                Some(n) => n,
                None => 666,
            }
            &&& s.peer_key == key
            &&& s.consensus.marker == rule.marker@
            &&& s.consensus.ttl == rule.ttl
            &&& s.enable_ca == (cfg.enable_ca == Some(true))
            &&& s.root_crt == if cfg.enable_ca == Some(true) {
                Some(certs->0.root_crt@)
            } else {
                None
            }
            &&& s.node_crt == if cfg.enable_ca == Some(true) {
                Some(certs->0.node_crt@)
            } else {
                None
            }
            &&& s.config.contains_key(name) <==> (cfg.peers matches Some(peers) && exists|i: int|
                0 <= i < peers@.len() && #[trigger] is_named(peers@[i], name))
            &&& s.config.contains_key(name) ==> s.config[name] is None
            &&& s.known.dom() == Set::<SocketAddr>::empty()
            &&& s.connected.dom() == Set::<SessionId>::empty()
            &&& s.pending.dom() == Set::<SessionId>::empty()
            &&& s.peers.dom() == Set::<Address>::empty()
            &&& s.gossip.dom() == Set::<Address>::empty()
            &&& forall|account: Address| #[trigger]
                s.topology.linked.contains(account) <==> account == key
            &&& s.topology.validators == Set::<Address>::empty()
            &&& !s.topology.all_linked
            &&& s.topology.height == 0
            &&& s.self_version == 0
            &&& s.dialing is None
            &&& s.self_addr is None
            &&& s.get_crl_point == 0
            &&& s.crl.len() == 0
            &&& !s.ctrl
        }),
{
    let s = configured(cfg, key, rule, certs);
    assert(s.known.dom() =~= Set::<SocketAddr>::empty());
    assert(s.connected.dom() =~= Set::<SessionId>::empty());
    assert(s.pending.dom() =~= Set::<SessionId>::empty());
    assert(s.peers.dom() =~= Set::<Address>::empty());
    assert(s.gossip.dom() =~= Set::<Address>::empty());
    if let Some(peers) = cfg.peers {
        law_peer_names(peers@, name);
    }
}

impl NodesManager {
    /// The configured peers are stored in order, and what always holds does.
    pub open spec fn wf(&self) -> bool {
        self.config_addrs.wf() && self@.inv()
    }

    /// A manager that knows nothing but the account of the node.
    pub fn new(peer_key: Address, consensus: ConsensusRule) -> (r: NodesManager)
        ensures
            r.wf(),
            r@ == ManagerState::initial(peer_key, consensus@),
    {
        let r = NodesManager {
            known_addrs: FnvHashMap::default(),
            config_addrs: ConfigAddrs::new(),
            connected_addrs: BTreeMap::new(),
            pending_connected_addrs: BTreeMap::new(),
            connected_peer_keys: BTreeMap::new(),
            max_connects: DEFAULT_MAX_CONNECTS,
            service_ctrl: false,
            peer_key,
            gossip_key_version: FnvHashMap::default(),
            consensus_topology: ConsensusNodeTopology::new(peer_key),
            self_version: 0,
            dialing_node: None,
            self_addr: None,
            root_crt: None,
            node_crt: None,
            enable_ca: false,
            get_crl_point: 0,
            crl: Vec::new(),
            consensus,
        };
        proof {
            assert(r@ =~= ManagerState::initial(peer_key, consensus@));
            assert(r@.topology.linked =~= r@.peers.dom().insert(peer_key));
        }
        r
    }

    /// A manager for the given account that knows the configured peers.
    pub fn from_config(
        cfg: NetConfig,
        key: Address,
        rule: ConsensusRule,
        certs: Option<CaCerts>,
    ) -> (r: Self)
        requires
            ca_enabled(cfg) ==> certs is Some,
        ensures
            r.wf(),
            r@ == configured(cfg, key, rule, certs),
    {
        let mut r = NodesManager::new(key, rule);
        r.max_connects = match cfg.max_connects {
            Some(max_connects) => max_connects,
            None => DEFAULT_MAX_CONNECTS,
        };
        r.enable_ca = cfg.uses_ca();
        if r.enable_ca {
            if let Some(certs) = certs {
                r.root_crt = Some(certs.root_crt);
                r.node_crt = Some(certs.node_crt);
            }
        }
        let ghost start = r@;
        if let Some(peers) = &cfg.peers {
            let names = names_of_peers(peers);
            let mut i: usize = 0;
            while i < names.len()
                invariant
                    i <= names@.len(),
                    r.config_addrs.wf(),
                    start.config == Map::<Seq<char>, Option<SocketAddr>>::empty(),
                    r@ == (ManagerState {
                        config: Map::new(
                            |name: Seq<char>| texts(names@).take(i as int).contains(name),
                            |name: Seq<char>| None,
                        ),
                        ..start
                    }),
                decreases names@.len() - i,
            {
                r.config_addrs.insert(names[i].clone(), None);
                proof {
                    let all = texts(names@);
                    let next = all.take(i + 1);
                    assert(next =~= all.take(i as int).push(all[i as int]));
                    assert forall|name: Seq<char>| next.contains(name) <==> all.take(
                        i as int,
                    ).contains(name) || name == all[i as int] by {
                        if name == all[i as int] {
                            assert(next[i as int] == name);
                        }
                        if all.take(i as int).contains(name) {
                            let k = all.take(i as int).index_of(name);
                            assert(next[k] == name);
                        }
                    }
                    assert(r@.config =~= Map::new(
                        |name: Seq<char>| next.contains(name),
                        |name: Seq<char>| None,
                    ));
                }
                i = i + 1;
            }
            assert(texts(names@).take(i as int) =~= configured_names(cfg));
        }
        proof {
            r.config_addrs.lemma_finite();
            assert(r@ =~= configured(cfg, key, rule, certs));
        }
        r
    }

    /// The network layer is there to be told what to do from now on.
    pub fn set_service_task_sender(&mut self)
        requires
            old(self).wf(),
        ensures
            final(self).wf(),
            final(self)@ == (ManagerState { ctrl: true, ..old(self)@ }),
    {
        self.service_ctrl = true;
    }
}

} // verus!
