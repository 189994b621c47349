//! The model: what the manager knows, and how each event changes it.
use vstd::prelude::*;

use crate::action::{if_told, plain_unit, ActionState, UnitState};
use crate::bytes::address_of;
use crate::cert::{
    acceptance, chain_may_answer, chain_outcome, is_certificate, CertError, NodeCertState,
};
use crate::config_addrs::{names_in_order, unresolved};
use crate::init_msg::{encoded, InitState};
use crate::order::{first_peer, in_order};
use crate::text::holds_part;
use crate::topology::TopologyState;
use crate::types::{
    fresh_status, ip_of, unspecified, Address, IpAddr, NodeSource, NodeStatus, SessionId,
    SessionInfo, SessionType, SocketAddr, DEFAULT_MAX_CONNECTS, DEFAULT_MAX_KNOWN_ADDRS,
    DIALED_ERROR_SCORE, DIALING_SCORE, FULL_SCORE, KEEP_ON_LINE_SCORE, MIN_DIALING_SCORE,
    REFUSED_SCORE, SUCCESS_DIALING_SCORE, UPDATE_CRL_PERIOD,
};

verus! {

/// What is known of an open session.
#[verifier::ext_equal]
pub struct ConnectedState {
    pub conn_addr: SocketAddr,
    pub trans_addr: Option<SocketAddr>,
    pub node_crt: Option<NodeCertState>,
}

/// What the certificate of a new peer came to.
pub enum VettingState {
    /// Certificates are not in use, or there is none to check against.
    NotAsked,
    /// There was none, or it was not accepted.
    Refused,
    Accepted(NodeCertState),
}

/// Which messages are passed on by the peers, and how often.
#[verifier::ext_equal]
pub struct ConsensusState {
    pub marker: Seq<char>,
    pub ttl: u8,
}

/// Everything that the manager knows.
#[verifier::ext_equal]
pub struct ManagerState {
    /// The addresses that may be dialed.
    pub known: Map<SocketAddr, NodeStatus>,
    /// The configured peers, with the addresses of those that were resolved.
    pub config: Map<Seq<char>, Option<SocketAddr>>,
    /// The open sessions.
    pub connected: Map<SessionId, ConnectedState>,
    /// The sessions that have not yet introduced themselves.
    pub pending: Map<SessionId, SessionInfo>,
    /// The accounts of the peers, with their sessions.
    pub peers: Map<Address, SessionId>,
    pub max_connects: usize,
    /// The network layer is there to be told what to do.
    pub ctrl: bool,
    /// The account of this node.
    pub peer_key: Address,
    /// The highest number of a message from each account.
    pub gossip: Map<Address, u64>,
    pub topology: TopologyState,
    /// The number of the next message that starts from this node.
    pub self_version: u64,
    /// The address that is being dialed.
    pub dialing: Option<SocketAddr>,
    /// An address at which this node reached itself.
    pub self_addr: Option<SocketAddr>,
    pub root_crt: Option<Seq<u8>>,
    pub node_crt: Option<Seq<u8>>,
    /// Certificates are in use.
    pub enable_ca: bool,
    /// The height at which the revocation list was asked for last.
    pub get_crl_point: u64,
    pub crl: Seq<Address>,
    pub consensus: ConsensusState,
}

/// A score, as far as it can be stored.
pub open spec fn fits(score: int) -> bool {
    i32::MIN <= score <= i32::MAX
}

/// The status with another score.
pub open spec fn scored(status: NodeStatus, by: int) -> NodeStatus {
    NodeStatus { score: (status.score + by) as i32, ..status }
}

/// The status of an address that `session` connects to after a dial.
pub open spec fn reached(status: NodeStatus, session: SessionId) -> NodeStatus {
    NodeStatus { session_id: Some(session), ..scored(status, SUCCESS_DIALING_SCORE as int) }
}

/// Every known address once, in some order.
pub open spec fn is_order(order: Seq<SocketAddr>, known: Map<SocketAddr, NodeStatus>) -> bool {
    order.no_duplicates() && order.to_set() == known.dom()
}

impl ManagerState {
    /// Nothing is known but the account of the node.
    pub open spec fn initial(peer_key: Address, consensus: ConsensusState) -> ManagerState {
        ManagerState {
            known: Map::empty(),
            config: Map::empty(),
            connected: Map::empty(),
            pending: Map::empty(),
            peers: Map::empty(),
            max_connects: DEFAULT_MAX_CONNECTS,
            ctrl: false,
            peer_key,
            gossip: Map::empty(),
            topology: TopologyState::initial(peer_key),
            self_version: 0,
            dialing: None,
            self_addr: None,
            root_crt: None,
            node_crt: None,
            enable_ca: false,
            get_crl_point: 0,
            crl: Seq::empty(),
            consensus,
        }
    }

    /// What always holds: only so much is known, the linked nodes are the
    /// peers and the node itself, which is not its own peer, and the flag of
    /// the topology is right.
    pub open spec fn inv(self) -> bool {
        &&& self.known.dom().finite()
        &&& self.config.dom().finite()
        &&& self.connected.dom().finite()
        &&& !self.peers.contains_key(self.peer_key)
        &&& self.topology.linked == self.peers.dom().insert(self.peer_key)
        &&& self.topology.flag_is_right()
    }

    /// An address becomes known, unless it is or too many are.
    pub open spec fn node_added(self, addr: SocketAddr, source: NodeSource) -> ManagerState {
        if self.known.len() > DEFAULT_MAX_KNOWN_ADDRS || self.known.contains_key(addr) {
            self
        } else {
            ManagerState { known: self.known.insert(addr, fresh_status(source)), ..self }
        }
    }

    /// The score of a known address can bear a change.
    pub open spec fn bears(self, addr: SocketAddr, by: int) -> bool {
        self.known.contains_key(addr) ==> fits(self.known[addr].score + by)
    }

    /// A dial failed.
    pub open spec fn dial_failed(self, addr: SocketAddr) -> ManagerState {
        ManagerState {
            known: if self.known.contains_key(addr) {
                self.known.insert(addr, scored(self.known[addr], -DIALED_ERROR_SCORE))
            } else {
                self.known
            },
            dialing: None,
            ..self
        }
    }

    /// A dial reached a node to which `session` is open already.
    pub open spec fn repeated_added(self, addr: SocketAddr, session: SessionId) -> ManagerState {
        if self.known.contains_key(addr) {
            let info = if self.connected.contains_key(session) {
                ConnectedState { trans_addr: Some(addr), ..self.connected[session] }
            } else {
                ConnectedState {
                    conn_addr: unspecified(),
                    trans_addr: Some(addr),
                    node_crt: None,
                }
            };
            ManagerState {
                known: self.known.insert(addr, reached(self.known[addr], session)),
                connected: self.connected.insert(session, info),
                dialing: None,
                ..self
            }
        } else {
            ManagerState { dialing: None, ..self }
        }
    }

    /// There are as many sessions as there may be.
    pub open spec fn full(self) -> bool {
        self.connected.len() >= self.max_connects
    }

    /// A session was opened.
    pub open spec fn session_pending(
        self,
        session: SessionId,
        addr: SocketAddr,
        ty: SessionType,
    ) -> ManagerState {
        if self.full() {
            self
        } else {
            ManagerState {
                pending: self.pending.insert(session, SessionInfo { ty, addr }),
                ..self
            }
        }
    }

    /// `session` is the one that connects to `addr`.
    pub open spec fn connects(self, addr: SocketAddr, session: SessionId) -> bool {
        self.known.contains_key(addr) && self.known[addr].session_id == Some(session)
    }

    /// An address pays for the end of a session, and is not connected.
    pub open spec fn charged(self, addr: SocketAddr) -> ManagerState {
        let status = NodeStatus {
            session_id: None,
            ..scored(self.known[addr], -REFUSED_SCORE)
        };
        ManagerState { known: self.known.insert(addr, status), ..self }
    }

    /// An address pays for the end of the session that connects to it.
    pub open spec fn status_fixed(self, addr: SocketAddr, session: SessionId) -> ManagerState {
        if self.connects(addr, session) {
            self.charged(addr)
        } else {
            self
        }
    }

    /// The end of `session` can be booked on `addr`.
    pub open spec fn can_fix(self, addr: SocketAddr, session: SessionId) -> bool {
        self.connects(addr, session) ==> fits(self.known[addr].score - REFUSED_SCORE)
    }

    /// A known address to which no session but `session` connects. Where
    /// another one does, a dial to the address reached a node that was
    /// connected already, so that the end of the dialed session refuses
    /// nothing.
    pub open spec fn refusable(self, addr: SocketAddr, session: SessionId) -> bool {
        self.known.contains_key(addr) && (self.known[addr].session_id is None
            || self.known[addr].session_id == Some(session))
    }

    /// An address that was dialed pays for the refusal of `session`.
    pub open spec fn refused(self, addr: SocketAddr, session: SessionId) -> ManagerState {
        if self.refusable(addr, session) {
            self.charged(addr)
        } else {
            self
        }
    }

    /// The refusal of `session` can be booked on `addr`.
    pub open spec fn can_refuse(self, addr: SocketAddr, session: SessionId) -> bool {
        self.refusable(addr, session) ==> fits(self.known[addr].score - REFUSED_SCORE)
    }

    /// The address under which the peer of an open session is known.
    pub open spec fn known_as(self, session: SessionId) -> SocketAddr {
        match self.connected[session].trans_addr {
            Some(addr) => addr,
            None => self.connected[session].conn_addr,
        }
    }

    /// An open session ended.
    pub open spec fn disconnected(self, session: SessionId) -> ManagerState {
        if self.connected.contains_key(session) {
            let s = self.status_fixed(self.known_as(session), session);
            let connected = self.connected.remove(session);
            match first_peer(self.peers, session) {
                Some(key) => ManagerState {
                    connected,
                    peers: s.peers.remove(key),
                    topology: s.topology.unlinked_from(key),
                    ..s
                },
                None => ManagerState { connected, ..s },
            }
        } else {
            self
        }
    }

    /// A session that had not yet introduced itself ended. One that was dialed
    /// was refused: its address pays, unless it has paid for this end.
    pub open spec fn given_up(self, session: SessionId, paid: bool) -> ManagerState {
        if self.pending.contains_key(session) {
            let info = self.pending[session];
            let pending = self.pending.remove(session);
            if info.ty == SessionType::Outbound {
                let s = if paid {
                    self
                } else {
                    self.refused(info.addr, session)
                };
                ManagerState { pending, dialing: None, ..s }
            } else {
                ManagerState { pending, ..self }
            }
        } else {
            self
        }
    }

    /// The address of a pending session pays for its end because it is also
    /// open.
    pub open spec fn pays_as_open(self, session: SessionId) -> bool {
        &&& self.connected.contains_key(session)
        &&& self.pending.contains_key(session)
        &&& self.known_as(session) == self.pending[session].addr
        &&& self.connects(self.known_as(session), session)
    }

    /// A session ended.
    pub open spec fn session_lost(self, session: SessionId) -> ManagerState {
        self.disconnected(session).given_up(session, self.pays_as_open(session))
    }

    /// The end of `session` can be booked.
    pub open spec fn can_lose(self, session: SessionId) -> bool {
        &&& self.connected.contains_key(session) ==> self.can_fix(self.known_as(session), session)
        &&& self.pending.contains_key(session) && self.pending[session].ty
            == SessionType::Outbound ==> self.can_refuse(self.pending[session].addr, session)
    }

    /// A dial that reached a known peer is booked on the address that was
    /// dialed.
    pub open spec fn repeat_booked(self, ty: SessionType, key: Address) -> ManagerState {
        if self.peers.contains_key(key) && self.books_repeat(ty) {
            let session = self.peers[key];
            let addr = self.dialing->0;
            ManagerState {
                known: self.known.insert(addr, reached(self.known[addr], session)),
                connected: if self.connected.contains_key(session) {
                    let info = self.connected[session];
                    self.connected.insert(
                        session,
                        ConnectedState { trans_addr: Some(addr), ..info },
                    )
                } else {
                    self.connected
                },
                ..self
            }
        } else {
            self
        }
    }

    /// A new session is the one that is being dialed, to a known address.
    pub open spec fn books_repeat(self, ty: SessionType) -> bool {
        self.dialing is Some && ty == SessionType::Outbound && self.known.contains_key(
            self.dialing->0,
        )
    }

    /// The address that is being dialed turned out to be this node's.
    pub open spec fn self_noted(self, key: Address) -> ManagerState {
        if self.peer_key == key && self.dialing is Some {
            ManagerState { self_addr: self.dialing, ..self }
        } else {
            self
        }
    }

    /// The peer that introduced itself is neither known already nor this node.
    pub open spec fn is_new_peer(self, key: Address) -> bool {
        !self.peers.contains_key(key) && self.peer_key != key
    }

    /// What the certificate of a new peer comes to, for each answer that the
    /// check of its signatures may give.
    pub open spec fn vetting(self, msg: InitState, answer: Option<bool>) -> VettingState {
        if !self.enable_ca {
            VettingState::NotAsked
        } else {
            match (msg.node_crt, self.root_crt) {
                (None, _) => VettingState::Refused,
                (Some(_), None) => VettingState::NotAsked,
                (Some(pem), Some(_)) => match acceptance(
                    chain_outcome(answer),
                    pem,
                    msg.peer_key,
                    self.crl,
                ) {
                    Ok(crt) => VettingState::Accepted(crt),
                    Err(_) => VettingState::Refused,
                },
            }
        }
    }

    /// `answer` is one that the check of the signatures of a new peer's
    /// certificate may give, where there is such a check.
    pub open spec fn may_answer(self, msg: InitState, answer: Option<bool>) -> bool {
        self.enable_ca && self.is_new_peer(msg.peer_key) ==> match (self.root_crt, msg.node_crt) {
            (Some(root), Some(pem)) => chain_may_answer(root, pem, answer),
            _ => true,
        }
    }

    /// A session became the one of a new peer.
    pub open spec fn peer_added(
        self,
        session: SessionId,
        ty: SessionType,
        key: Address,
        vetting: VettingState,
    ) -> ManagerState {
        let s = if self.pending.contains_key(session) {
            let addr = self.pending[session].addr;
            let node_crt = match vetting {
                VettingState::Accepted(crt) => Some(crt),
                _ => None,
            };
            let trans_addr = if self.connected.contains_key(session) {
                self.connected[session].trans_addr
            } else {
                None
            };
            ManagerState {
                pending: self.pending.remove(session),
                connected: self.connected.insert(
                    session,
                    ConnectedState { conn_addr: addr, trans_addr, node_crt },
                ),
                known: if ty == SessionType::Outbound && self.known.contains_key(addr) {
                    self.known.insert(addr, reached(self.known[addr], session))
                } else {
                    self.known
                },
                ..self
            }
        } else {
            self
        };
        ManagerState {
            peers: s.peers.insert(key, session),
            topology: s.topology.linked_to(key),
            ..s
        }
    }

    /// A dial that ended in a session is over.
    pub open spec fn dial_over(self, ty: SessionType) -> ManagerState {
        if ty == SessionType::Outbound {
            ManagerState { dialing: None, ..self }
        } else {
            self
        }
    }

    /// A session introduced itself.
    pub open spec fn introduced(
        self,
        session: SessionId,
        ty: SessionType,
        key: Address,
        vetting: VettingState,
    ) -> ManagerState {
        let s = self.repeat_booked(ty, key).self_noted(key);
        if self.is_new_peer(key) {
            s.peer_added(session, ty, key, vetting).dial_over(ty)
        } else {
            s.dial_over(ty)
        }
    }

    /// What is done about a session that introduced itself: it is closed where
    /// its peer has another one, where it leads back to this node, and where
    /// the certificate is refused.
    pub open spec fn introduced_actions(
        self,
        session: SessionId,
        key: Address,
        vetting: VettingState,
    ) -> Seq<ActionState> {
        if_told(
            self.ctrl && self.peers.contains_key(key),
            ActionState::Disconnect(session),
        ) + if_told(
            self.ctrl && self.peer_key == key,
            ActionState::Disconnect(session),
        ) + if_told(
            self.ctrl && self.is_new_peer(key) && vetting is Refused,
            ActionState::Disconnect(session),
        )
    }

    /// The scores that an introduction changes can bear it.
    pub open spec fn can_book_introduction(
        self,
        session: SessionId,
        ty: SessionType,
        key: Address,
    ) -> bool {
        if self.is_new_peer(key) {
            self.pending.contains_key(session) && ty == SessionType::Outbound ==> self.bears(
                self.pending[session].addr,
                SUCCESS_DIALING_SCORE as int,
            )
        } else {
            self.peers.contains_key(key) && self.books_repeat(ty) ==> self.bears(
                self.dialing->0,
                SUCCESS_DIALING_SCORE as int,
            )
        }
    }

    /// An introduction can be booked, and its certificate can be read.
    pub open spec fn can_introduce(
        self,
        session: SessionId,
        ty: SessionType,
        msg: InitState,
    ) -> bool {
        &&& self.can_book_introduction(session, ty, msg.peer_key)
        &&& self.is_new_peer(msg.peer_key) && self.enable_ca ==> (msg.node_crt matches Some(pem)
            ==> is_certificate(pem))
    }

    /// This node reached itself.
    pub open spec fn self_connected(self, addr: SocketAddr) -> ManagerState {
        ManagerState { self_addr: Some(addr), dialing: None, ..self }
    }

    /// The introduction of this node.
    pub open spec fn introduction(self) -> UnitState {
        plain_unit(
            "network.init"@,
            encoded(
                InitState {
                    chain_id: 0,
                    peer_key: self.peer_key,
                    node_crt: if self.enable_ca {
                        self.node_crt
                    } else {
                        None
                    },
                },
            ),
        )
    }

    /// The highest number of a message from an account that has been seen.
    pub open spec fn saved_version(self, addr: Address) -> u64 {
        if self.gossip.contains_key(addr) {
            self.gossip[addr]
        } else {
            0
        }
    }

    /// A message is passed on: it has no number, or a higher one than all
    /// before it.
    pub open spec fn is_news(self, unit: UnitState) -> bool {
        unit.version == 0 || self.saved_version(unit.addr) < unit.version
    }

    /// A message came in.
    pub open spec fn message_seen(self, unit: UnitState) -> ManagerState {
        let version = if self.is_news(unit) {
            unit.version
        } else {
            self.saved_version(unit.addr)
        };
        ManagerState { gossip: self.gossip.insert(unit.addr, version), ..self }
    }

    /// The message, as it is passed on.
    pub open spec fn relayed(self, unit: UnitState) -> UnitState {
        if self.topology.all_linked {
            UnitState { ttl: 0, ..unit }
        } else {
            unit
        }
    }

    /// A message that is news goes to all sessions but the one it came on.
    pub open spec fn relay_actions(self, unit: UnitState, session: SessionId) -> Seq<ActionState> {
        if_told(
            self.ctrl && self.is_news(unit),
            ActionState::Multicast(
                in_order(self.connected.dom().remove(session)),
                self.relayed(unit),
            ),
        )
    }

    /// A message that starts from this node.
    pub open spec fn own_unit(self, key: Seq<char>, data: Seq<u8>) -> UnitState {
        UnitState {
            key,
            data,
            addr: self.peer_key,
            version: self.self_version,
            ttl: if !self.topology.all_linked && holds_part(key, self.consensus.marker) {
                self.consensus.ttl
            } else {
                0
            },
        }
    }

    /// A message was given its number.
    pub open spec fn version_used(self) -> ManagerState {
        ManagerState { self_version: (self.self_version + 1) as u64, ..self }
    }

    /// The accounts of the peers with the addresses of their sessions.
    pub open spec fn peers_info(self) -> Map<Address, IpAddr> {
        Map::new(
            |key: Address|
                self.peers.contains_key(key) && self.connected.contains_key(self.peers[key]),
            |key: Address| ip_of(self.connected[self.peers[key]].conn_addr),
        )
    }

    /// The revocation list is asked for: more than a period has passed.
    pub open spec fn crl_due(self, height: u64) -> bool {
        self.enable_ca && height - self.get_crl_point > UPDATE_CRL_PERIOD
    }

    /// The chain grew.
    pub open spec fn block_seen(self, height: u64, validators: Seq<Seq<u8>>) -> ManagerState {
        ManagerState {
            get_crl_point: if self.crl_due(height) {
                height
            } else {
                self.get_crl_point
            },
            topology: self.topology.updated(height, accounts(validators)),
            ..self
        }
    }

    /// A block can be booked: where certificates are in use, heights do not
    /// fall below the one at which the revocation list was asked for last, and
    /// validators have account addresses.
    pub open spec fn can_see_block(self, height: u64, validators: Seq<Seq<u8>>) -> bool {
        &&& self.enable_ca ==> height >= self.get_crl_point
        &&& forall|i: int| 0 <= i < validators.len() ==> (#[trigger] validators[i]).len() == 20
    }

    /// A configured peer is dropped, and with it its address.
    pub open spec fn peer_dropped(self, name: Seq<char>) -> ManagerState {
        ManagerState {
            config: self.config.remove(name),
            known: match self.config[name] {
                Some(addr) => self.known.remove(addr),
                None => self.known,
            },
            ..self
        }
    }

    /// The session that connects to a configured peer is closed with it.
    pub open spec fn dropping_actions(self, name: Seq<char>) -> Seq<ActionState> {
        match self.config[name] {
            Some(addr) => if_told(
                self.ctrl && self.known.contains_key(addr) && self.known[addr].session_id is Some,
                ActionState::Disconnect(self.known[addr].session_id->0),
            ),
            None => Seq::empty(),
        }
    }

    /// Configured peers are dropped one after the other.
    pub open spec fn peers_dropped(self, names: Seq<Seq<char>>) -> ManagerState
        decreases names.len(),
    {
        if names.len() == 0 {
            self
        } else {
            self.peers_dropped(names.drop_last()).peer_dropped(names.last())
        }
    }

    /// What is done as configured peers are dropped one after the other.
    pub open spec fn peers_dropped_actions(self, names: Seq<Seq<char>>) -> Seq<ActionState>
        decreases names.len(),
    {
        if names.len() == 0 {
            Seq::empty()
        } else {
            self.peers_dropped_actions(names.drop_last()) + self.peers_dropped(
                names.drop_last(),
            ).dropping_actions(names.last())
        }
    }

    /// The configured peers that a new list leaves out.
    pub open spec fn left_out(self, names: Seq<Seq<char>>) -> Seq<Seq<char>> {
        names_in_order(self.config.dom().difference(names.to_set()))
    }

    /// Peers are configured that were not.
    pub open spec fn peers_named(self, names: Seq<Seq<char>>) -> ManagerState {
        ManagerState {
            config: Map::new(
                |name: Seq<char>| self.config.contains_key(name) || names.contains(name),
                |name: Seq<char>|
                    if self.config.contains_key(name) {
                        self.config[name]
                    } else {
                        None
                    },
            ),
            ..self
        }
    }

    /// The list of configured peers was replaced.
    pub open spec fn config_modified(self, names: Seq<Seq<char>>) -> ManagerState {
        self.peers_dropped(self.left_out(names)).peers_named(names)
    }

    /// The peer of an open session has a certificate for `addr`.
    pub open spec fn is_certified(self, session: SessionId, addr: Address) -> bool {
        self.connected[session].node_crt matches Some(crt) && crt.address == addr
    }

    /// The open sessions of the peers that have certificates for `addr` are
    /// closed.
    pub open spec fn closing_actions(
        self,
        sessions: Seq<SessionId>,
        addr: Address,
    ) -> Seq<ActionState>
        decreases sessions.len(),
    {
        if sessions.len() == 0 {
            Seq::empty()
        } else {
            self.closing_actions(sessions.drop_last(), addr) + if_told(
                self.ctrl && self.is_certified(sessions.last(), addr),
                ActionState::Disconnect(sessions.last()),
            )
        }
    }

    /// The open sessions of all peers with certificates for addresses on the
    /// list are closed, entry by entry.
    pub open spec fn revocation_actions(self, crl: Seq<Address>) -> Seq<ActionState>
        decreases crl.len(),
    {
        if crl.len() == 0 {
            Seq::empty()
        } else {
            self.revocation_actions(crl.drop_last()) + self.closing_actions(
                in_order(self.connected.dom()),
                crl.last(),
            )
        }
    }

    /// The open sessions whose certificates are checked again.
    pub open spec fn to_check(self) -> Seq<SessionId> {
        if self.enable_ca && self.root_crt is Some {
            in_order(
                self.connected.dom().filter(|id: SessionId| self.connected[id].node_crt is Some),
            )
        } else {
            Seq::empty()
        }
    }

    /// `outcome` is one that the check of the signatures of a connected peer's
    /// certificate may have.
    pub open spec fn may_come_to(
        self,
        session: SessionId,
        outcome: Result<bool, CertError>,
    ) -> bool {
        exists|answer: Option<bool>|
            chain_may_answer(
                self.root_crt->0,
                self.connected[session].node_crt->0.pem,
                answer,
            ) && outcome == #[trigger] chain_outcome(answer)
    }

    /// The sessions whose certificates failed the check of their signatures
    /// are closed.
    pub open spec fn expiry_actions(
        self,
        sessions: Seq<SessionId>,
        outcomes: Seq<Result<bool, CertError>>,
    ) -> Seq<ActionState>
        decreases sessions.len(),
    {
        if sessions.len() == 0 {
            Seq::empty()
        } else {
            self.expiry_actions(sessions.drop_last(), outcomes.drop_last()) + if_told(
                self.ctrl && outcomes.last() is Err,
                ActionState::Disconnect(sessions.last()),
            )
        }
    }

    /// The configured peers whose names are looked up before a round.
    pub open spec fn to_translate(self) -> Seq<Seq<char>> {
        if self.dialing is Some {
            Seq::empty()
        } else {
            names_in_order(unresolved(self.config))
        }
    }

    /// Names were looked up: those that have addresses make these known anew.
    pub open spec fn translated(
        self,
        names: Seq<Seq<char>>,
        answers: Seq<Option<SocketAddr>>,
    ) -> ManagerState
        decreases names.len(),
    {
        if names.len() == 0 {
            self
        } else {
            let s = self.translated(names.drop_last(), answers.drop_last());
            match answers.last() {
                Some(addr) => ManagerState {
                    known: s.known.insert(addr, fresh_status(NodeSource::FromConfig)),
                    config: s.config.insert(names.last(), Some(addr)),
                    ..s
                },
                None => s,
            }
        }
    }

    /// An address may be dialed: it is not connected, it is not this node's,
    /// and its score is high enough.
    pub open spec fn dialable(self, addr: SocketAddr) -> bool {
        &&& self.known[addr].session_id is None
        &&& self.self_addr != Some(addr)
        &&& self.known[addr].score >= MIN_DIALING_SCORE
    }

    /// How many addresses are passed over before one may be dialed.
    pub open spec fn passed_over(self, order: Seq<SocketAddr>) -> nat
        decreases order.len(),
    {
        if order.len() == 0 || self.dialable(order[0]) {
            0
        } else {
            1 + self.passed_over(order.drop_first())
        }
    }

    /// The status after a round of an address that may not be dialed: while it
    /// is connected its score rises to the full one, and while its score is too
    /// low it rises a little, faster where it comes from the configuration.
    pub open spec fn rested(self, addr: SocketAddr) -> NodeStatus {
        let status = self.known[addr];
        if status.session_id is Some {
            if status.score + KEEP_ON_LINE_SCORE > FULL_SCORE {
                NodeStatus { score: FULL_SCORE, ..status }
            } else {
                scored(status, KEEP_ON_LINE_SCORE as int)
            }
        } else if self.self_addr == Some(addr) {
            status
        } else {
            scored(
                status,
                if status.node_src == NodeSource::FromConfig {
                    2
                } else {
                    1
                },
            )
        }
    }

    /// The status of an address after a round.
    pub open spec fn after_round(self, addr: SocketAddr) -> NodeStatus {
        if self.dialable(addr) {
            self.known[addr]
        } else {
            self.rested(addr)
        }
    }

    /// The address that a round dials: the first of the order that may be
    /// dialed, while there may be more sessions.
    pub open spec fn dials(self, order: Seq<SocketAddr>) -> Option<SocketAddr> {
        if self.ctrl && !self.full() && self.passed_over(order) < order.len() {
            Some(order[self.passed_over(order) as int])
        } else {
            None
        }
    }

    /// A round was made: every known address that may not be dialed has
    /// rested, and one that may be is dialed.
    pub open spec fn round_made(self, order: Seq<SocketAddr>) -> ManagerState {
        ManagerState {
            known: Map::new(
                |addr: SocketAddr| self.known.contains_key(addr),
                |addr: SocketAddr| self.after_round(addr),
            ),
            dialing: match self.dials(order) {
                Some(addr) => Some(addr),
                None => self.dialing,
            },
            ..self
        }
    }

    /// What a round tells the network layer.
    pub open spec fn round_actions(self, order: Seq<SocketAddr>) -> Seq<ActionState> {
        match self.dials(order) {
            Some(addr) => seq![ActionState::Dial(addr)],
            None => Seq::empty(),
        }
    }

    /// The state in which a tick makes a round, if it does: no dial is under
    /// way.
    pub open spec fn ready_for_round(
        self,
        answers: Seq<Option<SocketAddr>>,
    ) -> Option<ManagerState> {
        if self.dialing is None {
            Some(self.translated(self.to_translate(), answers))
        } else {
            None
        }
    }

    /// The network layer took a dial: the address pays for it.
    pub open spec fn dial_taken(self, addr: SocketAddr) -> ManagerState {
        if self.known.contains_key(addr) {
            ManagerState {
                known: self.known.insert(addr, scored(self.known[addr], -DIALING_SCORE)),
                ..self
            }
        } else {
            self
        }
    }
}

/// The accounts of validators.
pub open spec fn accounts(validators: Seq<Seq<u8>>) -> Set<Address> {
    validators.map_values(|bytes: Seq<u8>| address_of(bytes)).to_set()
}

} // verus!
