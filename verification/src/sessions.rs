//! Sessions: how they are opened, introduced and lost.
use vstd::prelude::*;

use crate::action::{asked, if_told, only, tell, Action, ActionState, NetMessageUnit};
use crate::cert::{
    accept, acceptance, chain_may_answer, chain_outcome, is_certificate, Certificate, NodeCert,
};
use crate::fnv_map;
use crate::init_msg::InitMsg;
use crate::manager::{lemma_sessions, ConnectedInfo, NodesManager};
use crate::order::find_peer;
use crate::state::{reached, ConnectedState, ManagerState, VettingState};
use crate::topology::law_flag_stays_right;
use crate::types::{
    same_address, same_socket, socket_v4, Address, NodeStatus, SessionId, SessionInfo,
    SessionType, SocketAddr, DIALED_ERROR_SCORE, REFUSED_SCORE, SUCCESS_DIALING_SCORE,
};

verus! {

/// What the certificate of a new peer came to.
pub enum Vetting {
    /// Certificates are not in use, or there is none to check against.
    NotAsked,
    /// There was none, or it was not accepted.
    Refused,
    Accepted(NodeCert),
}

impl View for Vetting {
    type V = VettingState;

    open spec fn view(&self) -> VettingState {
        match self {
            Vetting::NotAsked => VettingState::NotAsked,
            Vetting::Refused => VettingState::Refused,
            Vetting::Accepted(crt) => VettingState::Accepted(crt@),
        }
    }
}

/// Books on `addr` a dial that led to `session`.
fn book_reached(service: &mut NodesManager, addr: SocketAddr, session_id: SessionId) -> (r: bool)
    requires
        old(service).wf(),
        old(service)@.bears(addr, SUCCESS_DIALING_SCORE as int),
    ensures
        final(service).wf(),
        r == old(service)@.known.contains_key(addr),
        final(service)@ == (if r {
            ManagerState {
                known: old(service)@.known.insert(
                    addr,
                    reached(old(service)@.known[addr], session_id),
                ),
                ..old(service)@
            }
        } else {
            old(service)@
        }),
        final(service).connected_addrs == old(service).connected_addrs,
{
    match fnv_map::get(&service.known_addrs, addr) {
        Some(status) => {
            let reached = NodeStatus::new(
                status.score + SUCCESS_DIALING_SCORE,
                Some(session_id),
                status.node_src,
            );
            fnv_map::insert(&mut service.known_addrs, addr, reached);
            true
        },
        None => false,
    }
}

/// Notes the address under which the peer of an open session can be dialed.
/// Says whether the session is open.
fn note_trans_addr(service: &mut NodesManager, session_id: SessionId, addr: SocketAddr) -> (r: bool)
    requires
        old(service).wf(),
    ensures
        final(service).wf(),
        r == old(service)@.connected.contains_key(session_id),
        final(service)@ == (if r {
            ManagerState {
                connected: old(service)@.connected.insert(
                    session_id,
                    ConnectedState {
                        trans_addr: Some(addr),
                        ..old(service)@.connected[session_id]
                    },
                ),
                ..old(service)@
            }
        } else {
            old(service)@
        }),
{
    let ghost before = service.connected_addrs@;
    match service.connected_addrs.remove(&session_id) {
        Some(info) => {
            let info = ConnectedInfo::new(info.conn_addr, Some(addr), info.node_crt);
            service.connected_addrs.insert(session_id, info);
            proof {
                lemma_sessions(before, session_id, info);
                lemma_sessions(before.remove(session_id), session_id, info);
                assert(service@.connected =~= old(service)@.connected.insert(session_id, info@));
            }
            true
        },
        None => {
            proof {
                assert(service.connected_addrs@ =~= before);
            }
            false
        },
    }
}

/// Books a session whose peer is connected already, and closes it. Says
/// whether it is such a session.
pub fn handle_repeated_connect(
    session_id: SessionId,
    ty: SessionType,
    peer_key: Address,
    service: &mut NodesManager,
    actions: &mut Vec<Action>,
) -> (r: bool)
    requires
        old(service).wf(),
        old(service)@.peers.contains_key(peer_key) && old(service)@.books_repeat(ty) ==> old(
            service,
        )@.bears(old(service)@.dialing->0, SUCCESS_DIALING_SCORE as int),
    ensures
        final(service).wf(),
        r == old(service)@.peers.contains_key(peer_key),
        final(service)@ == old(service)@.repeat_booked(ty, peer_key),
        asked(final(actions)@) == asked(old(actions)@) + if_told(
            old(service)@.ctrl && r,
            ActionState::Disconnect(session_id),
        ),
{
    let repeated: Option<SessionId> = match service.connected_peer_keys.get(&peer_key) {
        Some(id) => Some(*id),
        None => None,
    };
    if let Some(repeated_id) = repeated {
        if let Some(dialing_addr) = service.dialing_node {
            if ty == SessionType::Outbound {
                if book_reached(service, dialing_addr, repeated_id) {
                    note_trans_addr(service, repeated_id, dialing_addr);
                }
            }
        }
        tell(actions, service.service_ctrl, Action::Disconnect(session_id));
        true
    } else {
        assert(asked(actions@) =~= asked(old(actions)@) + if_told(
            false,
            ActionState::Disconnect(session_id),
        ));
        false
    }
}

/// Closes a session that leads back to this node, and notes the address that
/// is being dialed, if there is one, as this node's. Says whether it is such a
/// session.
pub fn handle_connect_self(
    session_id: SessionId,
    peer_key: Address,
    service: &mut NodesManager,
    actions: &mut Vec<Action>,
) -> (r: bool)
    requires
        old(service).wf(),
    ensures
        final(service).wf(),
        r == (old(service)@.peer_key == peer_key),
        final(service)@ == old(service)@.self_noted(peer_key),
        asked(final(actions)@) == asked(old(actions)@) + if_told(
            old(service)@.ctrl && r,
            ActionState::Disconnect(session_id),
        ),
{
    let me = same_address(service.peer_key, peer_key);
    if me && service.dialing_node.is_some() {
        service.self_addr = service.dialing_node;
    }
    tell(actions, service.service_ctrl && me, Action::Disconnect(session_id));
    me
}

/// A session has introduced itself.
pub struct AddConnectedNodeReq {
    pub session_id: SessionId,
    pub ty: SessionType,
    pub init_msg: InitMsg,
}

impl AddConnectedNodeReq {
    pub fn new(session_id: SessionId, ty: SessionType, init_msg: InitMsg) -> (r: Self)
        ensures
            r == (AddConnectedNodeReq { session_id, ty, init_msg }),
    {
        AddConnectedNodeReq { session_id, ty, init_msg }
    }

    /// Checks the certificate that a new peer introduced itself with.
    fn vet(init_msg: InitMsg, service: &NodesManager) -> (r: Vetting)
        requires
            service@.enable_ca ==> (init_msg.node_crt matches Some(pem) ==> is_certificate(pem@)),
        ensures
            exists|answer: Option<bool>|
                service@.may_answer(init_msg@, answer) && r@ == #[trigger] service@.vetting(
                    init_msg@,
                    answer,
                ),
    {
        let ghost msg = init_msg@;
        let peer_key = init_msg.peer_key;
        if !service.enable_ca {
            assert(VettingState::NotAsked == service@.vetting(msg, None));
            return Vetting::NotAsked;
        }
        match init_msg.node_crt {
            None => {
                assert(VettingState::Refused == service@.vetting(msg, None));
                Vetting::Refused
            },
            Some(pem) => match (Certificate::from_pem(pem), &service.root_crt) {
                (Some(crt), Some(root_crt)) => {
                    let accepted = accept(root_crt, crt, peer_key, &service.crl);
                    let ghost answer = choose|answer: Option<bool>|
                        {
                            &&& chain_may_answer(root_crt@, crt@, answer)
                            &&& acceptance(
                                #[trigger] chain_outcome(answer),
                                crt@,
                                peer_key,
                                service@.crl,
                            ) == (match accepted {
                                Ok(crt) => Ok(crt@),
                                Err(e) => Err(e),
                            })
                        };
                    match accepted {
                        Ok(crt) => {
                            assert(VettingState::Accepted(crt@) == service@.vetting(msg, answer));
                            Vetting::Accepted(crt)
                        },
                        Err(_) => {
                            assert(VettingState::Refused == service@.vetting(msg, answer));
                            Vetting::Refused
                        },
                    }
                },
                _ => {
                    assert(VettingState::NotAsked == service@.vetting(msg, None));
                    Vetting::NotAsked
                },
            },
        }
    }

    /// Makes a session the one of a new peer, whose certificate came to
    /// `vetting`.
    fn add_peer(
        session_id: SessionId,
        ty: SessionType,
        peer_key: Address,
        vetting: Vetting,
        service: &mut NodesManager,
    )
        requires
            old(service).wf(),
            old(service)@.is_new_peer(peer_key),
            old(service)@.pending.contains_key(session_id) && ty == SessionType::Outbound ==> old(
                service,
            )@.bears(old(service)@.pending[session_id].addr, SUCCESS_DIALING_SCORE as int),
        ensures
            final(service).wf(),
            final(service)@ == old(service)@.peer_added(session_id, ty, peer_key, vetting@),
    {
        let ghost s = service@;
        let pending = service.pending_connected_addrs.remove(&session_id);
        if let Some(session_info) = pending {
            let node_crt: Option<NodeCert> = match vetting {
                Vetting::Accepted(crt) => Some(crt),
                _ => None,
            };
            let ghost before = service.connected_addrs@;
            let trans_addr: Option<SocketAddr> = match service.connected_addrs.remove(&session_id) {
                Some(info) => info.trans_addr,
                None => None,
            };
            let info = ConnectedInfo::new(session_info.addr, trans_addr, node_crt);
            service.connected_addrs.insert(session_id, info);
            proof {
                lemma_sessions(before, session_id, info);
                lemma_sessions(before.remove(session_id), session_id, info);
                assert(service@.connected =~= s.connected.insert(session_id, info@));
            }
            if ty == SessionType::Outbound {
                book_reached(service, session_info.addr, session_id);
            }
        } else {
            assert(service@.pending =~= s.pending);
        }
        service.connected_peer_keys.insert(peer_key, session_id);
        service.consensus_topology.add_linked_nodes(peer_key);
        proof {
            law_flag_stays_right(s.topology, peer_key, 0, Set::empty());
            assert(service@ =~= s.peer_added(session_id, ty, peer_key, vetting@));
            assert(service@.topology.linked =~= service@.peers.dom().insert(service@.peer_key));
        }
    }

    /// Books the introduction, for what the certificate of a new peer came to.
    pub fn introduce(
        session_id: SessionId,
        ty: SessionType,
        peer_key: Address,
        vetting: Vetting,
        service: &mut NodesManager,
    ) -> (r: Vec<Action>)
        requires
            old(service).wf(),
            old(service)@.can_book_introduction(session_id, ty, peer_key),
        ensures
            final(service).wf(),
            final(service)@ == old(service)@.introduced(session_id, ty, peer_key, vetting@),
            asked(r@) == old(service)@.introduced_actions(session_id, peer_key, vetting@),
    {
        let ghost s = service@;
        let mut actions: Vec<Action> = Vec::new();
        let repeated = handle_repeated_connect(session_id, ty, peer_key, service, &mut actions);
        let me = handle_connect_self(session_id, peer_key, service, &mut actions);
        let refused = matches!(vetting, Vetting::Refused);
        tell(
            &mut actions,
            service.service_ctrl && !repeated && !me && refused,
            Action::Disconnect(session_id),
        );
        if !repeated && !me {
            Self::add_peer(session_id, ty, peer_key, vetting, service);
        }
        if ty == SessionType::Outbound {
            service.dialing_node = None;
        }
        assert(asked(actions@) =~= s.introduced_actions(session_id, peer_key, vetting@));
        actions
    }

    pub fn handle(self, service: &mut NodesManager) -> (r: Vec<Action>)
        requires
            old(service).wf(),
            old(service)@.can_introduce(self.session_id, self.ty, self.init_msg@),
        ensures
            final(service).wf(),
            exists|answer: Option<bool>|
                {
                    let vetting = #[trigger] old(service)@.vetting(self.init_msg@, answer);
                    &&& old(service)@.may_answer(self.init_msg@, answer)
                    &&& final(service)@ == old(service)@.introduced(
                        self.session_id,
                        self.ty,
                        self.init_msg.peer_key,
                        vetting,
                    )
                    &&& asked(r@) == old(service)@.introduced_actions(
                        self.session_id,
                        self.init_msg.peer_key,
                        vetting,
                    )
                },
    {
        let peer_key = self.init_msg.peer_key;
        let known = service.connected_peer_keys.contains_key(&peer_key);
        let vetting = if known || same_address(service.peer_key, peer_key) {
            Vetting::NotAsked
        } else {
            Self::vet(self.init_msg, service)
        };
        proof {
            // What the certificate comes to is of no account where the peer
            // is not new.
            let _any = service@.vetting(self.init_msg@, None);
        }
        Self::introduce(self.session_id, self.ty, peer_key, vetting, service)
    }
}

/// A dial reached a node to which a session is open already.
pub struct AddRepeatedNodeReq {
    pub addr: SocketAddr,
    pub session_id: SessionId,
}

impl AddRepeatedNodeReq {
    pub fn new(addr: SocketAddr, session_id: SessionId) -> (r: Self)
        ensures
            r == (AddRepeatedNodeReq { addr, session_id }),
    {
        AddRepeatedNodeReq { addr, session_id }
    }

    pub fn handle(self, service: &mut NodesManager)
        requires
            old(service).wf(),
            old(service)@.bears(self.addr, SUCCESS_DIALING_SCORE as int),
        ensures
            final(service).wf(),
            final(service)@ == old(service)@.repeated_added(self.addr, self.session_id),
    {
        if book_reached(service, self.addr, self.session_id) {
            if !note_trans_addr(service, self.session_id, self.addr) {
                let ghost before = service.connected_addrs@;
                let info = ConnectedInfo::new(socket_v4(0, 0), Some(self.addr), None);
                service.connected_addrs.insert(self.session_id, info);
                proof {
                    lemma_sessions(before, self.session_id, info);
                }
            }
        }
        service.dialing_node = None;
    }
}

/// A session was opened.
pub struct PendingConnectedNodeReq {
    pub session_id: SessionId,
    pub addr: SocketAddr,
    pub ty: SessionType,
}

impl PendingConnectedNodeReq {
    pub fn new(session_id: SessionId, addr: SocketAddr, ty: SessionType) -> (r: Self)
        ensures
            r == (PendingConnectedNodeReq { session_id, addr, ty }),
    {
        PendingConnectedNodeReq { session_id, addr, ty }
    }

    /// Lets the session introduce itself, or closes it where there are as many
    /// sessions as there may be.
    pub fn handle(self, service: &mut NodesManager) -> (r: Vec<Action>)
        requires
            old(service).wf(),
        ensures
            final(service).wf(),
            final(service)@ == old(service)@.session_pending(self.session_id, self.addr, self.ty),
            asked(r@) == if_told(
                old(service)@.ctrl && old(service)@.full(),
                ActionState::Disconnect(self.session_id),
            ),
    {
        proof {
            lemma_sessions(service.connected_addrs@, 0, arbitrary());
        }
        let full = service.connected_addrs.len() >= service.max_connects;
        if !full {
            service.pending_connected_addrs.insert(
                self.session_id,
                SessionInfo::new(self.ty, self.addr),
            );
        }
        only(service.service_ctrl && full, Action::Disconnect(self.session_id))
    }
}

/// A session ended.
pub struct DelConnectedNodeReq {
    pub session_id: SessionId,
}

impl DelConnectedNodeReq {
    pub fn new(session_id: SessionId) -> (r: Self)
        ensures
            r == (DelConnectedNodeReq { session_id }),
    {
        DelConnectedNodeReq { session_id }
    }

    pub fn handle(self, service: &mut NodesManager)
        requires
            old(service).wf(),
            old(service)@.can_lose(self.session_id),
        ensures
            final(service).wf(),
            final(service)@ == old(service)@.session_lost(self.session_id),
    {
        let ghost s = service@;
        let ghost before = service.connected_addrs@;
        let removed = service.connected_addrs.remove(&self.session_id);
        proof {
            lemma_sessions(before, self.session_id, arbitrary());
        }
        let mut paid: Option<SocketAddr> = None;
        if let Some(info) = removed {
            let addr = match info.trans_addr {
                Some(addr) => addr,
                None => info.conn_addr,
            };
            if self.fix_node_status(addr, service) {
                paid = Some(addr);
            }
            if let Some(key) = find_peer(&service.connected_peer_keys, self.session_id) {
                service.consensus_topology.del_linked_nodes(&key);
                service.connected_peer_keys.remove(&key);
                proof {
                    law_flag_stays_right(s.topology, key, 0, Set::empty());
                    assert(service@.topology.linked =~= service@.peers.dom().insert(
                        service@.peer_key,
                    ));
                }
            }
        }
        assert(service@ =~= s.disconnected(self.session_id));
        let ghost t = service@;
        let pending = service.pending_connected_addrs.remove(&self.session_id);
        if let Some(session_info) = pending {
            if session_info.ty == SessionType::Outbound {
                let has_paid = match paid {
                    Some(addr) => same_socket(addr, session_info.addr),
                    None => false,
                };
                assert(has_paid == s.pays_as_open(self.session_id));
                if !has_paid {
                    self.book_refusal(session_info.addr, service);
                }
                service.dialing_node = None;
            }
        }
        assert(service@ =~= t.given_up(self.session_id, s.pays_as_open(self.session_id)));
    }

    /// Books the end of the session on the address that it connected to. Says
    /// whether it connected to it.
    fn fix_node_status(&self, addr: SocketAddr, service: &mut NodesManager) -> (r: bool)
        requires
            old(service).wf(),
            old(service)@.can_fix(addr, self.session_id),
        ensures
            final(service).wf(),
            final(service)@ == old(service)@.status_fixed(addr, self.session_id),
            r == old(service)@.connects(addr, self.session_id),
    {
        if let Some(status) = fnv_map::get(&service.known_addrs, addr) {
            if let Some(session_id) = status.session_id {
                if session_id == self.session_id {
                    let fixed = NodeStatus::new(
                        status.score - REFUSED_SCORE,
                        None,
                        status.node_src,
                    );
                    fnv_map::insert(&mut service.known_addrs, addr, fixed);
                    return true;
                }
            }
        }
        false
    }

    /// Books the refusal of the session on the address that was dialed.
    fn book_refusal(&self, addr: SocketAddr, service: &mut NodesManager)
        requires
            old(service).wf(),
            old(service)@.can_refuse(addr, self.session_id),
        ensures
            final(service).wf(),
            final(service)@ == old(service)@.refused(addr, self.session_id),
    {
        if let Some(status) = fnv_map::get(&service.known_addrs, addr) {
            let refusable = match status.session_id {
                Some(session_id) => session_id == self.session_id,
                None => true,
            };
            if refusable {
                let charged = NodeStatus::new(
                    status.score - REFUSED_SCORE,
                    None,
                    status.node_src,
                );
                fnv_map::insert(&mut service.known_addrs, addr, charged);
            }
        }
    }
}

/// A dial failed.
pub struct DialedErrorReq {
    pub addr: SocketAddr,
}

impl DialedErrorReq {
    pub fn new(addr: SocketAddr) -> (r: Self)
        ensures
            r == (DialedErrorReq { addr }),
    {
        DialedErrorReq { addr }
    }

    pub fn handle(self, service: &mut NodesManager)
        requires
            old(service).wf(),
            old(service)@.bears(self.addr, -DIALED_ERROR_SCORE),
        ensures
            final(service).wf(),
            final(service)@ == old(service)@.dial_failed(self.addr),
    {
        if let Some(status) = fnv_map::get(&service.known_addrs, self.addr) {
            let failed = NodeStatus::new(
                status.score - DIALED_ERROR_SCORE,
                status.session_id,
                status.node_src,
            );
            fnv_map::insert(&mut service.known_addrs, self.addr, failed);
        }
        service.dialing_node = None;
    }
}

/// A dial led back to this node.
pub struct ConnectedSelfReq {
    pub addr: SocketAddr,
}

impl ConnectedSelfReq {
    pub fn new(addr: SocketAddr) -> (r: Self)
        ensures
            r == (ConnectedSelfReq { addr }),
    {
        ConnectedSelfReq { addr }
    }

    pub fn handle(self, service: &mut NodesManager)
        requires
            old(service).wf(),
        ensures
            final(service).wf(),
            final(service)@ == old(service)@.self_connected(self.addr),
    {
        service.self_addr = Some(self.addr);
        service.dialing_node = None;
    }
}

/// A session waits for the introduction of this node.
pub struct NetworkInitReq {
    pub session_id: SessionId,
}

impl Default for NetworkInitReq {
    fn default() -> (r: Self)
        ensures
            r.session_id == 0,
    {
        NetworkInitReq { session_id: 0 }
    }
}

impl NetworkInitReq {
    pub fn new(session_id: SessionId) -> (r: Self)
        ensures
            r == (NetworkInitReq { session_id }),
    {
        NetworkInitReq { session_id }
    }

    /// Sends the introduction, with the certificate where certificates are in
    /// use.
    pub fn handle(self, service: &NodesManager) -> (r: Vec<Action>)
        ensures
            asked(r@) == if_told(
                service@.ctrl,
                ActionState::SendTo(self.session_id, service@.introduction()),
            ),
    {
        let mut init_msg = InitMsg { chain_id: 0, peer_key: service.peer_key, node_crt: None };
        if service.enable_ca {
            init_msg.node_crt = match &service.node_crt {
                Some(crt) => Some(crt.clone()),
                None => None,
            };
        }
        let mut unit = NetMessageUnit::default();
        unit.key = "network.init".to_owned();
        unit.data = init_msg.into();
        assert(unit@ =~= service@.introduction());
        only(service.service_ctrl, Action::SendTo(self.session_id, unit))
    }
}

} // verus!
