//! The messages of the manager.
use fnv::FnvHashMap;
use vstd::prelude::*;

use crate::action::{asked, if_told, plain_unit, Action, ActionState};
use crate::cert::Certificate;
use crate::chance::is_random_uuid;
use crate::config_addrs::texts;
use crate::crl::crl_request;
use crate::fnv_map;
use crate::gossip::{BroadcastReq, RetransNetMsgReq, SingleTxReq};
use crate::manager::NodesManager;
use crate::nodes::{
    AddNodeReq, GetPeerCountReq, GetPeersInfoReq, GetRandomNodesReq, ModifiedConfigPeersReq,
};
use crate::revocation::{DealRichStatusReq, UpdateCrlReq};
use crate::sessions::{
    AddConnectedNodeReq, AddRepeatedNodeReq, ConnectedSelfReq, DelConnectedNodeReq,
    DialedErrorReq, NetworkInitReq, PendingConnectedNodeReq,
};
use crate::state::{is_order, ManagerState};
use crate::types::{
    same_address, Address, IpAddr, SessionId, SessionType, SocketAddr, DIALED_ERROR_SCORE,
    REFUSED_SCORE, SUCCESS_DIALING_SCORE,
};

verus! {

/// What a message led to: something to be done, or the answer to a question.
pub enum Outcome {
    Actions(Vec<Action>),
    RandomNodes(Vec<SocketAddr>),
    PeerCount(usize),
    PeersInfo(FnvHashMap<Address, IpAddr>),
}

impl Outcome {
    /// These actions, and no answer.
    pub open spec fn asks(self, actions: Seq<ActionState>) -> bool {
        self matches Outcome::Actions(list) && asked(list@) == actions
    }

    /// These addresses.
    pub open spec fn names(self, addrs: Seq<SocketAddr>) -> bool {
        self matches Outcome::RandomNodes(list) && list@ == addrs
    }
}

/// Something that happened, or a question.
pub enum NodesManagerMessage {
    AddNodeReq(AddNodeReq),
    DialedErrorReq(DialedErrorReq),
    GetRandomNodesReq(GetRandomNodesReq),
    PendingConnectedNodeReq(PendingConnectedNodeReq),
    DelConnectedNodeReq(DelConnectedNodeReq),
    Broadcast(BroadcastReq),
    RetransNetMsg(RetransNetMsgReq),
    SingleTxReq(SingleTxReq),
    GetPeerCount(GetPeerCountReq),
    NetworkInit(NetworkInitReq),
    AddConnectedNode(AddConnectedNodeReq),
    AddRepeatedNode(AddRepeatedNodeReq),
    ConnectedSelf(ConnectedSelfReq),
    GetPeersInfo(GetPeersInfoReq),
    ModifiedConfigPeers(ModifiedConfigPeersReq),
    DealRichStatus(DealRichStatusReq),
    UpdateCrl(UpdateCrlReq),
}

impl NodesManagerMessage {
    /// The message can be handled: no number leaves its range, and what is to
    /// be read as a certificate or an account address is one.
    pub open spec fn admissible(self, s: ManagerState) -> bool {
        match self {
            NodesManagerMessage::DialedErrorReq(req) => s.bears(req.addr, -DIALED_ERROR_SCORE),
            NodesManagerMessage::DelConnectedNodeReq(req) => s.can_lose(req.session_id),
            NodesManagerMessage::Broadcast(_) => s.self_version < u64::MAX,
            NodesManagerMessage::AddConnectedNode(req) => s.can_introduce(
                req.session_id,
                req.ty,
                req.init_msg@,
            ),
            NodesManagerMessage::AddRepeatedNode(req) => s.bears(
                req.addr,
                SUCCESS_DIALING_SCORE as int,
            ),
            NodesManagerMessage::DealRichStatus(req) => s.can_see_block(
                req.msg.height,
                req.msg.listed(),
            ),
            _ => true,
        }
    }

    /// The message may take the state from `s` to `t` and lead to `out`.
    pub open spec fn leads(self, s: ManagerState, t: ManagerState, out: Outcome) -> bool {
        match self {
            NodesManagerMessage::AddNodeReq(req) => t == s.node_added(req.addr, req.source)
                && out.asks(Seq::empty()),
            NodesManagerMessage::DialedErrorReq(req) => t == s.dial_failed(req.addr) && out.asks(
                Seq::empty(),
            ),
            NodesManagerMessage::GetRandomNodesReq(req) => t == s && (exists|
                order: Seq<SocketAddr>,
            | #[trigger]
                is_order(order, s.known) && out.names(order.take(
                    if req.num <= order.len() {
                        req.num as int
                    } else {
                        order.len() as int
                    },
                ))),
            NodesManagerMessage::PendingConnectedNodeReq(req) => t == s.session_pending(
                req.session_id,
                req.addr,
                req.ty,
            ) && out.asks(
                if_told(s.ctrl && s.full(), ActionState::Disconnect(req.session_id)),
            ),
            NodesManagerMessage::DelConnectedNodeReq(req) => t == s.session_lost(req.session_id)
                && out.asks(Seq::empty()),
            NodesManagerMessage::Broadcast(req) => t == s.version_used() && out.asks(
                if_told(s.ctrl, ActionState::Broadcast(s.own_unit(req.key@, req.msg@))),
            ),
            NodesManagerMessage::RetransNetMsg(req) => t == s.message_seen(req.msg_unit@)
                && out.asks(s.relay_actions(req.msg_unit@, req.incomming_session_id)),
            NodesManagerMessage::SingleTxReq(req) => t == s && out.asks(
                if_told(s.ctrl, ActionState::SendTo(req.dst, plain_unit(req.key@, req.msg@))),
            ),
            NodesManagerMessage::GetPeerCount(_) => t == s && out == Outcome::PeerCount(
                s.connected.len() as usize,
            ) && s.connected.len() <= usize::MAX,
            NodesManagerMessage::NetworkInit(req) => t == s && out.asks(
                if_told(s.ctrl, ActionState::SendTo(req.session_id, s.introduction())),
            ),
            NodesManagerMessage::AddConnectedNode(req) => exists|answer: Option<bool>|
                {
                    let vetting = #[trigger] s.vetting(req.init_msg@, answer);
                    &&& s.may_answer(req.init_msg@, answer)
                    &&& t == s.introduced(req.session_id, req.ty, req.init_msg.peer_key, vetting)
                    &&& out.asks(
                        s.introduced_actions(req.session_id, req.init_msg.peer_key, vetting),
                    )
                },
            NodesManagerMessage::AddRepeatedNode(req) => t == s.repeated_added(
                req.addr,
                req.session_id,
            ) && out.asks(Seq::empty()),
            NodesManagerMessage::ConnectedSelf(req) => t == s.self_connected(req.addr)
                && out.asks(Seq::empty()),
            NodesManagerMessage::GetPeersInfo(_) => t == s && (out matches Outcome::PeersInfo(info)
                && info@ == s.peers_info()),
            NodesManagerMessage::ModifiedConfigPeers(req) => t == s.config_modified(
                texts(req.peers@),
            ) && out.asks(s.peers_dropped_actions(s.left_out(texts(req.peers@)))),
            NodesManagerMessage::DealRichStatus(req) => t == s.block_seen(
                req.msg.height,
                req.msg.listed(),
            ) && (if s.crl_due(req.msg.height) {
                exists|id: Seq<u8>| #[trigger]
                    is_random_uuid(id) && out.asks(seq![ActionState::GetCrl(crl_request(id))])
            } else {
                out.asks(Seq::empty())
            }),
            NodesManagerMessage::UpdateCrl(req) => t == (ManagerState { crl: req.crl@, ..s })
                && out.asks(s.revocation_actions(req.crl@)),
        }
    }

    /// Handles the message.
    pub fn handle(self, service: &mut NodesManager) -> (r: Outcome)
        requires
            old(service).wf(),
            self.admissible(old(service)@),
        ensures
            final(service).wf(),
            self.leads(old(service)@, final(service)@, r),
    {
        match self {
            NodesManagerMessage::AddNodeReq(req) => {
                req.handle(service);
                no_actions()
            },
            NodesManagerMessage::DialedErrorReq(req) => {
                req.handle(service);
                no_actions()
            },
            NodesManagerMessage::GetRandomNodesReq(req) => Outcome::RandomNodes(
                req.handle(service),
            ),
            NodesManagerMessage::PendingConnectedNodeReq(req) => Outcome::Actions(
                req.handle(service),
            ),
            NodesManagerMessage::DelConnectedNodeReq(req) => {
                req.handle(service);
                no_actions()
            },
            NodesManagerMessage::Broadcast(req) => Outcome::Actions(req.handle(service)),
            NodesManagerMessage::SingleTxReq(req) => Outcome::Actions(req.handle(service)),
            NodesManagerMessage::GetPeerCount(req) => Outcome::PeerCount(req.handle(service)),
            NodesManagerMessage::NetworkInit(req) => Outcome::Actions(req.handle(service)),
            NodesManagerMessage::AddConnectedNode(req) => Outcome::Actions(req.handle(service)),
            NodesManagerMessage::AddRepeatedNode(req) => {
                req.handle(service);
                no_actions()
            },
            NodesManagerMessage::ConnectedSelf(req) => {
                req.handle(service);
                no_actions()
            },
            NodesManagerMessage::GetPeersInfo(req) => Outcome::PeersInfo(req.handle(service)),
            NodesManagerMessage::ModifiedConfigPeers(req) => Outcome::Actions(req.handle(service)),
            NodesManagerMessage::RetransNetMsg(req) => Outcome::Actions(req.handle(service)),
            NodesManagerMessage::DealRichStatus(req) => {
                let r = req.handle(service);
                assert(r@.len() == 0 ==> asked(r@) =~= Seq::<ActionState>::empty());
                Outcome::Actions(r)
            },
            NodesManagerMessage::UpdateCrl(req) => Outcome::Actions(req.handle(service)),
        }
    }
}

/// Nothing to be done.
fn no_actions() -> (r: Outcome)
    ensures
        r.asks(Seq::empty()),
{
    let list: Vec<Action> = Vec::new();
    assert(asked(list@) =~= Seq::<ActionState>::empty());
    Outcome::Actions(list)
}

impl NodesManager {
    /// Whether the score of a known address can bear a change.
    fn can_bear(&self, addr: SocketAddr, by: i32) -> (r: bool)
        ensures
            r == self@.bears(addr, by as int),
    {
        match fnv_map::get(&self.known_addrs, addr) {
            Some(status) => status.score.checked_add(by).is_some(),
            None => true,
        }
    }

    /// Whether the end of a session can be booked on an address.
    fn fixable(&self, addr: SocketAddr, session_id: SessionId) -> (r: bool)
        ensures
            r == self@.can_fix(addr, session_id),
    {
        match fnv_map::get(&self.known_addrs, addr) {
            Some(status) => match status.session_id {
                Some(id) => id != session_id || self.can_bear(addr, -REFUSED_SCORE),
                None => true,
            },
            None => true,
        }
    }

    /// Whether the refusal of a session can be booked on an address.
    fn can_refuse(&self, addr: SocketAddr, session_id: SessionId) -> (r: bool)
        ensures
            r == self@.can_refuse(addr, session_id),
    {
        match fnv_map::get(&self.known_addrs, addr) {
            Some(status) => match status.session_id {
                Some(id) => id != session_id || self.can_bear(addr, -REFUSED_SCORE),
                None => self.can_bear(addr, -REFUSED_SCORE),
            },
            None => true,
        }
    }

    /// Whether the end of a session can be booked.
    fn can_lose(&self, session_id: SessionId) -> (r: bool)
        ensures
            r == self@.can_lose(session_id),
    {
        let open = match self.connected_addrs.get(&session_id) {
            Some(info) => {
                let addr = match info.trans_addr {
                    Some(addr) => addr,
                    None => info.conn_addr,
                };
                self.fixable(addr, session_id)
            },
            None => true,
        };
        let pending = match self.pending_connected_addrs.get(&session_id) {
            Some(info) => info.ty == SessionType::Inbound || self.can_refuse(
                info.addr,
                session_id,
            ),
            None => true,
        };
        open && pending
    }

    /// Whether an introduction can be booked, and its certificate can be read.
    fn can_introduce(&self, req: &AddConnectedNodeReq) -> (r: bool)
        ensures
            r == self@.can_introduce(req.session_id, req.ty, req.init_msg@),
    {
        let peer_key = req.init_msg.peer_key;
        let repeated = self.connected_peer_keys.contains_key(&peer_key);
        if repeated || same_address(self.peer_key, peer_key) {
            match self.dialing_node {
                Some(addr) => !repeated || req.ty == SessionType::Inbound || self.can_bear(
                    addr,
                    SUCCESS_DIALING_SCORE,
                ),
                None => true,
            }
        } else {
            let bears = match self.pending_connected_addrs.get(&req.session_id) {
                Some(info) => req.ty == SessionType::Inbound || self.can_bear(
                    info.addr,
                    SUCCESS_DIALING_SCORE,
                ),
                None => true,
            };
            let readable = match &req.init_msg.node_crt {
                Some(pem) => !self.enable_ca || Certificate::from_pem(pem.clone()).is_some(),
                None => true,
            };
            bears && readable
        }
    }

    /// Whether a block can be booked.
    fn can_see_block(&self, req: &DealRichStatusReq) -> (r: bool)
        ensures
            r == self@.can_see_block(req.msg.height, req.msg.listed()),
    {
        let mut all: bool = true;
        let mut i: usize = 0;
        while i < req.msg.validators.len()
            invariant
                i <= req.msg.validators@.len(),
                all == forall|k: int| 0 <= k < i ==> (#[trigger] req.msg.listed()[k]).len() == 20,
            decreases req.msg.validators@.len() - i,
        {
            assert(req.msg.listed()[i as int] == req.msg.validators@[i as int]@);
            all = all && req.msg.validators[i].len() == 20;
            i = i + 1;
        }
        all && (!self.enable_ca || req.msg.height >= self.get_crl_point)
    }

    /// Whether a message can be handled.
    pub fn admits(&self, msg: &NodesManagerMessage) -> (r: bool)
        ensures
            r == msg.admissible(self@),
    {
        match msg {
            NodesManagerMessage::DialedErrorReq(req) => self.can_bear(
                req.addr,
                -DIALED_ERROR_SCORE,
            ),
            NodesManagerMessage::DelConnectedNodeReq(req) => self.can_lose(req.session_id),
            NodesManagerMessage::Broadcast(_) => self.self_version < u64::MAX,
            NodesManagerMessage::AddConnectedNode(req) => self.can_introduce(req),
            NodesManagerMessage::AddRepeatedNode(req) => self.can_bear(
                req.addr,
                SUCCESS_DIALING_SCORE,
            ),
            NodesManagerMessage::DealRichStatus(req) => self.can_see_block(req),
            _ => true,
        }
    }

    /// Handles a message, or nothing where it cannot be handled.
    pub fn deliver(&mut self, msg: NodesManagerMessage) -> (r: Option<Outcome>)
        requires
            old(self).wf(),
        ensures
            final(self).wf(),
            match r {
                Some(out) => msg.admissible(old(self)@) && msg.leads(old(self)@, final(self)@, out),
                None => !msg.admissible(old(self)@) && final(self)@ == old(self)@,
            },
    {
        if self.admits(&msg) {
            Some(msg.handle(self))
        } else {
            None
        }
    }
}

} // verus!
