//! Messages between nodes.
use vstd::prelude::*;

use crate::action::{asked, if_told, only, plain_unit, Action, ActionState, NetMessageUnit};
use crate::fnv_map;
use crate::manager::{lemma_sessions, NodesManager};
use crate::order::{in_order, pick, picked, session_ids};
use crate::text::contains;
use crate::types::SessionId;

verus! {

/// A message came in and may have to be passed on.
pub struct RetransNetMsgReq {
    pub msg_unit: NetMessageUnit,
    pub incomming_session_id: SessionId,
}

impl RetransNetMsgReq {
    pub fn new(msg_unit: NetMessageUnit, incomming_session_id: SessionId) -> (r: Self)
        ensures
            r == (RetransNetMsgReq { msg_unit, incomming_session_id }),
    {
        RetransNetMsgReq { msg_unit, incomming_session_id }
    }

    /// Passes the message on to all sessions but the one it came on, unless it
    /// has been passed on before.
    pub fn handle(self, service: &mut NodesManager) -> (r: Vec<Action>)
        requires
            old(service).wf(),
        ensures
            final(service).wf(),
            final(service)@ == old(service)@.message_seen(self.msg_unit@),
            asked(r@) == old(service)@.relay_actions(self.msg_unit@, self.incomming_session_id),
    {
        let ghost s = service@;
        let ghost unit = self.msg_unit@;
        let mut msg_unit = self.msg_unit;
        let saved: u64 = match fnv_map::get(&service.gossip_key_version, msg_unit.addr) {
            Some(version) => version,
            None => 0,
        };
        if msg_unit.version == 0 || saved < msg_unit.version {
            fnv_map::insert(&mut service.gossip_key_version, msg_unit.addr, msg_unit.version);
            let ids = Self::others(service, self.incomming_session_id);
            if service.consensus_topology.consensus_all_linked {
                msg_unit.ttl = 0;
            }
            assert(msg_unit@ =~= s.relayed(unit));
            only(service.service_ctrl, Action::Multicast(ids, msg_unit))
        } else {
            fnv_map::insert(&mut service.gossip_key_version, msg_unit.addr, saved);
            let r: Vec<Action> = Vec::new();
            assert(asked(r@) =~= s.relay_actions(unit, self.incomming_session_id));
            r
        }
    }

    /// All open sessions but one, lowest number first.
    fn others(service: &NodesManager, session_id: SessionId) -> (r: Vec<SessionId>)
        ensures
            r@ == in_order(service@.connected.dom().remove(session_id)),
    {
        let ids = session_ids(&service.connected_addrs);
        let mut wanted: Vec<bool> = Vec::new();
        let mut i: usize = 0;
        while i < ids.len()
            invariant
                i <= ids@.len(),
                wanted@.len() == i,
                forall|k: int| 0 <= k < i ==> #[trigger] wanted@[k] == (ids@[k] != session_id),
            decreases ids@.len() - i,
        {
            wanted.push(ids[i] != session_id);
            i = i + 1;
        }
        proof {
            lemma_sessions(service.connected_addrs@, 0, arbitrary());
            assert forall|id: SessionId| #[trigger] service@.connected.dom().contains(
                id,
            ) <==> ids@.contains(id) by {
                assert(ids@.to_set().contains(id) <==> ids@.contains(id));
            }
            assert(picked(ids@, wanted@) =~= service@.connected.dom().remove(session_id));
        }
        pick(&ids, &wanted)
    }
}

/// A message starts from this node and goes to all peers.
pub struct BroadcastReq {
    pub key: String,
    pub msg: Vec<u8>,
}

impl BroadcastReq {
    pub fn new(key: String, msg: Vec<u8>) -> (r: Self)
        ensures
            r == (BroadcastReq { key, msg }),
    {
        BroadcastReq { key, msg }
    }

    /// Sends the message under the next number. The peers pass it on only if
    /// it belongs to the consensus and not all validators are linked.
    pub fn handle(self, service: &mut NodesManager) -> (r: Vec<Action>)
        requires
            old(service).wf(),
            old(service)@.self_version < u64::MAX,
        ensures
            final(service).wf(),
            final(service)@ == old(service)@.version_used(),
            asked(r@) == if_told(
                old(service)@.ctrl,
                ActionState::Broadcast(old(service)@.own_unit(self.key@, self.msg@)),
            ),
    {
        let mut info = NetMessageUnit::default();
        info.key = self.key;
        info.data = self.msg;
        info.addr = service.peer_key;
        info.version = service.self_version;
        service.self_version = service.self_version + 1;
        if !service.consensus_topology.consensus_all_linked() && contains(
            info.key.as_str(),
            service.consensus.marker.as_str(),
        ) {
            info.ttl = service.consensus.ttl;
        }
        assert(info@ =~= old(service)@.own_unit(self.key@, self.msg@));
        only(service.service_ctrl, Action::Broadcast(info))
    }
}

/// A message goes to one peer.
pub struct SingleTxReq {
    pub dst: SessionId,
    pub key: String,
    pub msg: Vec<u8>,
}

impl SingleTxReq {
    pub fn new(dst: SessionId, key: String, msg: Vec<u8>) -> (r: Self)
        ensures
            r == (SingleTxReq { dst, key, msg }),
    {
        SingleTxReq { dst, key, msg }
    }

    pub fn handle(self, service: &NodesManager) -> (r: Vec<Action>)
        ensures
            asked(r@) == if_told(
                service@.ctrl,
                ActionState::SendTo(self.dst, plain_unit(self.key@, self.msg@)),
            ),
    {
        let mut unit = NetMessageUnit::default();
        unit.key = self.key;
        unit.data = self.msg;
        assert(unit@ =~= plain_unit(self.key@, self.msg@));
        only(service.service_ctrl, Action::SendTo(self.dst, unit))
    }
}

} // verus!
