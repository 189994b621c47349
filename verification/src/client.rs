//! Which message each request is sent as.
use vstd::prelude::*;

use crate::gossip::{BroadcastReq, RetransNetMsgReq, SingleTxReq};
use crate::message::NodesManagerMessage;
use crate::nodes::{
    AddNodeReq, GetPeerCountReq, GetPeersInfoReq, GetRandomNodesReq, ModifiedConfigPeersReq,
};
use crate::revocation::{DealRichStatusReq, UpdateCrlReq};
use crate::sessions::{
    AddConnectedNodeReq, AddRepeatedNodeReq, ConnectedSelfReq, DelConnectedNodeReq,
    DialedErrorReq, NetworkInitReq, PendingConnectedNodeReq,
};

verus! {

/// Makes the messages that go to a manager.
#[derive(Clone, Copy)]
pub struct NodesManagerClient {}

impl NodesManagerClient {
    pub fn new() -> (r: Self)
        ensures
            r == (NodesManagerClient {  }),
    {
        NodesManagerClient {  }
    }

    /// The message for an address that was found.
    pub fn add_node(&self, req: AddNodeReq) -> (r: NodesManagerMessage)
        ensures
            r == NodesManagerMessage::AddNodeReq(req),
    {
        NodesManagerMessage::AddNodeReq(req)
    }

    /// The message for a dial that failed.
    pub fn dialed_error(&self, req: DialedErrorReq) -> (r: NodesManagerMessage)
        ensures
            r == NodesManagerMessage::DialedErrorReq(req),
    {
        NodesManagerMessage::DialedErrorReq(req)
    }

    /// The message for a dial that led back to this node.
    pub fn connected_self(&self, req: ConnectedSelfReq) -> (r: NodesManagerMessage)
        ensures
            r == NodesManagerMessage::ConnectedSelf(req),
    {
        NodesManagerMessage::ConnectedSelf(req)
    }

    /// The message for the question for known addresses.
    pub fn get_random_nodes(&self, req: GetRandomNodesReq) -> (r: NodesManagerMessage)
        ensures
            r == NodesManagerMessage::GetRandomNodesReq(req),
    {
        NodesManagerMessage::GetRandomNodesReq(req)
    }

    /// The message for a session that was opened.
    pub fn pending_connected_node(&self, req: PendingConnectedNodeReq) -> (r: NodesManagerMessage)
        ensures
            r == NodesManagerMessage::PendingConnectedNodeReq(req),
    {
        NodesManagerMessage::PendingConnectedNodeReq(req)
    }

    /// The message for a session that ended.
    pub fn del_connected_node(&self, req: DelConnectedNodeReq) -> (r: NodesManagerMessage)
        ensures
            r == NodesManagerMessage::DelConnectedNodeReq(req),
    {
        NodesManagerMessage::DelConnectedNodeReq(req)
    }

    /// The message for a dial to a connected node.
    pub fn add_repeated_node(&self, req: AddRepeatedNodeReq) -> (r: NodesManagerMessage)
        ensures
            r == NodesManagerMessage::AddRepeatedNode(req),
    {
        NodesManagerMessage::AddRepeatedNode(req)
    }

    /// The message for a message to all peers.
    pub fn broadcast(&self, req: BroadcastReq) -> (r: NodesManagerMessage)
        ensures
            r == NodesManagerMessage::Broadcast(req),
    {
        NodesManagerMessage::Broadcast(req)
    }

    /// The message for a message that came in.
    pub fn retrans_net_msg(&self, req: RetransNetMsgReq) -> (r: NodesManagerMessage)
        ensures
            r == NodesManagerMessage::RetransNetMsg(req),
    {
        NodesManagerMessage::RetransNetMsg(req)
    }

    /// The message for a message to one peer.
    pub fn send_message(&self, req: SingleTxReq) -> (r: NodesManagerMessage)
        ensures
            r == NodesManagerMessage::SingleTxReq(req),
    {
        NodesManagerMessage::SingleTxReq(req)
    }

    /// The message for the question for the number of sessions.
    pub fn get_peer_count(&self, req: GetPeerCountReq) -> (r: NodesManagerMessage)
        ensures
            r == NodesManagerMessage::GetPeerCount(req),
    {
        NodesManagerMessage::GetPeerCount(req)
    }

    /// The message for the question for the addresses of the peers.
    pub fn get_peers_info(&self, req: GetPeersInfoReq) -> (r: NodesManagerMessage)
        ensures
            r == NodesManagerMessage::GetPeersInfo(req),
    {
        NodesManagerMessage::GetPeersInfo(req)
    }

    /// The message for a session that waits for an introduction.
    pub fn network_init(&self, req: NetworkInitReq) -> (r: NodesManagerMessage)
        ensures
            r == NodesManagerMessage::NetworkInit(req),
    {
        NodesManagerMessage::NetworkInit(req)
    }

    /// The message for a session that introduced itself.
    pub fn add_connected_node(&self, req: AddConnectedNodeReq) -> (r: NodesManagerMessage)
        ensures
            r == NodesManagerMessage::AddConnectedNode(req),
    {
        NodesManagerMessage::AddConnectedNode(req)
    }

    /// The message for a new list of configured peers.
    pub fn fix_modified_config(&self, req: ModifiedConfigPeersReq) -> (r: NodesManagerMessage)
        ensures
            r == NodesManagerMessage::ModifiedConfigPeers(req),
    {
        NodesManagerMessage::ModifiedConfigPeers(req)
    }

    /// The message for a new block.
    pub fn deal_rich_status(&self, req: DealRichStatusReq) -> (r: NodesManagerMessage)
        ensures
            r == NodesManagerMessage::DealRichStatus(req),
    {
        NodesManagerMessage::DealRichStatus(req)
    }

    /// The message for a new revocation list.
    pub fn update_crl(&self, req: UpdateCrlReq) -> (r: NodesManagerMessage)
        ensures
            r == NodesManagerMessage::UpdateCrl(req),
    {
        NodesManagerMessage::UpdateCrl(req)
    }
}

} // verus!
