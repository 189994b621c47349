//! Messages, and those that cannot be handled.
use node_manager::action::{Action, NetMessageUnit};
use node_manager::client::NodesManagerClient;
use node_manager::config::ConsensusRule;
use node_manager::gossip::{BroadcastReq, RetransNetMsgReq, SingleTxReq};
use node_manager::init_msg::InitMsg;
use node_manager::manager::{ConnectedInfo, NodesManager};
use node_manager::message::{NodesManagerMessage, Outcome};
use node_manager::nodes::{
    AddNodeReq, GetPeerCountReq, GetPeersInfoReq, GetRandomNodesReq, ModifiedConfigPeersReq,
};
use node_manager::revocation::{DealRichStatusReq, RichStatus, UpdateCrlReq};
use node_manager::sessions::{
    AddConnectedNodeReq, AddRepeatedNodeReq, ConnectedSelfReq, DelConnectedNodeReq,
    DialedErrorReq, NetworkInitReq, PendingConnectedNodeReq,
};
use node_manager::types::{
    socket_v4, NodeSource, NodeStatus, SessionInfo, SessionType, SocketAddr,
};

const ME: (u128, u32) = (0, 1);
const PEER: (u128, u32) = (5, 2);

fn manager() -> NodesManager {
    let rule = ConsensusRule { marker: "consensus".to_string(), ttl: 9 };
    let mut m = NodesManager::new(ME, rule);
    m.set_service_task_sender();
    m
}

fn addr(n: u32) -> SocketAddr {
    socket_v4(n, 4000)
}

fn know(m: &mut NodesManager, n: u32, score: i32, session: Option<usize>) {
    m.known_addrs.insert(addr(n), NodeStatus::new(score, session, NodeSource::FromDiscovery));
}

fn account(n: u8) -> Vec<u8> {
    let mut bytes = vec![0; 20];
    bytes[19] = n;
    bytes
}

fn status(height: u64, validators: Vec<Vec<u8>>) -> NodesManagerMessage {
    NodesManagerMessage::DealRichStatus(DealRichStatusReq::new(RichStatus { height, validators }))
}

fn actions(m: &mut NodesManager, msg: NodesManagerMessage) -> Vec<Action> {
    match m.deliver(msg) {
        Some(Outcome::Actions(list)) => list,
        Some(_) => panic!("an answer"),
        None => panic!("not handled"),
    }
}

fn introduction(session: usize, ty: SessionType, peer_key: (u128, u32)) -> NodesManagerMessage {
    let msg = InitMsg { chain_id: 0, peer_key, node_crt: None };
    NodesManagerMessage::AddConnectedNode(AddConnectedNodeReq::new(session, ty, msg))
}

#[test]
fn every_message_reaches_its_handler() {
    let mut m = manager();
    let add = AddNodeReq::new(addr(1), NodeSource::FromConfig);
    assert!(actions(&mut m, NodesManagerMessage::AddNodeReq(add)).is_empty());
    assert_eq!(m.known_addrs[&addr(1)].score, 100);

    m.dialing_node = Some(addr(1));
    let failed = DialedErrorReq::new(addr(1));
    assert!(actions(&mut m, NodesManagerMessage::DialedErrorReq(failed)).is_empty());
    assert_eq!(m.known_addrs[&addr(1)].score, 75);

    let own = ConnectedSelfReq::new(addr(9));
    assert!(actions(&mut m, NodesManagerMessage::ConnectedSelf(own)).is_empty());
    assert_eq!(m.self_addr, Some(addr(9)));

    let pending = PendingConnectedNodeReq::new(7, addr(1), SessionType::Outbound);
    assert!(actions(&mut m, NodesManagerMessage::PendingConnectedNodeReq(pending)).is_empty());
    assert!(m.pending_connected_addrs.contains_key(&7));

    assert!(actions(&mut m, introduction(7, SessionType::Outbound, PEER)).is_empty());
    assert_eq!(m.connected_peer_keys.get(&PEER), Some(&7));
    assert_eq!(m.known_addrs[&addr(1)].score, 85);

    let repeated = AddRepeatedNodeReq::new(addr(1), 7);
    assert!(actions(&mut m, NodesManagerMessage::AddRepeatedNode(repeated)).is_empty());
    assert_eq!(m.known_addrs[&addr(1)].score, 95);

    let question = NodesManagerMessage::GetPeerCount(GetPeerCountReq::new());
    assert!(matches!(m.deliver(question), Some(Outcome::PeerCount(1))));

    let question = NodesManagerMessage::GetPeersInfo(GetPeersInfoReq::new());
    match m.deliver(question) {
        Some(Outcome::PeersInfo(info)) => assert_eq!(info[&PEER], (false, 1)),
        _ => panic!("no answer"),
    }

    let question = NodesManagerMessage::GetRandomNodesReq(GetRandomNodesReq::new(3));
    match m.deliver(question) {
        Some(Outcome::RandomNodes(list)) => assert_eq!(list, vec![addr(1)]),
        _ => panic!("no answer"),
    }

    let init = NodesManagerMessage::NetworkInit(NetworkInitReq::new(7));
    assert!(matches!(actions(&mut m, init)[..], [Action::SendTo(7, _)]));

    let single = NodesManagerMessage::SingleTxReq(SingleTxReq::new(7, "k".to_string(), vec![]));
    assert!(matches!(actions(&mut m, single)[..], [Action::SendTo(7, _)]));

    let own = NodesManagerMessage::Broadcast(BroadcastReq::new("k".to_string(), vec![]));
    assert!(matches!(actions(&mut m, own)[..], [Action::Broadcast(_)]));
    assert_eq!(m.self_version, 1);

    let unit = NetMessageUnit::default();
    let seen = NodesManagerMessage::RetransNetMsg(RetransNetMsgReq::new(unit, 7));
    match &actions(&mut m, seen)[..] {
        [Action::Multicast(ids, _)] => assert!(ids.is_empty()),
        _ => panic!("another action"),
    }

    assert!(actions(&mut m, status(1, vec![account(1)])).is_empty());
    assert!(m.consensus_topology.consensus_all_linked());

    let list = ModifiedConfigPeersReq::new(vec!["h:1".to_string()]);
    assert!(actions(&mut m, NodesManagerMessage::ModifiedConfigPeers(list)).is_empty());
    assert_eq!(m.names_to_translate(), vec!["h:1"]);

    let crl = NodesManagerMessage::UpdateCrl(UpdateCrlReq::new(vec![PEER]));
    assert!(actions(&mut m, crl).is_empty());
    assert_eq!(m.crl, vec![PEER]);

    let lost = NodesManagerMessage::DelConnectedNodeReq(DelConnectedNodeReq::new(7));
    assert!(actions(&mut m, lost).is_empty());
    assert!(m.connected_peer_keys.is_empty());
}

#[test]
fn every_request_is_sent_as_its_message() {
    let c = NodesManagerClient::new();
    let unit = NetMessageUnit::default();
    let msg = InitMsg::default();
    let status = RichStatus { height: 0, validators: vec![] };
    let own = SessionType::Outbound;
    type Msg = NodesManagerMessage;
    let found = AddNodeReq::new(addr(1), NodeSource::FromConfig);
    assert!(matches!(c.add_node(found), Msg::AddNodeReq(_)));
    assert!(matches!(c.dialed_error(DialedErrorReq::new(addr(1))), Msg::DialedErrorReq(_)));
    assert!(matches!(c.connected_self(ConnectedSelfReq::new(addr(1))), Msg::ConnectedSelf(_)));
    assert!(matches!(c.get_random_nodes(GetRandomNodesReq::new(1)), Msg::GetRandomNodesReq(_)));
    let pending = PendingConnectedNodeReq::new(1, addr(1), own);
    assert!(matches!(c.pending_connected_node(pending), Msg::PendingConnectedNodeReq(_)));
    let lost = DelConnectedNodeReq::new(1);
    assert!(matches!(c.del_connected_node(lost), Msg::DelConnectedNodeReq(_)));
    let repeated = AddRepeatedNodeReq::new(addr(1), 1);
    assert!(matches!(c.add_repeated_node(repeated), Msg::AddRepeatedNode(_)));
    assert!(matches!(c.broadcast(BroadcastReq::new("k".to_string(), vec![])), Msg::Broadcast(_)));
    assert!(matches!(c.retrans_net_msg(RetransNetMsgReq::new(unit, 1)), Msg::RetransNetMsg(_)));
    let single = SingleTxReq::new(1, "k".to_string(), vec![]);
    assert!(matches!(c.send_message(single), Msg::SingleTxReq(_)));
    assert!(matches!(c.get_peer_count(GetPeerCountReq::new()), Msg::GetPeerCount(_)));
    assert!(matches!(c.get_peers_info(GetPeersInfoReq::new()), Msg::GetPeersInfo(_)));
    assert!(matches!(c.network_init(NetworkInitReq::new(1)), Msg::NetworkInit(_)));
    let introduced = AddConnectedNodeReq::new(1, own, msg);
    assert!(matches!(c.add_connected_node(introduced), Msg::AddConnectedNode(_)));
    let list = ModifiedConfigPeersReq::new(vec![]);
    assert!(matches!(c.fix_modified_config(list), Msg::ModifiedConfigPeers(_)));
    assert!(matches!(c.deal_rich_status(DealRichStatusReq::new(status)), Msg::DealRichStatus(_)));
    assert!(matches!(c.update_crl(UpdateCrlReq::new(vec![])), Msg::UpdateCrl(_)));
}

#[test]
fn scores_that_cannot_fall_further_are_not_booked() {
    let mut m = manager();
    know(&mut m, 1, i32::MIN + 24, None);
    let failed = NodesManagerMessage::DialedErrorReq(DialedErrorReq::new(addr(1)));
    assert!(!m.admits(&failed));
    assert!(m.deliver(failed).is_none());
    assert_eq!(m.known_addrs[&addr(1)].score, i32::MIN + 24);
    know(&mut m, 1, i32::MIN + 25, None);
    let failed = NodesManagerMessage::DialedErrorReq(DialedErrorReq::new(addr(1)));
    assert!(m.deliver(failed).is_some());
    assert_eq!(m.known_addrs[&addr(1)].score, i32::MIN);
}

#[test]
fn scores_that_cannot_rise_further_are_not_booked() {
    let mut m = manager();
    know(&mut m, 1, i32::MAX - 9, None);
    let repeated = NodesManagerMessage::AddRepeatedNode(AddRepeatedNodeReq::new(addr(1), 7));
    assert!(m.deliver(repeated).is_none());
    m.pending_connected_addrs.insert(7, SessionInfo::new(SessionType::Outbound, addr(1)));
    assert!(m.deliver(introduction(7, SessionType::Outbound, PEER)).is_none());
    assert!(m.connected_peer_keys.is_empty());
    assert!(m.deliver(introduction(7, SessionType::Inbound, PEER)).is_some());
    m.dialing_node = Some(addr(1));
    assert!(m.deliver(introduction(8, SessionType::Outbound, PEER)).is_none());
    assert!(m.deliver(introduction(8, SessionType::Inbound, PEER)).is_some());
    assert!(m.deliver(introduction(8, SessionType::Outbound, ME)).is_some());
}

#[test]
fn the_end_of_a_session_that_cannot_be_paid_is_not_booked() {
    let mut m = manager();
    know(&mut m, 1, i32::MIN + 19, Some(7));
    know(&mut m, 2, i32::MIN + 19, Some(3));
    m.connected_addrs.insert(7, ConnectedInfo::new(addr(5), Some(addr(1)), None));
    let lost = || NodesManagerMessage::DelConnectedNodeReq(DelConnectedNodeReq::new(7));
    assert!(m.deliver(lost()).is_none());
    assert_eq!(m.connected_addrs.len(), 1);
    m.connected_addrs.insert(7, ConnectedInfo::new(addr(2), None, None));
    m.pending_connected_addrs.insert(7, SessionInfo::new(SessionType::Outbound, addr(1)));
    assert!(m.deliver(lost()).is_none());
    m.pending_connected_addrs.insert(7, SessionInfo::new(SessionType::Inbound, addr(1)));
    assert!(m.deliver(lost()).is_some());
    assert!(m.connected_addrs.is_empty());
    know(&mut m, 1, i32::MIN + 19, None);
    m.pending_connected_addrs.insert(7, SessionInfo::new(SessionType::Outbound, addr(1)));
    assert!(m.deliver(lost()).is_none());
    know(&mut m, 1, i32::MIN + 20, None);
    assert!(m.deliver(lost()).is_some());
    assert_eq!(m.known_addrs[&addr(1)].score, i32::MIN);
}

#[test]
fn the_last_number_is_not_used() {
    let mut m = manager();
    m.self_version = u64::MAX - 1;
    let own = || NodesManagerMessage::Broadcast(BroadcastReq::new("k".to_string(), vec![]));
    assert!(m.deliver(own()).is_some());
    assert_eq!(m.self_version, u64::MAX);
    assert!(m.deliver(own()).is_none());
}

#[test]
fn validators_without_account_addresses_are_not_taken_in() {
    let mut m = manager();
    assert!(m.deliver(status(1, vec![account(1), vec![0; 19]])).is_none());
    assert!(m.consensus_topology.validator_nodes.is_empty());
    assert!(m.deliver(status(1, vec![account(3), account(2), account(3)])).is_some());
    assert_eq!(
        m.consensus_topology.validator_nodes,
        [(0, 2), (0, 3)].into_iter().collect()
    );
    assert!(m.deliver(status(1, vec![])).is_some());
}

#[test]
fn the_revocation_list_is_asked_for_once_a_period() {
    let mut m = manager();
    m.service_ctrl = false;
    assert!(actions(&mut m, status(500, vec![])).is_empty());
    m.enable_ca = true;
    assert!(actions(&mut m, status(100, vec![])).is_empty());
    match &actions(&mut m, status(101, vec![]))[..] {
        [Action::GetCrl(request)] => {
            assert_eq!(request.request_id.len(), 16);
            let call = request.call.as_ref().unwrap();
            assert_eq!(call.data, vec![0x59, 0xfc, 0x54, 0xd5]);
        }
        _ => panic!("another action"),
    }
    assert_eq!(m.get_crl_point, 101);
    assert!(actions(&mut m, status(201, vec![])).is_empty());
    assert_eq!(actions(&mut m, status(202, vec![])).len(), 1);
    assert_eq!(m.get_crl_point, 202);
    assert!(m.deliver(status(201, vec![])).is_none());
}

#[test]
fn linked_nodes_are_the_peers_and_the_node() {
    let mut m = manager();
    for (n, key) in [(1, (7, 7)), (2, (8, 8)), (3, (7, 7)), (4, ME)] {
        let session = n as usize;
        let pending = PendingConnectedNodeReq::new(session, addr(n), SessionType::Inbound);
        m.deliver(NodesManagerMessage::PendingConnectedNodeReq(pending));
        m.deliver(introduction(session, SessionType::Inbound, key));
    }
    m.deliver(NodesManagerMessage::DelConnectedNodeReq(DelConnectedNodeReq::new(2)));
    let mut expected: std::collections::BTreeSet<(u128, u32)> =
        m.connected_peer_keys.keys().cloned().collect();
    assert_eq!(expected, [(7, 7)].into_iter().collect());
    expected.insert(ME);
    assert_eq!(m.consensus_topology.linked_nodes, expected);
}

#[test]
fn a_peer_with_an_unreadable_certificate_is_not_handled_in_ca_mode() {
    let mut m = manager();
    let unreadable = |session| {
        let msg = InitMsg { chain_id: 0, peer_key: PEER, node_crt: Some(vec![1, 2, 3]) };
        NodesManagerMessage::AddConnectedNode(AddConnectedNodeReq::new(
            session,
            SessionType::Inbound,
            msg,
        ))
    };
    m.enable_ca = true;
    assert!(m.deliver(unreadable(7)).is_none());
    m.enable_ca = false;
    assert!(m.deliver(unreadable(7)).is_some());
    m.enable_ca = true;
    assert_eq!(actions(&mut m, unreadable(8)).len(), 1);
}
