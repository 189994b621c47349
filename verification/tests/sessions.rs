//! Sessions: how they are opened, introduced and lost.
use node_manager::action::Action;
use node_manager::config::ConsensusRule;
use node_manager::init_msg::InitMsg;
use node_manager::manager::{ConnectedInfo, NodesManager};
use node_manager::nodes::AddNodeReq;
use node_manager::sessions::{
    handle_connect_self, handle_repeated_connect, AddConnectedNodeReq, AddRepeatedNodeReq,
    DelConnectedNodeReq, PendingConnectedNodeReq, Vetting,
};
use node_manager::types::{
    same_address, same_socket, socket_v4, NodeSource, NodeStatus, SessionInfo, SessionType,
    SocketAddr,
};
use std::collections::BTreeSet;

const ME: (u128, u32) = (0, 1);
const PEER: (u128, u32) = (5, 2);

fn manager() -> NodesManager {
    let rule = ConsensusRule { marker: "consensus".to_string(), ttl: 9 };
    let mut m = NodesManager::new(ME, rule);
    m.set_service_task_sender();
    m
}

fn addr(n: u32) -> SocketAddr {
    socket_v4(n, 4000)
}

fn know(m: &mut NodesManager, n: u32, score: i32, session: Option<usize>) {
    m.known_addrs.insert(addr(n), NodeStatus::new(score, session, NodeSource::FromDiscovery));
}

fn msg(peer_key: (u128, u32)) -> InitMsg {
    InitMsg { chain_id: 0, peer_key, node_crt: None }
}

fn closed(actions: &[Action]) -> Vec<usize> {
    actions
        .iter()
        .map(|a| match a {
            Action::Disconnect(id) => *id,
            _ => panic!("another action"),
        })
        .collect()
}

fn linked(m: &NodesManager) -> BTreeSet<(u128, u32)> {
    m.consensus_topology.linked_nodes.clone()
}

/// A peer that was dialed at `addr(1)` and has introduced itself on session 7.
fn connected() -> NodesManager {
    let mut m = manager();
    know(&mut m, 1, 100, None);
    m.dialing_node = Some(addr(1));
    let r = PendingConnectedNodeReq::new(7, addr(1), SessionType::Outbound).handle(&mut m);
    assert!(r.is_empty());
    let r = AddConnectedNodeReq::new(7, SessionType::Outbound, msg(PEER)).handle(&mut m);
    assert!(r.is_empty());
    m
}

#[test]
fn a_dialed_peer_is_connected() {
    let m = connected();
    assert_eq!(m.connected_peer_keys.get(&PEER), Some(&7));
    assert_eq!(m.connected_addrs[&7].conn_addr, addr(1));
    assert_eq!(m.connected_addrs[&7].trans_addr, None);
    assert!(m.connected_addrs[&7].node_crt.is_none());
    assert!(m.pending_connected_addrs.is_empty());
    assert_eq!(m.known_addrs[&addr(1)].score, 110);
    assert_eq!(m.known_addrs[&addr(1)].session_id, Some(7));
    assert_eq!(m.dialing_node, None);
    assert_eq!(linked(&m), [ME, PEER].into_iter().collect());
}

#[test]
fn a_peer_that_dialed_is_connected_without_a_score() {
    let mut m = manager();
    know(&mut m, 1, 100, None);
    m.dialing_node = Some(addr(9));
    PendingConnectedNodeReq::new(7, addr(1), SessionType::Inbound).handle(&mut m);
    AddConnectedNodeReq::new(7, SessionType::Inbound, msg(PEER)).handle(&mut m);
    assert_eq!(m.connected_peer_keys.get(&PEER), Some(&7));
    assert_eq!(m.known_addrs[&addr(1)], NodeStatus::new(100, None, NodeSource::FromDiscovery));
    assert_eq!(m.dialing_node, Some(addr(9)));
}

#[test]
fn an_introduction_without_an_opened_session_adds_only_the_peer() {
    let mut m = manager();
    let r = AddConnectedNodeReq::new(7, SessionType::Outbound, msg(PEER)).handle(&mut m);
    assert!(r.is_empty());
    assert_eq!(m.connected_peer_keys.get(&PEER), Some(&7));
    assert!(m.connected_addrs.is_empty());
}

#[test]
fn an_introduction_keeps_the_address_that_was_noted_before() {
    let mut m = manager();
    know(&mut m, 3, 60, None);
    AddRepeatedNodeReq::new(addr(3), 7).handle(&mut m);
    PendingConnectedNodeReq::new(7, addr(1), SessionType::Inbound).handle(&mut m);
    AddConnectedNodeReq::new(7, SessionType::Inbound, msg(PEER)).handle(&mut m);
    assert_eq!(m.connected_addrs[&7].conn_addr, addr(1));
    assert_eq!(m.connected_addrs[&7].trans_addr, Some(addr(3)));
}

#[test]
fn a_second_session_of_a_peer_is_closed_and_booked() {
    let mut m = connected();
    know(&mut m, 2, 70, None);
    m.dialing_node = Some(addr(2));
    PendingConnectedNodeReq::new(8, addr(2), SessionType::Outbound).handle(&mut m);
    let r = AddConnectedNodeReq::new(8, SessionType::Outbound, msg(PEER)).handle(&mut m);
    assert_eq!(closed(&r), vec![8]);
    assert_eq!(m.connected_peer_keys.get(&PEER), Some(&7));
    assert_eq!(m.known_addrs[&addr(2)].score, 80);
    assert_eq!(m.known_addrs[&addr(2)].session_id, Some(7));
    assert_eq!(m.connected_addrs[&7].trans_addr, Some(addr(2)));
    assert_eq!(m.connected_addrs.len(), 1);
    assert_eq!(m.dialing_node, None);
    assert!(m.pending_connected_addrs.contains_key(&8));
}

#[test]
fn a_second_session_that_the_peer_opened_is_closed() {
    let mut m = connected();
    know(&mut m, 2, 70, None);
    m.dialing_node = Some(addr(2));
    let r = AddConnectedNodeReq::new(8, SessionType::Inbound, msg(PEER)).handle(&mut m);
    assert_eq!(closed(&r), vec![8]);
    assert_eq!(m.known_addrs[&addr(2)].score, 70);
    assert_eq!(m.connected_addrs[&7].trans_addr, None);
    assert_eq!(m.dialing_node, Some(addr(2)));
}

#[test]
fn repeated_sessions_are_told_from_new_ones() {
    let mut m = connected();
    let mut actions = Vec::new();
    assert!(handle_repeated_connect(9, SessionType::Inbound, PEER, &mut m, &mut actions));
    assert!(!handle_repeated_connect(9, SessionType::Inbound, (6, 6), &mut m, &mut actions));
    assert_eq!(closed(&actions), vec![9]);
    m.service_ctrl = false;
    let mut none = Vec::new();
    assert!(handle_repeated_connect(9, SessionType::Inbound, PEER, &mut m, &mut none));
    assert!(none.is_empty());
}

#[test]
fn a_session_to_the_node_itself_is_closed() {
    let mut m = manager();
    m.dialing_node = Some(addr(4));
    know(&mut m, 4, 100, None);
    let r = AddConnectedNodeReq::new(8, SessionType::Outbound, msg(ME)).handle(&mut m);
    assert_eq!(closed(&r), vec![8]);
    assert_eq!(m.self_addr, Some(addr(4)));
    assert_eq!(m.dialing_node, None);
    assert!(m.connected_peer_keys.is_empty());
    let r = AddConnectedNodeReq::new(9, SessionType::Inbound, msg(ME)).handle(&mut m);
    assert_eq!(closed(&r), vec![9]);
    assert_eq!(m.self_addr, Some(addr(4)));
    assert!(m.dial_nodes(&vec![]).is_empty());
}

#[test]
fn the_node_itself_is_told_from_others() {
    let mut m = manager();
    let mut actions = Vec::new();
    assert!(!handle_connect_self(3, PEER, &mut m, &mut actions));
    assert!(actions.is_empty());
    assert!(handle_connect_self(3, ME, &mut m, &mut actions));
    assert_eq!(closed(&actions), vec![3]);
    assert_eq!(m.self_addr, None);
    m.dialing_node = Some(addr(1));
    assert!(handle_connect_self(4, ME, &mut m, &mut actions));
    assert_eq!(closed(&actions), vec![3, 4]);
    assert_eq!(m.self_addr, Some(addr(1)));
    m.service_ctrl = false;
    assert!(handle_connect_self(5, ME, &mut m, &mut actions));
    assert_eq!(actions.len(), 2);
}

#[test]
fn a_refused_certificate_closes_the_session() {
    let mut m = manager();
    PendingConnectedNodeReq::new(7, addr(1), SessionType::Inbound).handle(&mut m);
    let r =
        AddConnectedNodeReq::introduce(7, SessionType::Inbound, PEER, Vetting::Refused, &mut m);
    assert_eq!(closed(&r), vec![7]);
    assert!(m.connected_addrs[&7].node_crt.is_none());
    assert_eq!(m.connected_peer_keys.get(&PEER), Some(&7));
}

#[test]
fn in_ca_mode_a_peer_without_certificate_is_closed() {
    let mut m = manager();
    m.enable_ca = true;
    let r = AddConnectedNodeReq::new(7, SessionType::Inbound, msg(PEER)).handle(&mut m);
    assert_eq!(closed(&r), vec![7]);
}

#[test]
fn losing_a_session_undoes_its_introduction() {
    let mut m = connected();
    DelConnectedNodeReq::new(7).handle(&mut m);
    assert!(m.connected_addrs.is_empty());
    assert!(m.connected_peer_keys.is_empty());
    assert!(m.pending_connected_addrs.is_empty());
    assert_eq!(linked(&m), [ME].into_iter().collect());
    assert_eq!(m.known_addrs[&addr(1)], NodeStatus::new(90, None, NodeSource::FromDiscovery));
}

#[test]
fn the_end_of_a_session_is_paid_by_the_address_it_is_known_under() {
    let mut m = manager();
    know(&mut m, 1, 100, Some(7));
    know(&mut m, 2, 100, Some(7));
    know(&mut m, 3, 100, Some(8));
    m.connected_addrs.insert(7, ConnectedInfo::new(addr(1), Some(addr(2)), None));
    m.connected_addrs.insert(6, ConnectedInfo::new(addr(3), None, None));
    DelConnectedNodeReq::new(7).handle(&mut m);
    assert_eq!(m.known_addrs[&addr(1)], NodeStatus::new(100, Some(7), NodeSource::FromDiscovery));
    assert_eq!(m.known_addrs[&addr(2)], NodeStatus::new(80, None, NodeSource::FromDiscovery));
    DelConnectedNodeReq::new(6).handle(&mut m);
    assert_eq!(m.known_addrs[&addr(3)], NodeStatus::new(100, Some(8), NodeSource::FromDiscovery));
}

#[test]
fn of_two_accounts_on_a_session_the_first_leaves_with_it() {
    let mut m = manager();
    m.connected_addrs.insert(7, ConnectedInfo::new(addr(1), None, None));
    for key in [(9, 0), (3, 5), (3, 4)] {
        m.connected_peer_keys.insert(key, 7);
        m.consensus_topology.add_linked_nodes(key);
    }
    DelConnectedNodeReq::new(7).handle(&mut m);
    let left: Vec<(u128, u32)> = m.connected_peer_keys.keys().cloned().collect();
    assert_eq!(left, vec![(3, 5), (9, 0)]);
    assert_eq!(linked(&m), [ME, (3, 5), (9, 0)].into_iter().collect());
}

#[test]
fn a_dial_whose_session_ends_early_is_over() {
    let mut m = manager();
    know(&mut m, 1, 90, Some(7));
    m.dialing_node = Some(addr(1));
    m.pending_connected_addrs.insert(7, SessionInfo::new(SessionType::Outbound, addr(1)));
    m.pending_connected_addrs.insert(8, SessionInfo::new(SessionType::Inbound, addr(1)));
    DelConnectedNodeReq::new(8).handle(&mut m);
    assert_eq!(m.dialing_node, Some(addr(1)));
    DelConnectedNodeReq::new(7).handle(&mut m);
    assert_eq!(m.dialing_node, None);
    assert_eq!(m.known_addrs[&addr(1)], NodeStatus::new(70, None, NodeSource::FromDiscovery));
    assert!(m.pending_connected_addrs.is_empty());
}

#[test]
fn a_dialed_session_that_is_refused_costs_twenty() {
    let mut m = manager();
    AddNodeReq::new(addr(1), NodeSource::FromDiscovery).handle(&mut m);
    m.dialing_node = Some(addr(1));
    PendingConnectedNodeReq::new(1, addr(1), SessionType::Outbound).handle(&mut m);
    DelConnectedNodeReq::new(1).handle(&mut m);
    assert_eq!(m.known_addrs[&addr(1)], NodeStatus::new(80, None, NodeSource::FromDiscovery));
    assert!(m.pending_connected_addrs.is_empty());
    assert_eq!(m.dialing_node, None);
}

#[test]
fn a_session_that_the_peer_opened_and_gave_up_costs_nothing() {
    let mut m = manager();
    AddNodeReq::new(addr(1), NodeSource::FromDiscovery).handle(&mut m);
    PendingConnectedNodeReq::new(1, addr(1), SessionType::Inbound).handle(&mut m);
    DelConnectedNodeReq::new(1).handle(&mut m);
    assert_eq!(m.known_addrs[&addr(1)].score, 100);
}

#[test]
fn the_end_of_a_repeated_session_refuses_nothing() {
    let mut m = connected();
    know(&mut m, 2, 70, None);
    m.dialing_node = Some(addr(2));
    PendingConnectedNodeReq::new(8, addr(2), SessionType::Outbound).handle(&mut m);
    AddConnectedNodeReq::new(8, SessionType::Outbound, msg(PEER)).handle(&mut m);
    DelConnectedNodeReq::new(8).handle(&mut m);
    assert_eq!(m.known_addrs[&addr(2)], NodeStatus::new(80, Some(7), NodeSource::FromDiscovery));
    assert!(m.pending_connected_addrs.is_empty());
}

#[test]
fn an_address_pays_once_for_the_end_of_a_session() {
    let mut m = manager();
    know(&mut m, 1, 100, Some(7));
    m.connected_addrs.insert(7, ConnectedInfo::new(addr(9), Some(addr(1)), None));
    m.pending_connected_addrs.insert(7, SessionInfo::new(SessionType::Outbound, addr(1)));
    DelConnectedNodeReq::new(7).handle(&mut m);
    assert_eq!(m.known_addrs[&addr(1)], NodeStatus::new(80, None, NodeSource::FromDiscovery));
}

#[test]
fn an_unknown_session_can_end() {
    let mut m = connected();
    DelConnectedNodeReq::new(99).handle(&mut m);
    assert_eq!(m.connected_addrs.len(), 1);
    assert_eq!(m.known_addrs[&addr(1)].score, 110);
}

#[test]
fn a_full_manager_refuses_sessions() {
    let mut m = connected();
    m.max_connects = 1;
    let r = PendingConnectedNodeReq::new(8, addr(2), SessionType::Inbound).handle(&mut m);
    assert_eq!(closed(&r), vec![8]);
    assert!(m.pending_connected_addrs.is_empty());
    m.service_ctrl = false;
    let r = PendingConnectedNodeReq::new(8, addr(2), SessionType::Inbound).handle(&mut m);
    assert!(r.is_empty());
    m.max_connects = 2;
    let r = PendingConnectedNodeReq::new(8, addr(2), SessionType::Inbound).handle(&mut m);
    assert!(r.is_empty());
    assert_eq!(m.pending_connected_addrs[&8].addr, addr(2));
    assert_eq!(m.pending_connected_addrs[&8].ty, SessionType::Inbound);
}

#[test]
fn a_dial_to_a_connected_node_is_booked() {
    let mut m = connected();
    know(&mut m, 2, 60, None);
    m.dialing_node = Some(addr(2));
    AddRepeatedNodeReq::new(addr(2), 7).handle(&mut m);
    assert_eq!(m.known_addrs[&addr(2)], NodeStatus::new(70, Some(7), NodeSource::FromDiscovery));
    assert_eq!(m.connected_addrs[&7].conn_addr, addr(1));
    assert_eq!(m.connected_addrs[&7].trans_addr, Some(addr(2)));
    assert_eq!(m.dialing_node, None);
}

#[test]
fn a_dial_to_a_session_that_is_not_yet_open_opens_it() {
    let mut m = manager();
    know(&mut m, 2, 60, None);
    AddRepeatedNodeReq::new(addr(2), 7).handle(&mut m);
    assert_eq!(m.connected_addrs[&7].conn_addr, socket_v4(0, 0));
    assert_eq!(m.connected_addrs[&7].trans_addr, Some(addr(2)));
    m.dialing_node = Some(addr(3));
    AddRepeatedNodeReq::new(addr(3), 9).handle(&mut m);
    assert_eq!(m.connected_addrs.len(), 1);
    assert_eq!(m.dialing_node, None);
}

#[test]
fn a_short_session_costs_ten() {
    let mut m = connected();
    let before = 100;
    DelConnectedNodeReq::new(7).handle(&mut m);
    assert_eq!(m.known_addrs[&addr(1)].score, before - 10);
}

#[test]
fn addresses_are_compared_by_all_their_parts() {
    let a = (true, 1, 2, 3, 4);
    assert!(same_socket(a, a));
    assert!(!same_socket(a, (false, 1, 2, 3, 4)));
    assert!(!same_socket(a, (true, 1, 2, 3, 5)));
    assert!(!same_socket(a, (true, 1, 2, 9, 4)));
    assert!(!same_socket(a, (true, 1, 9, 3, 4)));
    assert!(!same_socket(a, (true, 9, 2, 3, 4)));
    assert!(same_address((1, 2), (1, 2)));
    assert!(!same_address((1, 2), (1, 3)) && !same_address((1, 2), (3, 2)));
}
