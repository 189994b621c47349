//! Rounds of dialing and scores.
use node_manager::action::Action;
use node_manager::config::ConsensusRule;
use node_manager::manager::{ConnectedInfo, NodesManager};
use node_manager::nodes::AddNodeReq;
use node_manager::sessions::{ConnectedSelfReq, DialedErrorReq};
use node_manager::types::{socket_v4, NodeSource, NodeStatus, SocketAddr};

fn manager() -> NodesManager {
    let rule = ConsensusRule { marker: "consensus".to_string(), ttl: 9 };
    let mut m = NodesManager::new((0, 1), rule);
    m.set_service_task_sender();
    m
}

fn addr(n: u32) -> SocketAddr {
    socket_v4(n, 4000)
}

fn know(m: &mut NodesManager, n: u32, score: i32, session: Option<usize>, src: NodeSource) {
    m.known_addrs.insert(addr(n), NodeStatus::new(score, session, src));
}

fn score(m: &NodesManager, n: u32) -> i32 {
    m.known_addrs[&addr(n)].score
}

fn dialed(actions: &[Action]) -> Option<SocketAddr> {
    assert!(actions.len() <= 1);
    match actions.first() {
        Some(Action::Dial(addr)) => Some(*addr),
        Some(_) => panic!("another action"),
        None => None,
    }
}

#[test]
fn a_round_dials_the_first_that_may_be_dialed() {
    let mut m = manager();
    know(&mut m, 1, 90, Some(4), NodeSource::FromDiscovery);
    know(&mut m, 2, 98, Some(5), NodeSource::FromDiscovery);
    know(&mut m, 3, 59, None, NodeSource::FromConfig);
    know(&mut m, 4, 40, None, NodeSource::FromDiscovery);
    know(&mut m, 5, 100, None, NodeSource::FromDiscovery);
    know(&mut m, 6, 60, None, NodeSource::FromDiscovery);
    know(&mut m, 7, 10, Some(6), NodeSource::FromDiscovery);
    m.self_addr = Some(addr(5));
    let order: Vec<SocketAddr> = (1..8).map(addr).collect();
    let r = m.dial_round(&order);
    assert_eq!(dialed(&r), Some(addr(6)));
    assert_eq!(m.dialing_node, Some(addr(6)));
    let scores: Vec<i32> = (1..8).map(|n| score(&m, n)).collect();
    assert_eq!(scores, vec![95, 100, 61, 41, 100, 60, 15]);
    m.dialed(addr(6), true);
    assert_eq!(score(&m, 6), 50);
}

#[test]
fn a_dial_that_is_not_taken_costs_nothing() {
    let mut m = manager();
    know(&mut m, 1, 100, None, NodeSource::FromDiscovery);
    let r = m.dial_round(&vec![addr(1)]);
    assert_eq!(dialed(&r), Some(addr(1)));
    m.dialed(addr(1), false);
    assert_eq!(score(&m, 1), 100);
    assert_eq!(m.dialing_node, Some(addr(1)));
}

#[test]
fn a_score_just_below_the_least_is_not_dialed() {
    let mut m = manager();
    know(&mut m, 1, 59, None, NodeSource::FromDiscovery);
    assert_eq!(dialed(&m.dial_round(&vec![addr(1)])), None);
    assert_eq!(m.dialing_node, None);
    assert_eq!(dialed(&m.dial_round(&vec![addr(1)])), Some(addr(1)));
}

#[test]
fn a_score_above_the_full_one_falls_to_it_while_connected() {
    let mut m = manager();
    know(&mut m, 1, i32::MAX, Some(1), NodeSource::FromDiscovery);
    assert_eq!(dialed(&m.dial_round(&vec![addr(1)])), None);
    assert_eq!(score(&m, 1), 100);
}

#[test]
fn without_network_layer_nothing_is_dialed() {
    let mut m = manager();
    m.service_ctrl = false;
    know(&mut m, 1, 30, None, NodeSource::FromConfig);
    know(&mut m, 2, 100, None, NodeSource::FromConfig);
    assert_eq!(dialed(&m.dial_round(&vec![addr(1), addr(2)])), None);
    assert_eq!(m.dialing_node, None);
    assert_eq!(score(&m, 1), 32);
}

#[test]
fn a_tick_looks_up_names_and_dials_what_it_found() {
    let mut m = manager();
    m.config_addrs.add("b.example:1".to_string());
    m.config_addrs.add("a.example:1".to_string());
    m.config_addrs.add("c.example:1".to_string());
    assert_eq!(m.names_to_translate(), vec!["a.example:1", "b.example:1", "c.example:1"]);
    let r = m.dial_nodes(&vec![None, Some(addr(1)), None]);
    assert_eq!(dialed(&r), Some(addr(1)));
    assert_eq!(m.config_addrs.get("b.example:1"), Some(Some(addr(1))));
    assert_eq!(m.config_addrs.get("a.example:1"), Some(None));
    assert_eq!(
        m.known_addrs[&addr(1)],
        NodeStatus::new(100, None, NodeSource::FromConfig)
    );
    m.dialing_node = None;
    assert_eq!(m.names_to_translate(), vec!["a.example:1", "c.example:1"]);
}

#[test]
fn a_name_that_is_looked_up_makes_its_address_known_anew() {
    let mut m = manager();
    know(&mut m, 1, 3, Some(9), NodeSource::FromDiscovery);
    m.config_addrs.add("a:1".to_string());
    m.translate_address(&vec![Some(addr(1))]);
    assert_eq!(
        m.known_addrs[&addr(1)],
        NodeStatus::new(100, None, NodeSource::FromConfig)
    );
}

#[test]
fn nothing_is_dialed_while_a_dial_is_under_way() {
    let mut m = manager();
    m.config_addrs.add("a:1".to_string());
    know(&mut m, 1, 100, None, NodeSource::FromDiscovery);
    m.dialing_node = Some(addr(2));
    assert_eq!(m.names_to_translate(), Vec::<String>::new());
    assert_eq!(dialed(&m.dial_nodes(&vec![])), None);
    assert_eq!(m.dialing_node, Some(addr(2)));
    assert_eq!(score(&m, 1), 100);
}

#[test]
fn while_there_are_enough_sessions_nodes_rest_and_none_is_dialed() {
    let mut m = manager();
    m.max_connects = 1;
    m.connected_addrs.insert(1, ConnectedInfo::new(addr(2), None, None));
    know(&mut m, 1, 100, None, NodeSource::FromDiscovery);
    know(&mut m, 2, 90, Some(1), NodeSource::FromDiscovery);
    know(&mut m, 3, 20, None, NodeSource::FromConfig);
    know(&mut m, 4, 20, None, NodeSource::FromDiscovery);
    assert_eq!(dialed(&m.dial_nodes(&vec![])), None);
    let scores: Vec<i32> = (1..5).map(|n| score(&m, n)).collect();
    assert_eq!(scores, vec![100, 95, 22, 21]);
    assert_eq!(m.dialing_node, None);
}

#[test]
fn some_node_is_dialed_in_every_round_and_orders_differ() {
    let mut first = std::collections::BTreeSet::new();
    for _ in 0..200 {
        let mut m = manager();
        for n in 1..5 {
            know(&mut m, n, 100, None, NodeSource::FromDiscovery);
        }
        first.insert(dialed(&m.dial_nodes(&vec![])).unwrap());
    }
    assert_eq!(first.len(), 4);
}

#[test]
fn every_connected_node_is_rewarded_whichever_is_dialed() {
    for _ in 0..50 {
        let mut m = manager();
        for n in 1..4 {
            know(&mut m, n, 90, Some(n as usize), NodeSource::FromDiscovery);
        }
        for n in 4..7 {
            know(&mut m, n, 100, None, NodeSource::FromDiscovery);
        }
        assert!(dialed(&m.dial_nodes(&vec![])).is_some());
        let scores: Vec<i32> = (1..7).map(|n| score(&m, n)).collect();
        assert_eq!(scores, vec![95, 95, 95, 100, 100, 100]);
    }
}

#[test]
fn the_order_decides_only_which_node_is_dialed() {
    let scores_after = |order: Vec<SocketAddr>| {
        let mut m = manager();
        know(&mut m, 1, 100, None, NodeSource::FromDiscovery);
        know(&mut m, 2, 50, Some(2), NodeSource::FromDiscovery);
        know(&mut m, 3, 80, None, NodeSource::FromDiscovery);
        let target = dialed(&m.dial_round(&order));
        (target, (1..4).map(|n| score(&m, n)).collect::<Vec<i32>>())
    };
    let (a, b) = (addr(1), addr(3));
    assert_eq!(scores_after(vec![a, addr(2), b]), (Some(a), vec![100, 55, 80]));
    assert_eq!(scores_after(vec![b, addr(2), a]), (Some(b), vec![100, 55, 80]));
}

#[test]
fn a_failed_dial_costs_twenty_five_and_ends() {
    let mut m = manager();
    know(&mut m, 1, 90, None, NodeSource::FromDiscovery);
    m.dialing_node = Some(addr(1));
    DialedErrorReq::new(addr(1)).handle(&mut m);
    assert_eq!(score(&m, 1), 65);
    assert_eq!(m.dialing_node, None);
    m.dialing_node = Some(addr(1));
    DialedErrorReq::new(addr(8)).handle(&mut m);
    assert_eq!(score(&m, 1), 65);
    assert_eq!(m.dialing_node, None);
}

#[test]
fn the_own_address_is_not_dialed_again() {
    let mut m = manager();
    AddNodeReq::new(addr(1), NodeSource::FromDiscovery).handle(&mut m);
    assert_eq!(dialed(&m.dial_nodes(&vec![])), Some(addr(1)));
    ConnectedSelfReq::new(addr(1)).handle(&mut m);
    assert_eq!(m.dialing_node, None);
    assert_eq!(m.self_addr, Some(addr(1)));
    assert_eq!(dialed(&m.dial_nodes(&vec![])), None);
}
