//! Messages between nodes.
use node_manager::action::{Action, NetMessageUnit};
use node_manager::config::ConsensusRule;
use node_manager::gossip::{BroadcastReq, RetransNetMsgReq, SingleTxReq};
use node_manager::init_msg::InitMsg;
use node_manager::manager::{ConnectedInfo, NodesManager};
use node_manager::sessions::NetworkInitReq;
use node_manager::types::socket_v4;

const ME: (u128, u32) = (0, 1);
const PEER: (u128, u32) = (0, 2);

fn manager() -> NodesManager {
    let rule = ConsensusRule { marker: "consensus".to_string(), ttl: 9 };
    let mut m = NodesManager::new(ME, rule);
    m.set_service_task_sender();
    for id in [7, 3, 5] {
        m.connected_addrs.insert(id, ConnectedInfo::new(socket_v4(id as u32, 1), None, None));
    }
    m
}

fn unit(version: u64, ttl: u8) -> NetMessageUnit {
    NetMessageUnit {
        key: "net.tx".to_string(),
        data: vec![1, 2],
        addr: PEER,
        version,
        ttl,
    }
}

fn relayed(actions: Vec<Action>) -> Option<(Vec<usize>, u8)> {
    assert!(actions.len() <= 1);
    match actions.into_iter().next() {
        Some(Action::Multicast(ids, unit)) => {
            assert_eq!(unit.key, "net.tx");
            assert_eq!(unit.data, vec![1, 2]);
            assert_eq!(unit.addr, PEER);
            Some((ids, unit.ttl))
        }
        Some(_) => panic!("another action"),
        None => None,
    }
}

#[test]
fn news_go_to_all_other_sessions_once() {
    let mut m = manager();
    let r = RetransNetMsgReq::new(unit(4, 3), 5).handle(&mut m);
    assert_eq!(relayed(r), Some((vec![3, 7], 3)));
    assert_eq!(m.gossip_key_version.get(&PEER), Some(&4));
    let again = RetransNetMsgReq::new(unit(4, 3), 3).handle(&mut m);
    assert_eq!(relayed(again), None);
    let older = RetransNetMsgReq::new(unit(2, 3), 3).handle(&mut m);
    assert_eq!(relayed(older), None);
    assert_eq!(m.gossip_key_version.get(&PEER), Some(&4));
    let newer = RetransNetMsgReq::new(unit(5, 3), 99).handle(&mut m);
    assert_eq!(relayed(newer), Some((vec![3, 5, 7], 3)));
}

#[test]
fn messages_without_a_number_are_always_news_and_forget_it() {
    let mut m = manager();
    RetransNetMsgReq::new(unit(4, 3), 5).handle(&mut m);
    let r = RetransNetMsgReq::new(unit(0, 3), 5).handle(&mut m);
    assert_eq!(relayed(r), Some((vec![3, 7], 3)));
    assert_eq!(m.gossip_key_version.get(&PEER), Some(&0));
    let r = RetransNetMsgReq::new(unit(0, 3), 5).handle(&mut m);
    assert!(relayed(r).is_some());
}

#[test]
fn linked_validators_end_relaying() {
    let mut m = manager();
    m.consensus_topology.update_validators(1, [ME].into_iter().collect());
    let r = RetransNetMsgReq::new(unit(1, 3), 5).handle(&mut m);
    assert_eq!(relayed(r), Some((vec![3, 7], 0)));
    let r = BroadcastReq::new("net.consensus".to_string(), vec![]).handle(&mut m);
    match &r[0] {
        Action::Broadcast(unit) => assert_eq!(unit.ttl, 0),
        _ => panic!("another action"),
    }
}

#[test]
fn without_network_layer_news_are_only_noted() {
    let mut m = manager();
    m.service_ctrl = false;
    let r = RetransNetMsgReq::new(unit(1, 3), 5).handle(&mut m);
    assert_eq!(relayed(r), None);
    assert_eq!(m.gossip_key_version.get(&PEER), Some(&1));
}

#[test]
fn own_messages_are_numbered_and_consensus_is_passed_on() {
    let mut m = manager();
    for (key, version, ttl) in [("net.consensus.msg", 0, 9), ("net.status", 1, 0)] {
        let r = BroadcastReq::new(key.to_string(), vec![8]).handle(&mut m);
        assert_eq!(r.len(), 1);
        match &r[0] {
            Action::Broadcast(unit) => {
                assert_eq!(unit.key, key);
                assert_eq!(unit.data, vec![8]);
                assert_eq!(unit.addr, ME);
                assert_eq!(unit.version, version);
                assert_eq!(unit.ttl, ttl);
            }
            _ => panic!("another action"),
        }
    }
    assert_eq!(m.self_version, 2);
}

#[test]
fn the_next_own_message_is_news_to_a_peer() {
    let mut m = manager();
    let mut peer = manager();
    for _ in 0..3 {
        let r = BroadcastReq::new("net.tx".to_string(), vec![]).handle(&mut m);
        match r.into_iter().next() {
            Some(Action::Broadcast(unit)) => {
                let passed = RetransNetMsgReq::new(unit, 3).handle(&mut peer);
                assert_eq!(passed.len(), 1);
            }
            _ => panic!("another action"),
        }
    }
}

#[test]
fn a_message_to_one_peer_says_nothing_of_its_start() {
    let m = manager();
    let r = SingleTxReq::new(7, "k".to_string(), vec![5]).handle(&m);
    assert_eq!(r.len(), 1);
    match &r[0] {
        Action::SendTo(7, unit) => {
            assert_eq!(unit.key, "k");
            assert_eq!(unit.data, vec![5]);
            assert_eq!((unit.addr, unit.version, unit.ttl), ((0, 0), 0, 0));
        }
        _ => panic!("another action"),
    }
}

#[test]
fn introduction_carries_the_certificate_only_in_ca_mode() {
    let mut m = manager();
    m.node_crt = Some(vec![1, 2, 3]);
    for (enable_ca, expected) in [(false, None), (true, Some(vec![1, 2, 3]))] {
        m.enable_ca = enable_ca;
        let r = NetworkInitReq::new(5).handle(&m);
        assert_eq!(r.len(), 1);
        match r.into_iter().next() {
            Some(Action::SendTo(5, unit)) => {
                assert_eq!(unit.key, "network.init");
                let msg = InitMsg::from(unit.data);
                assert_eq!(msg.chain_id, 0);
                assert_eq!(msg.peer_key, ME);
                assert_eq!(msg.node_crt, expected);
            }
            _ => panic!("another action"),
        }
    }
    m.service_ctrl = false;
    assert_eq!(NetworkInitReq::default().handle(&m).len(), 0);
}
