//! Known addresses, questions and the configuration.
use node_manager::action::Action;
use node_manager::config::{names_of_peers, ConsensusRule, NetConfig, PeerConfig};
use node_manager::manager::{ConnectedInfo, NodesManager};
use node_manager::nodes::{
    AddNodeReq, GetPeerCountReq, GetPeersInfoReq, GetRandomNodesReq, ModifiedConfigPeersReq,
};
use node_manager::types::{
    socket_v4, NodeSource, NodeStatus, SocketAddr, CHECK_CERT_PERIOD, CHECK_CONNECTED_NODES,
    DEFAULT_PORT,
};

fn rule() -> ConsensusRule {
    ConsensusRule { marker: "consensus".to_string(), ttl: 9 }
}

fn manager() -> NodesManager {
    let mut m = NodesManager::new((0, 1), rule());
    m.set_service_task_sender();
    m
}

fn addr(n: u32) -> SocketAddr {
    socket_v4(n, 4000)
}

fn peer(ip: Option<&str>, port: Option<usize>) -> PeerConfig {
    PeerConfig { ip: ip.map(|ip| ip.to_string()), port }
}

fn closed(actions: &[Action]) -> Vec<usize> {
    actions
        .iter()
        .map(|a| match a {
            Action::Disconnect(id) => *id,
            _ => panic!("another action"),
        })
        .collect()
}

#[test]
fn a_new_address_has_the_full_score_and_an_old_one_stays() {
    let mut m = manager();
    AddNodeReq::new(addr(1), NodeSource::FromDiscovery).handle(&mut m);
    assert_eq!(
        m.known_addrs[&addr(1)],
        NodeStatus::new(100, None, NodeSource::FromDiscovery)
    );
    m.known_addrs.insert(addr(1), NodeStatus::new(5, Some(3), NodeSource::FromDiscovery));
    AddNodeReq::new(addr(1), NodeSource::FromConfig).handle(&mut m);
    assert_eq!(
        m.known_addrs[&addr(1)],
        NodeStatus::new(5, Some(3), NodeSource::FromDiscovery)
    );
}

#[test]
fn no_more_than_a_thousand_and_one_are_learned() {
    let mut m = manager();
    for n in 0..1200 {
        AddNodeReq::new(addr(n), NodeSource::FromDiscovery).handle(&mut m);
    }
    assert_eq!(m.known_addrs.len(), 1001);
    assert!(m.known_addrs.contains_key(&addr(1000)));
    assert!(!m.known_addrs.contains_key(&addr(1001)));
}

#[test]
fn random_nodes_are_known_and_distinct() {
    let mut m = manager();
    for n in 0..10 {
        AddNodeReq::new(addr(n), NodeSource::FromDiscovery).handle(&mut m);
    }
    let some = GetRandomNodesReq::new(4).handle(&m);
    assert_eq!(some.len(), 4);
    assert!(some.iter().all(|a| m.known_addrs.contains_key(a)));
    let distinct: std::collections::BTreeSet<SocketAddr> = some.iter().cloned().collect();
    assert_eq!(distinct.len(), 4);
    assert_eq!(GetRandomNodesReq::new(99).handle(&m).len(), 10);
    assert_eq!(GetRandomNodesReq::new(0).handle(&m).len(), 0);
    let mut all = GetRandomNodesReq::new(10).handle(&m);
    all.sort();
    assert_eq!(all, (0..10).map(addr).collect::<Vec<_>>());
}

#[test]
fn random_nodes_come_in_different_orders() {
    let mut m = manager();
    for n in 0..4 {
        AddNodeReq::new(addr(n), NodeSource::FromDiscovery).handle(&mut m);
    }
    let first: std::collections::BTreeSet<SocketAddr> =
        (0..200).map(|_| GetRandomNodesReq::new(1).handle(&m)[0]).collect();
    assert_eq!(first.len(), 4);
}

#[test]
fn the_first_of_a_list() {
    let list = vec![addr(3), addr(1), addr(2)];
    assert_eq!(GetRandomNodesReq::new(2).first_of(list.clone()), vec![addr(3), addr(1)]);
    assert_eq!(GetRandomNodesReq::new(5).first_of(list.clone()), list);
}

#[test]
fn peers_are_counted_and_listed_with_their_addresses() {
    let mut m = manager();
    assert_eq!(GetPeerCountReq::new().handle(&m), 0);
    m.connected_addrs.insert(4, ConnectedInfo::new(addr(77), Some(addr(78)), None));
    m.connected_addrs.insert(5, ConnectedInfo::new((true, 1, 80, 0, 0), None, None));
    m.connected_peer_keys.insert((0, 40), 4);
    m.connected_peer_keys.insert((0, 50), 5);
    m.connected_peer_keys.insert((0, 60), 6);
    assert_eq!(GetPeerCountReq::new().handle(&m), 2);
    let info = GetPeersInfoReq::new().handle(&m);
    assert_eq!(info.len(), 2);
    assert_eq!(info[&(0, 40)], (false, 77));
    assert_eq!(info[&(0, 50)], (true, 1));
}

#[test]
fn a_new_list_of_peers_replaces_the_old_one() {
    let mut m = manager();
    m.config_addrs.insert("a:1".to_string(), Some(addr(1)));
    m.config_addrs.insert("b:1".to_string(), Some(addr(2)));
    m.config_addrs.insert("c:1".to_string(), Some(addr(3)));
    m.config_addrs.insert("d:1".to_string(), None);
    m.config_addrs.insert("e:1".to_string(), Some(addr(3)));
    m.config_addrs.insert("f:1".to_string(), Some(addr(9)));
    for (n, session) in [(1, Some(11)), (2, Some(12)), (3, Some(13)), (4, Some(14))] {
        m.known_addrs.insert(addr(n), NodeStatus::new(50, session, NodeSource::FromConfig));
    }
    let list = vec!["g:1".to_string(), "b:1".to_string(), "g:1".to_string()];
    let r = ModifiedConfigPeersReq::new(list).handle(&mut m);
    assert_eq!(closed(&r), vec![11, 13]);
    let names: Vec<&str> = m.config_addrs.entries.iter().map(|e| e.0.as_str()).collect();
    assert_eq!(names, vec!["b:1", "g:1"]);
    assert_eq!(m.config_addrs.get("b:1"), Some(Some(addr(2))));
    assert_eq!(m.config_addrs.get("g:1"), Some(None));
    let mut known: Vec<SocketAddr> = m.known_addrs.keys().cloned().collect();
    known.sort();
    assert_eq!(known, vec![addr(2), addr(4)]);
}

#[test]
fn without_network_layer_dropped_peers_are_only_forgotten() {
    let mut m = manager();
    m.service_ctrl = false;
    m.config_addrs.insert("a:1".to_string(), Some(addr(1)));
    m.known_addrs.insert(addr(1), NodeStatus::new(50, Some(4), NodeSource::FromConfig));
    assert_eq!(ModifiedConfigPeersReq::new(vec![]).handle(&mut m).len(), 0);
    assert_eq!(m.known_addrs.len(), 0);
}

#[test]
fn peers_without_host_or_port_have_no_name() {
    let peers = vec![
        peer(Some("10.0.0.2"), Some(4000)),
        peer(None, Some(4000)),
        peer(Some("10.0.0.3"), None),
        peer(Some("host"), Some(1)),
    ];
    assert_eq!(names_of_peers(&peers), vec!["10.0.0.2:4000", "host:1"]);
}

#[test]
fn a_manager_is_set_up_from_the_configuration() {
    let peers = vec![peer(Some("h"), Some(2)), peer(None, None), peer(Some("g"), Some(1))];
    let cfg = NetConfig { peers: Some(peers), max_connects: Some(4), enable_ca: None };
    assert!(!cfg.uses_ca());
    let m = NodesManager::from_config(cfg, (7, 8), rule(), None);
    assert_eq!(m.max_connects, 4);
    assert_eq!(m.peer_key, (7, 8));
    assert!(!m.enable_ca && !m.service_ctrl);
    assert!(m.root_crt.is_none() && m.node_crt.is_none());
    assert_eq!(m.names_to_translate(), vec!["g:1", "h:2"]);
    assert_eq!(m.consensus_topology.linked_nodes, [(7, 8)].into_iter().collect());
    assert_eq!(m.consensus.marker, "consensus");
}

#[test]
fn an_empty_configuration_has_defaults() {
    let cfg = NetConfig { peers: None, max_connects: None, enable_ca: Some(false) };
    let m = NodesManager::from_config(cfg, (7, 8), rule(), None);
    assert_eq!(m.max_connects, 666);
    assert_eq!(m.names_to_translate(), Vec::<String>::new());
    assert_eq!((m.self_version, m.get_crl_point), (0, 0));
    assert_eq!((DEFAULT_PORT, CHECK_CONNECTED_NODES, CHECK_CERT_PERIOD), (4000, 3, 12 * 3600));
}

#[test]
fn a_changed_configuration_leads_to_a_new_list() {
    assert!(ModifiedConfigPeersReq::concerns("network.toml", "network.toml"));
    assert!(!ModifiedConfigPeersReq::concerns("network.tom", "network.toml"));
    let cfg = NetConfig {
        peers: Some(vec![peer(Some("h"), Some(2))]),
        max_connects: None,
        enable_ca: None,
    };
    assert_eq!(ModifiedConfigPeersReq::for_config(&cfg).unwrap().peers, vec!["h:2"]);
    let none = NetConfig { peers: None, max_connects: None, enable_ca: None };
    assert!(ModifiedConfigPeersReq::for_config(&none).is_none());
}

#[test]
fn configured_peers_are_kept_in_order() {
    let mut m = manager();
    for name in ["m", "a", "z", "m", "b"] {
        m.config_addrs.add(name.to_string());
    }
    m.config_addrs.insert("a".to_string(), Some(addr(1)));
    m.config_addrs.add("a".to_string());
    assert_eq!(m.config_addrs.get("a"), Some(Some(addr(1))));
    assert_eq!(m.config_addrs.get("nobody"), None);
    assert_eq!(m.config_addrs.untranslated(), vec!["b", "m", "z"]);
    assert_eq!(m.config_addrs.remove("m"), Some(None));
    assert_eq!(m.config_addrs.remove("m"), None);
    assert_eq!(m.config_addrs.remove("a"), Some(Some(addr(1))));
    assert_eq!(m.config_addrs.names_outside(&vec!["z".to_string()]), vec!["b"]);
}
