//! The configuration.
use vstd::prelude::*;

use crate::config_addrs::texts;
use crate::state::ConsensusState;
use crate::text::{endpoint, endpoint_text, is_decimal, law_endpoint};

verus! {

/// A peer that the configuration names.
pub struct PeerConfig {
    /// The address or the name of the host.
    pub ip: Option<String>,
    pub port: Option<usize>,
}

/// The part of the configuration that concerns peers.
pub struct NetConfig {
    pub peers: Option<Vec<PeerConfig>>,
    pub max_connects: Option<usize>,
    pub enable_ca: Option<bool>,
}

/// Which messages are passed on by the peers while not all validators are
/// linked, and how often.
pub struct ConsensusRule {
    /// The keys of these messages hold this text.
    pub marker: String,
    pub ttl: u8,
}

impl View for ConsensusRule {
    type V = ConsensusState;

    open spec fn view(&self) -> ConsensusState {
        ConsensusState { marker: self.marker@, ttl: self.ttl }
    }
}

/// The names of the peers that have a host and a port, in their order.
pub open spec fn peer_names(peers: Seq<PeerConfig>) -> Seq<Seq<char>>
    decreases peers.len(),
{
    if peers.len() == 0 {
        Seq::empty()
    } else {
        let names = peer_names(peers.drop_last());
        match (peers.last().ip, peers.last().port) {
            (Some(ip), Some(port)) => names.push(endpoint(ip@, port as nat)),
            _ => names,
        }
    }
}

/// The names of the peers that have a host and a port.
pub fn names_of_peers(peers: &Vec<PeerConfig>) -> (r: Vec<String>)
    ensures
        texts(r@) == peer_names(peers@),
{
    let mut r: Vec<String> = Vec::new();
    let mut i: usize = 0;
    assert(peers@.take(0) =~= Seq::<PeerConfig>::empty());
    assert(texts(r@) =~= peer_names(peers@.take(0)));
    while i < peers.len()
        invariant
            i <= peers@.len(),
            texts(r@) == peer_names(peers@.take(i as int)),
        decreases peers@.len() - i,
    {
        let ghost so_far = r@;
        let ghost next = peers@.take(i + 1);
        proof {
            assert(next.drop_last() =~= peers@.take(i as int));
            assert(next.last() == peers@[i as int]);
        }
        match &peers[i].ip {
            Some(ip) => match peers[i].port {
                Some(port) => {
                    r.push(endpoint_text(ip, port));
                    assert(texts(r@) =~= texts(so_far).push(endpoint(ip@, port as nat)));
                },
                None => {},
            },
            None => {},
        }
        i = i + 1;
    }
    assert(peers@.take(i as int) =~= peers@);
    r
}

/// A peer has a host and a port, and `name` is the host, a colon and the port in
/// decimal digits.
pub open spec fn is_named(peer: PeerConfig, name: Seq<char>) -> bool {
    &&& peer.ip is Some
    &&& peer.port is Some
    &&& name.len() > peer.ip->0@.len()
    &&& name.take(peer.ip->0@.len() as int) == peer.ip->0@
    &&& name[peer.ip->0@.len() as int] == ':'
    &&& is_decimal(name.skip((peer.ip->0@.len() + 1) as int), peer.port->0 as nat)
}

/// The names of peers are exactly those of the peers with a host and a port.
pub proof fn law_peer_names(peers: Seq<PeerConfig>, name: Seq<char>)
    ensures
        peer_names(peers).contains(name) <==> exists|i: int|
            0 <= i < peers.len() && #[trigger] is_named(peers[i], name),
    decreases peers.len(),
{
    if peers.len() > 0 {
        let front = peers.drop_last();
        let names = peer_names(front);
        let all = peer_names(peers);
        let peer = peers.last();
        law_peer_names(front, name);
        assert(names.contains(name) ==> all.contains(name)) by {
            if names.contains(name) {
                assert(all[names.index_of(name)] == name);
            }
        }
        if peer.ip is Some && peer.port is Some {
            let added = endpoint(peer.ip->0@, peer.port->0 as nat);
            assert(all == names.push(added));
            assert(all[names.len() as int] == added);
            law_endpoint(peer.ip->0@, peer.port->0 as nat, name);
            assert(is_named(peer, name) <==> name == added);
            assert(all.contains(name) <==> names.contains(name) || name == added) by {
                if all.contains(name) {
                    let i = all.index_of(name);
                    if i < names.len() {
                        assert(names[i] == name);
                    }
                }
            }
        } else {
            assert(!is_named(peer, name));
        }
        if exists|i: int| 0 <= i < peers.len() && #[trigger] is_named(peers[i], name) {
            let i = choose|i: int| 0 <= i < peers.len() && #[trigger] is_named(peers[i], name);
            if i < front.len() {
                assert(is_named(front[i], name));
            }
        }
        if exists|i: int| 0 <= i < front.len() && #[trigger] is_named(front[i], name) {
            let i = choose|i: int| 0 <= i < front.len() && #[trigger] is_named(front[i], name);
            assert(is_named(peers[i], name));
        }
        if is_named(peer, name) {
            assert(is_named(peers[peers.len() - 1], name));
        }
    }
}

/// The names of peers stand in the order of the peers: those of two lists, one
/// after the other, are the names of the first and then those of the second,
/// and one peer has at most one name.
pub proof fn law_peer_names_in_order(a: Seq<PeerConfig>, b: Seq<PeerConfig>, peer: PeerConfig)
    ensures
        peer_names(a + b) == peer_names(a) + peer_names(b),
        peer_names(seq![peer]).len() == if peer.ip is Some && peer.port is Some {
            1nat
        } else {
            0nat
        },
    decreases b.len(),
{
    assert(seq![peer].drop_last() =~= Seq::<PeerConfig>::empty());
    assert(seq![peer].last() == peer);
    assert(peer_names(Seq::<PeerConfig>::empty()).len() == 0);
    if b.len() == 0 {
        assert(a + b =~= a);
        assert(peer_names(a) + peer_names(b) =~= peer_names(a));
    } else {
        law_peer_names_in_order(a, b.drop_last(), peer);
        assert((a + b).drop_last() =~= a + b.drop_last());
        assert(peer_names(a + b) =~= peer_names(a) + peer_names(b));
    }
}

/// The names of the configured peers.
pub open spec fn configured_names(cfg: NetConfig) -> Seq<Seq<char>> {
    match cfg.peers {
        Some(peers) => peer_names(peers@),
        None => Seq::empty(),
    }
}

/// Certificates are in use.
pub open spec fn ca_enabled(cfg: NetConfig) -> bool {
    cfg.enable_ca == Some(true)
}

impl NetConfig {
    /// Whether certificates are in use.
    pub fn uses_ca(&self) -> (r: bool)
        ensures
            r == ca_enabled(*self),
    {
        match self.enable_ca {
            Some(enable_ca) => enable_ca,
            None => false,
        }
    }
}

} // verus!
