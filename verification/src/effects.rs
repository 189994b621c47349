//! What each message does to what the manager knows, and what it leaves.
use vstd::prelude::*;

use crate::action::{asked, if_told, plain_unit, Action, ActionState};
use crate::bytes::{
    address_bytes, address_of, be_bytes, be_value, law_address_of_its_bytes,
    law_bytes_of_their_address, lemma_be_bytes_len, lemma_bytes_of_value, lemma_room_of_words, room,
};
use crate::cert::{
    chain_may_answer, is_certificate, named_address, pem_common_name, CertError, NodeCertState,
};
use crate::chance::is_random_uuid;
use crate::config_addrs::{lemma_names_in_order_enumerates, name_before, texts};
use crate::crl::{crl_request, keccak256_of, CERT_REVOKE_MANAGER};
use crate::gossip::{BroadcastReq, RetransNetMsgReq, SingleTxReq};
use crate::laws::{
    law_config_is_the_list, law_messages_keep_the_setup, law_messages_keep_what_holds,
    law_random_nodes_are_known, law_revoked_sessions_are_closed, lemma_dropping_only_disconnects,
    lemma_in_either, lemma_peers_dropped, lemma_revoking_only_disconnects, same_setup,
};
use crate::message::{NodesManagerMessage, Outcome};
use crate::nodes::{
    AddNodeReq, GetPeerCountReq, GetPeersInfoReq, GetRandomNodesReq, ModifiedConfigPeersReq,
};
use crate::order::{
    first_peer, in_order, is_first_peer, lemma_first_peer, lemma_in_order_enumerates,
    session_before,
};
use crate::revocation::{DealRichStatusReq, UpdateCrlReq};
use crate::sessions::{
    AddConnectedNodeReq, AddRepeatedNodeReq, ConnectedSelfReq, DelConnectedNodeReq,
    DialedErrorReq, NetworkInitReq, PendingConnectedNodeReq,
};
use crate::state::{is_order, ManagerState, VettingState};
use crate::text::lemma_text_order_asymmetric;
use crate::types::{Address, NodeStatus, SessionId, SessionType, SocketAddr};

verus! {

/// Two maps that differ at most at one key.
pub open spec fn same_except<K, V>(a: Map<K, V>, b: Map<K, V>, key: K) -> bool {
    forall|k: K|
        k != key ==> #[trigger] a.contains_key(k) == b.contains_key(k) && (a.contains_key(k)
            ==> a[k] == b[k])
}

/// The known addresses and the configured peers are the same.
pub open spec fn same_addresses(s: ManagerState, t: ManagerState) -> bool {
    t.known == s.known && t.config == s.config
}

/// The sessions, the peers and the topology are the same.
pub open spec fn same_sessions(s: ManagerState, t: ManagerState) -> bool {
    &&& t.connected == s.connected
    &&& t.pending == s.pending
    &&& t.peers == s.peers
    &&& t.topology == s.topology
}

/// What was said and heard is the same.
pub open spec fn same_messages(s: ManagerState, t: ManagerState) -> bool {
    t.gossip == s.gossip && t.self_version == s.self_version
}

/// The revocation list, and when it was asked for, are the same.
pub open spec fn same_revocation(s: ManagerState, t: ManagerState) -> bool {
    t.crl == s.crl && t.get_crl_point == s.get_crl_point
}

/// The address that is being dialed, and this node's, are the same.
pub open spec fn same_dial(s: ManagerState, t: ManagerState) -> bool {
    t.dialing == s.dialing && t.self_addr == s.self_addr
}

/// Nothing is to be done.
pub open spec fn does_nothing(out: Outcome) -> bool {
    out matches Outcome::Actions(list) && list@.len() == 0
}

/// One thing is to be done.
pub open spec fn only_action(out: Outcome) -> Option<Action> {
    match out {
        Outcome::Actions(list) => if list@.len() == 1 {
            Some(list@[0])
        } else {
            None
        },
        _ => None,
    }
}

/// A session is to be closed where the network layer is there, and nothing
/// else is to be done.
pub open spec fn only_closes(s: ManagerState, out: Outcome, session: SessionId) -> bool {
    if s.ctrl {
        only_action(out) == Some(Action::Disconnect(session))
    } else {
        does_nothing(out)
    }
}

/// A list of actions that asks for one thing has that one action.
proof fn lemma_one_action(list: Seq<Action>, action: ActionState)
    requires
        asked(list) == seq![action],
    ensures
        list.len() == 1,
        list[0]@ == action,
{
    assert(asked(list).len() == list.len());
    assert(asked(list)[0] == list[0]@);
}

/// A list of actions that asks for nothing is empty.
proof fn lemma_no_action(list: Seq<Action>)
    requires
        asked(list).len() == 0,
    ensures
        list.len() == 0,
{
    assert(asked(list).len() == list.len());
}

/// What an outcome that closes one session, or none, comes to.
proof fn lemma_closing(out: Outcome, session: SessionId, closed: bool)
    requires
        out.asks(if_told(closed, ActionState::Disconnect(session))),
    ensures
        closed ==> only_action(out) == Some(Action::Disconnect(session)),
        !closed ==> does_nothing(out),
{
    let list = out->Actions_0;
    if closed {
        lemma_one_action(list@, ActionState::Disconnect(session));
        match list@[0] {
            Action::Disconnect(id) => {},
            _ => {},
        }
    } else {
        lemma_no_action(list@);
    }
}

/// An address that was found becomes known with the full score, no session and
/// its source, unless it is known or more than a thousand are. Nothing else
/// changes.
pub proof fn law_found_addresses(req: AddNodeReq, s: ManagerState, t: ManagerState, out: Outcome)
    requires
        s.inv(),
        NodesManagerMessage::AddNodeReq(req).leads(s, t, out),
    ensures
        does_nothing(out),
        t.known.contains_key(req.addr) <==> s.known.contains_key(req.addr) || s.known.len() <= 1000,
        !s.known.contains_key(req.addr) && t.known.contains_key(req.addr) ==> t.known[req.addr]
            == (NodeStatus { score: 100, session_id: None, node_src: req.source }),
        s.known.contains_key(req.addr) ==> t.known[req.addr] == s.known[req.addr],
        same_except(s.known, t.known, req.addr),
        t.config == s.config,
        same_setup(s, t) && same_sessions(s, t) && same_messages(s, t),
        same_revocation(s, t) && same_dial(s, t),
{
    lemma_no_action(out->Actions_0@);
}

/// A dial that failed costs its address twenty-five, if it is known, and is
/// over. Nothing else changes.
pub proof fn law_failed_dials(req: DialedErrorReq, s: ManagerState, t: ManagerState, out: Outcome)
    requires
        s.inv(),
        NodesManagerMessage::DialedErrorReq(req).admissible(s),
        NodesManagerMessage::DialedErrorReq(req).leads(s, t, out),
    ensures
        does_nothing(out),
        t.known.dom() == s.known.dom(),
        s.known.contains_key(req.addr) ==> {
            &&& t.known[req.addr].score == s.known[req.addr].score - 25
            &&& t.known[req.addr].session_id == s.known[req.addr].session_id
            &&& t.known[req.addr].node_src == s.known[req.addr].node_src
        },
        same_except(s.known, t.known, req.addr),
        t.dialing is None,
        t.self_addr == s.self_addr,
        t.config == s.config,
        same_setup(s, t) && same_sessions(s, t) && same_messages(s, t) && same_revocation(s, t),
{
    lemma_no_action(out->Actions_0@);
    assert(t.known.dom() =~= s.known.dom());
}

/// Known addresses that are asked for are handed out: distinct ones, as many
/// as were asked for or all that there are. Nothing changes.
pub proof fn law_asked_for_addresses(
    req: GetRandomNodesReq,
    s: ManagerState,
    t: ManagerState,
    out: Outcome,
)
    requires
        s.inv(),
        NodesManagerMessage::GetRandomNodesReq(req).leads(s, t, out),
    ensures
        t == s,
        out matches Outcome::RandomNodes(list) && {
            &&& list@.no_duplicates()
            &&& list@.len() == if req.num <= s.known.len() {
                req.num as nat
            } else {
                s.known.len()
            }
            &&& forall|i: int| 0 <= i < list@.len() ==> s.known.contains_key(#[trigger] list@[i])
        },
{
    let order = choose|order: Seq<SocketAddr>| #[trigger]
        is_order(order, s.known) && out.names(order.take(
            if req.num <= order.len() {
                req.num as int
            } else {
                order.len() as int
            },
        ));
    law_random_nodes_are_known(s, order, req.num as nat, out->RandomNodes_0@);
}

/// A session that was opened waits for its introduction, with its address and
/// the side that opened it; all others that wait go on waiting. Where there are
/// as many sessions as there may be, it is closed instead. Nothing else
/// changes.
pub proof fn law_opened_sessions(
    req: PendingConnectedNodeReq,
    s: ManagerState,
    t: ManagerState,
    out: Outcome,
)
    requires
        s.inv(),
        NodesManagerMessage::PendingConnectedNodeReq(req).leads(s, t, out),
    ensures
        s.connected.len() < s.max_connects ==> {
            &&& does_nothing(out)
            &&& t.pending.contains_key(req.session_id)
            &&& t.pending[req.session_id].addr == req.addr
            &&& t.pending[req.session_id].ty == req.ty
            &&& same_except(s.pending, t.pending, req.session_id)
        },
        s.connected.len() >= s.max_connects ==> only_closes(s, out, req.session_id) && t.pending
            == s.pending,
        t.connected == s.connected && t.peers == s.peers && t.topology == s.topology,
        same_setup(s, t) && same_addresses(s, t) && same_messages(s, t),
        same_revocation(s, t) && same_dial(s, t),
{
    lemma_closing(out, req.session_id, s.ctrl && s.connected.len() >= s.max_connects);
}

/// An address pays for the end of `session`: the open session connected to it
/// under the address by which its peer is known, or the session was dialed and
/// refused, with no other one to the address.
pub open spec fn pays_for_end(s: ManagerState, session: SessionId, addr: SocketAddr) -> bool {
    ||| {
        &&& s.connected.contains_key(session)
        &&& s.known[addr].session_id == Some(session)
        &&& match s.connected[session].trans_addr {
            Some(trans_addr) => addr == trans_addr,
            None => addr == s.connected[session].conn_addr,
        }
    }
    ||| {
        &&& s.pending.contains_key(session)
        &&& s.pending[session].ty == SessionType::Outbound
        &&& s.pending[session].addr == addr
        &&& s.known[addr].session_id is None || s.known[addr].session_id == Some(session)
    }
}

/// The lowest account of a session.
pub open spec fn is_lowest_account(
    peers: Map<Address, SessionId>,
    session: SessionId,
    key: Address,
) -> bool {
    &&& peers.contains_key(key)
    &&& peers[key] == session
    &&& forall|other: Address| #[trigger]
        peers.contains_key(other) && peers[other] == session ==> key.0 < other.0 || (key.0
            == other.0 && key.1 <= other.1)
}

/// A session that ended neither waits nor is open; all others stay. The
/// addresses that pay for it lose twenty and are not connected, all others
/// stay. A dialed session that waited ends the dial. Nothing else changes but
/// the peers.
pub proof fn law_ended_sessions(
    req: DelConnectedNodeReq,
    s: ManagerState,
    t: ManagerState,
    out: Outcome,
)
    requires
        s.inv(),
        NodesManagerMessage::DelConnectedNodeReq(req).admissible(s),
        NodesManagerMessage::DelConnectedNodeReq(req).leads(s, t, out),
    ensures
        does_nothing(out),
        !t.connected.contains_key(req.session_id),
        same_except(s.connected, t.connected, req.session_id),
        !t.pending.contains_key(req.session_id),
        same_except(s.pending, t.pending, req.session_id),
        t.known.dom() == s.known.dom(),
        forall|addr: SocketAddr| #[trigger]
            s.known.contains_key(addr) ==> t.known[addr].node_src == s.known[addr].node_src && (
            if pays_for_end(s, req.session_id, addr) {
                t.known[addr].score == s.known[addr].score - 20 && t.known[addr].session_id is None
            } else {
                t.known[addr] == s.known[addr]
            }),
        t.dialing == if s.pending.contains_key(req.session_id) && s.pending[req.session_id].ty
            == SessionType::Outbound {
            None
        } else {
            s.dialing
        },
        t.self_addr == s.self_addr,
        t.config == s.config,
        same_setup(s, t) && same_messages(s, t) && same_revocation(s, t),
{
    lemma_no_action(out->Actions_0@);
    assert(t.known.dom() =~= s.known.dom());
}

/// With an open session its lowest account leaves the peers and the linked
/// nodes; all others stay, and so do the validators and the height.
pub proof fn law_ended_peers(
    req: DelConnectedNodeReq,
    s: ManagerState,
    t: ManagerState,
    out: Outcome,
    key: Address,
)
    requires
        s.inv(),
        NodesManagerMessage::DelConnectedNodeReq(req).leads(s, t, out),
    ensures
        t.peers.contains_key(key) <==> s.peers.contains_key(key) && !(s.connected.contains_key(
            req.session_id,
        ) && is_lowest_account(s.peers, req.session_id, key)),
        t.peers.contains_key(key) ==> t.peers[key] == s.peers[key],
        t.topology.linked.contains(key) <==> t.peers.contains_key(key) || key == s.peer_key,
        t.topology.validators == s.topology.validators,
        t.topology.height == s.topology.height,
        t.peers == s.peers ==> t.topology == s.topology,
        t.peers != s.peers ==> t.topology.all_linked == s.topology.validators.subset_of(
            t.topology.linked,
        ),
{
    let session = req.session_id;
    if s.connected.contains_key(session) {
        if is_lowest_account(s.peers, session, key) {
            assert(is_first_peer(s.peers, session, key));
            lemma_first_peer(s.peers, session, key);
        }
        match first_peer(s.peers, session) {
            Some(first) => {
                assert(is_first_peer(s.peers, session, first));
                assert(is_lowest_account(s.peers, session, first));
                assert(!t.peers.contains_key(first));
                assert(t.peers != s.peers);
            },
            None => {
                assert(t.peers =~= s.peers);
            },
        }
    }
}

/// A message that starts from this node goes to all sessions, where the
/// network layer is there: with its key and data, the account of this node and
/// the next number. It is passed on only while not all validators are linked
/// and only if its key holds the marker. Nothing changes but the next number.
pub proof fn law_broadcasts(req: BroadcastReq, s: ManagerState, t: ManagerState, out: Outcome)
    requires
        s.inv(),
        NodesManagerMessage::Broadcast(req).admissible(s),
        NodesManagerMessage::Broadcast(req).leads(s, t, out),
    ensures
        !s.ctrl ==> does_nothing(out),
        s.ctrl ==> (only_action(out) matches Some(Action::Broadcast(unit)) && {
            let marked = exists|i: int|
                0 <= i && i + s.consensus.marker.len() <= req.key@.len()
                    && #[trigger] req.key@.subrange(i, i + s.consensus.marker.len())
                    == s.consensus.marker;
            &&& unit.key@ == req.key@
            &&& unit.data@ == req.msg@
            &&& unit.addr == s.peer_key
            &&& unit.version == s.self_version
            &&& unit.ttl == if !s.topology.all_linked && marked {
                s.consensus.ttl
            } else {
                0
            }
        }),
        t.self_version == s.self_version + 1,
        t.gossip == s.gossip,
        same_setup(s, t) && same_addresses(s, t) && same_sessions(s, t),
        same_revocation(s, t) && same_dial(s, t),
{
    if s.ctrl {
        lemma_one_action(
            out->Actions_0@,
            ActionState::Broadcast(s.own_unit(req.key@, req.msg@)),
        );
        match out->Actions_0@[0] {
            Action::Broadcast(unit) => {},
            _ => {},
        }
    } else {
        lemma_no_action(out->Actions_0@);
    }
}

/// A message that came in is news where it has no number, or a higher one than
/// all of its account before. News go on to every other open session, with the
/// same key, data, account and number; only what is left of their passing on
/// ends where all validators are linked. The number of the news is kept.
/// Nothing else changes.
pub proof fn law_relays(req: RetransNetMsgReq, s: ManagerState, t: ManagerState, out: Outcome)
    requires
        s.inv(),
        NodesManagerMessage::RetransNetMsg(req).leads(s, t, out),
    ensures
        ({
            let unit = req.msg_unit;
            let news = unit.version == 0 || !s.gossip.contains_key(unit.addr)
                || s.gossip[unit.addr] < unit.version;
            &&& t.gossip.contains_key(unit.addr)
            &&& t.gossip[unit.addr] == if news {
                unit.version
            } else {
                s.gossip[unit.addr]
            }
            &&& same_except(s.gossip, t.gossip, unit.addr)
            &&& !(news && s.ctrl) ==> does_nothing(out)
            &&& news && s.ctrl ==> (only_action(out) matches Some(Action::Multicast(ids, passed))
                && {
                &&& forall|id: SessionId| #[trigger]
                    ids@.contains(id) <==> s.connected.contains_key(id) && id
                        != req.incomming_session_id
                &&& forall|i: int, j: int| 0 <= i < j < ids@.len() ==> ids@[i] < ids@[j]
                &&& passed.key@ == unit.key@
                &&& passed.data@ == unit.data@
                &&& passed.addr == unit.addr
                &&& passed.version == unit.version
                &&& passed.ttl == if s.topology.all_linked {
                    0
                } else {
                    unit.ttl
                }
            })
        }),
        t.self_version == s.self_version,
        same_setup(s, t) && same_addresses(s, t) && same_sessions(s, t),
        same_revocation(s, t) && same_dial(s, t),
{
    let unit = req.msg_unit@;
    let list = out->Actions_0@;
    if s.ctrl && s.is_news(unit) {
        let targets = s.connected.dom().remove(req.incomming_session_id);
        lemma_one_action(list, ActionState::Multicast(in_order(targets), s.relayed(unit)));
        lemma_in_order_enumerates(targets);
        let ids = in_order(targets);
        assert forall|id: SessionId| #[trigger] ids.contains(id) <==> s.connected.contains_key(id)
            && id != req.incomming_session_id by {
            assert(ids.to_set().contains(id) <==> ids.contains(id));
        }
        assert forall|i: int, j: int| 0 <= i < j < ids.len() implies ids[i] < ids[j] by {
            assert(session_before()(ids[i], ids[j]));
        }
        match list[0] {
            Action::Multicast(_, _) => {},
            _ => {},
        }
    } else {
        lemma_no_action(list);
    }
}

/// A message that was passed on is no news to a peer that has seen it, and a
/// peer that has not seen it or a later one treats it as the message itself.
pub proof fn law_relayed_messages_stay_the_same(
    req: RetransNetMsgReq,
    s: ManagerState,
    t: ManagerState,
    out: Outcome,
    peer: ManagerState,
)
    requires
        s.inv(),
        NodesManagerMessage::RetransNetMsg(req).leads(s, t, out),
    ensures
        only_action(out) matches Some(Action::Multicast(_, passed)) ==> {
            &&& peer.is_news(passed@) == peer.is_news(req.msg_unit@)
            &&& passed.version != 0 ==> !peer.message_seen(req.msg_unit@).is_news(passed@)
        },
{
    law_relays(req, s, t, out);
}

/// A message to one peer is sent on that peer's session, with its key and data
/// and nothing said of its start. Nothing changes.
pub proof fn law_single_messages(req: SingleTxReq, s: ManagerState, t: ManagerState, out: Outcome)
    requires
        NodesManagerMessage::SingleTxReq(req).leads(s, t, out),
    ensures
        t == s,
        !s.ctrl ==> does_nothing(out),
        s.ctrl ==> (only_action(out) matches Some(Action::SendTo(id, unit)) && {
            &&& id == req.dst
            &&& unit.key@ == req.key@
            &&& unit.data@ == req.msg@
            &&& unit.addr == (0u128, 0u32)
            &&& unit.version == 0
            &&& unit.ttl == 0
        }),
{
    if s.ctrl {
        lemma_one_action(
            out->Actions_0@,
            ActionState::SendTo(req.dst, plain_unit(req.key@, req.msg@)),
        );
        match out->Actions_0@[0] {
            Action::SendTo(_, _) => {},
            _ => {},
        }
    } else {
        lemma_no_action(out->Actions_0@);
    }
}

/// A session that waits for it gets the introduction of this node: eight zero
/// bytes, the account, and the certificate where certificates are in use.
/// Nothing changes.
pub proof fn law_introductions(req: NetworkInitReq, s: ManagerState, t: ManagerState, out: Outcome)
    requires
        NodesManagerMessage::NetworkInit(req).leads(s, t, out),
    ensures
        t == s,
        !s.ctrl ==> does_nothing(out),
        s.ctrl ==> (only_action(out) matches Some(Action::SendTo(id, unit)) && {
            &&& id == req.session_id
            &&& unit.key@ == "network.init"@
            &&& unit.data@.len() >= 28
            &&& forall|i: int| 0 <= i < 8 ==> #[trigger] unit.data@[i] == 0
            &&& unit.data@.subrange(8, 28) == address_bytes(s.peer_key)
            &&& unit.data@.skip(28) == if s.enable_ca && s.node_crt is Some {
                s.node_crt->0
            } else {
                Seq::empty()
            }
            &&& unit.addr == (0u128, 0u32)
            &&& unit.version == 0
            &&& unit.ttl == 0
        }),
{
    if s.ctrl {
        lemma_one_action(
            out->Actions_0@,
            ActionState::SendTo(req.session_id, s.introduction()),
        );
        match out->Actions_0@[0] {
            Action::SendTo(_, _) => {},
            _ => {},
        }
        let data = s.introduction().data;
        let crt = if s.enable_ca && s.node_crt is Some {
            s.node_crt->0
        } else {
            Seq::empty()
        };
        lemma_zero_bytes(8);
        law_address_of_its_bytes(s.peer_key);
        assert(data =~= be_bytes(0, 8) + address_bytes(s.peer_key) + crt);
        assert(data.subrange(8, 28) =~= address_bytes(s.peer_key));
        assert(data.skip(28) =~= crt);
    } else {
        lemma_no_action(out->Actions_0@);
    }
}

/// The bytes of zero are zero.
proof fn lemma_zero_bytes(len: nat)
    ensures
        be_bytes(0, len).len() == len,
        forall|i: int| 0 <= i < len ==> #[trigger] be_bytes(0, len)[i] == 0,
    decreases len,
{
    if len > 0 {
        lemma_zero_bytes((len - 1) as nat);
        assert(0nat / 256 == 0);
    }
}

/// The answers to questions: the number of open sessions, and for every peer
/// whose session is open the IP address of that session. Nothing changes.
pub proof fn law_questions(
    count: GetPeerCountReq,
    info: GetPeersInfoReq,
    s: ManagerState,
    t: ManagerState,
    out: Outcome,
)
    ensures
        NodesManagerMessage::GetPeerCount(count).leads(s, t, out) ==> t == s && (
        out matches Outcome::PeerCount(n) && n == s.connected.dom().len()),
        NodesManagerMessage::GetPeersInfo(info).leads(s, t, out) ==> t == s && (
        out matches Outcome::PeersInfo(peers) && forall|key: Address|
            {
                &&& #[trigger] peers@.contains_key(key) <==> s.peers.contains_key(key)
                    && s.connected.contains_key(s.peers[key])
                &&& peers@.contains_key(key) ==> peers@[key].0
                    == s.connected[s.peers[key]].conn_addr.0 && peers@[key].1
                    == s.connected[s.peers[key]].conn_addr.1
            }),
{
}

/// A dial that reached a connected node: its address, if it is known, gets ten
/// and the session, and the session is open and known under that address; it
/// keeps what else is known of it. The dial is over. Nothing else changes.
pub proof fn law_repeated_dials(
    req: AddRepeatedNodeReq,
    s: ManagerState,
    t: ManagerState,
    out: Outcome,
)
    requires
        s.inv(),
        NodesManagerMessage::AddRepeatedNode(req).admissible(s),
        NodesManagerMessage::AddRepeatedNode(req).leads(s, t, out),
    ensures
        does_nothing(out),
        s.known.contains_key(req.addr) ==> {
            &&& t.known.contains_key(req.addr)
            &&& t.known[req.addr].score == s.known[req.addr].score + 10
            &&& t.known[req.addr].session_id == Some(req.session_id)
            &&& t.known[req.addr].node_src == s.known[req.addr].node_src
            &&& same_except(s.known, t.known, req.addr)
            &&& t.connected.contains_key(req.session_id)
            &&& t.connected[req.session_id].trans_addr == Some(req.addr)
            &&& same_except(s.connected, t.connected, req.session_id)
            &&& s.connected.contains_key(req.session_id) ==> t.connected[req.session_id].conn_addr
                == s.connected[req.session_id].conn_addr && t.connected[req.session_id].node_crt
                == s.connected[req.session_id].node_crt
            &&& !s.connected.contains_key(req.session_id) ==> t.connected[req.session_id].conn_addr
                == (false, 0u128, 0u16, 0u32, 0u32) && t.connected[req.session_id].node_crt is None
        },
        !s.known.contains_key(req.addr) ==> t.known == s.known && t.connected == s.connected,
        t.dialing is None,
        t.self_addr == s.self_addr,
        t.config == s.config && t.pending == s.pending && t.peers == s.peers && t.topology
            == s.topology,
        same_setup(s, t) && same_messages(s, t) && same_revocation(s, t),
{
    lemma_no_action(out->Actions_0@);
}

/// A dial that led back to this node: its address is this node's, and the dial
/// is over. Nothing else changes.
pub proof fn law_dials_to_self(
    req: ConnectedSelfReq,
    s: ManagerState,
    t: ManagerState,
    out: Outcome,
)
    requires
        NodesManagerMessage::ConnectedSelf(req).leads(s, t, out),
    ensures
        does_nothing(out),
        t.self_addr == Some(req.addr),
        t.dialing is None,
        same_setup(s, t) && same_addresses(s, t) && same_sessions(s, t),
        same_messages(s, t) && same_revocation(s, t),
{
    lemma_no_action(out->Actions_0@);
}

/// The dial of an introduction that this node dialed is over; one under way
/// stays where the peer opened the session.
pub open spec fn dial_after(s: ManagerState, ty: SessionType) -> Option<SocketAddr> {
    match ty {
        SessionType::Outbound => None,
        SessionType::Inbound => s.dialing,
    }
}

/// A peer that introduces itself on a second session: the session is closed,
/// and the peer keeps the first one. If this node dialed a known address, that
/// address gets ten and the first session, which is known under it. Nothing
/// else changes but that the dial is over.
pub proof fn law_repeated_introductions(
    req: AddConnectedNodeReq,
    s: ManagerState,
    t: ManagerState,
    out: Outcome,
)
    requires
        s.inv(),
        NodesManagerMessage::AddConnectedNode(req).admissible(s),
        NodesManagerMessage::AddConnectedNode(req).leads(s, t, out),
        s.peers.contains_key(req.init_msg.peer_key),
    ensures
        only_closes(s, out, req.session_id),
        ({
            let first = s.peers[req.init_msg.peer_key];
            if req.ty == SessionType::Outbound && s.dialing is Some && s.known.contains_key(
                s.dialing->0,
            ) {
                let addr = s.dialing->0;
                &&& t.known.contains_key(addr)
                &&& t.known[addr].score == s.known[addr].score + 10
                &&& t.known[addr].session_id == Some(first)
                &&& t.known[addr].node_src == s.known[addr].node_src
                &&& same_except(s.known, t.known, addr)
                &&& t.connected.contains_key(first) == s.connected.contains_key(first)
                &&& s.connected.contains_key(first) ==> {
                    &&& t.connected[first].trans_addr == Some(addr)
                    &&& t.connected[first].conn_addr == s.connected[first].conn_addr
                    &&& t.connected[first].node_crt == s.connected[first].node_crt
                }
                &&& same_except(s.connected, t.connected, first)
            } else {
                t.known == s.known && t.connected == s.connected
            }
        }),
        t.dialing == dial_after(s, req.ty),
        t.self_addr == s.self_addr,
        t.config == s.config && t.pending == s.pending && t.peers == s.peers && t.topology
            == s.topology,
        same_setup(s, t) && same_messages(s, t) && same_revocation(s, t),
{
    let key = req.init_msg.peer_key;
    let answer = choose|answer: Option<bool>|
        {
            let vetting = #[trigger] s.vetting(req.init_msg@, answer);
            &&& s.may_answer(req.init_msg@, answer)
            &&& t == s.introduced(req.session_id, req.ty, key, vetting)
            &&& out.asks(s.introduced_actions(req.session_id, key, vetting))
        };
    let actions = s.introduced_actions(req.session_id, key, s.vetting(req.init_msg@, answer));
    assert(actions =~= if_told(s.ctrl, ActionState::Disconnect(req.session_id)));
    lemma_closing(out, req.session_id, s.ctrl);
}

/// A session on which this node introduces itself is closed, and the address
/// that is being dialed, if there is one, is this node's. Nothing else changes
/// but that the dial is over.
pub proof fn law_own_introductions(
    req: AddConnectedNodeReq,
    s: ManagerState,
    t: ManagerState,
    out: Outcome,
)
    requires
        s.inv(),
        NodesManagerMessage::AddConnectedNode(req).leads(s, t, out),
        req.init_msg.peer_key == s.peer_key,
    ensures
        only_closes(s, out, req.session_id),
        t.self_addr == if s.dialing is Some {
            s.dialing
        } else {
            s.self_addr
        },
        t.dialing == dial_after(s, req.ty),
        same_setup(s, t) && same_addresses(s, t) && same_sessions(s, t),
        same_messages(s, t) && same_revocation(s, t),
{
    let key = req.init_msg.peer_key;
    let answer = choose|answer: Option<bool>|
        {
            let vetting = #[trigger] s.vetting(req.init_msg@, answer);
            &&& s.may_answer(req.init_msg@, answer)
            &&& t == s.introduced(req.session_id, req.ty, key, vetting)
            &&& out.asks(s.introduced_actions(req.session_id, key, vetting))
        };
    let actions = s.introduced_actions(req.session_id, key, s.vetting(req.init_msg@, answer));
    assert(actions =~= if_told(s.ctrl, ActionState::Disconnect(req.session_id)));
    lemma_closing(out, req.session_id, s.ctrl);
}

/// A peer that is neither known nor this node becomes one, on its session, and
/// is linked. A session that waited is open with the address that it was opened
/// with, and known under the one that was noted before, if any; if this node
/// dialed it, its address, where known, gets ten and the session. All others
/// stay, and nothing else changes but that the dial is over.
pub proof fn law_new_introductions(
    req: AddConnectedNodeReq,
    s: ManagerState,
    t: ManagerState,
    out: Outcome,
)
    requires
        s.inv(),
        NodesManagerMessage::AddConnectedNode(req).admissible(s),
        NodesManagerMessage::AddConnectedNode(req).leads(s, t, out),
        !s.peers.contains_key(req.init_msg.peer_key),
        req.init_msg.peer_key != s.peer_key,
    ensures
        t.peers.contains_key(req.init_msg.peer_key),
        t.peers[req.init_msg.peer_key] == req.session_id,
        same_except(s.peers, t.peers, req.init_msg.peer_key),
        forall|key: Address| #[trigger]
            t.topology.linked.contains(key) <==> s.topology.linked.contains(key) || key
                == req.init_msg.peer_key,
        t.topology.validators == s.topology.validators,
        t.topology.height == s.topology.height,
        t.topology.all_linked == s.topology.validators.subset_of(t.topology.linked),
        !t.pending.contains_key(req.session_id),
        same_except(s.pending, t.pending, req.session_id),
        same_except(s.connected, t.connected, req.session_id),
        s.pending.contains_key(req.session_id) ==> {
            let addr = s.pending[req.session_id].addr;
            &&& t.connected.contains_key(req.session_id)
            &&& t.connected[req.session_id].conn_addr == addr
            &&& t.connected[req.session_id].trans_addr == if s.connected.contains_key(
                req.session_id,
            ) {
                s.connected[req.session_id].trans_addr
            } else {
                None
            }
            &&& t.known.contains_key(addr) == s.known.contains_key(addr)
            &&& same_except(s.known, t.known, addr)
            &&& s.known.contains_key(addr) ==> if req.ty == SessionType::Outbound {
                &&& t.known[addr].score == s.known[addr].score + 10
                &&& t.known[addr].session_id == Some(req.session_id)
                &&& t.known[addr].node_src == s.known[addr].node_src
            } else {
                t.known[addr] == s.known[addr]
            }
        },
        !s.pending.contains_key(req.session_id) ==> t.connected == s.connected && t.known
            == s.known,
        t.dialing == dial_after(s, req.ty),
        t.self_addr == s.self_addr,
        t.config == s.config,
        same_setup(s, t) && same_messages(s, t) && same_revocation(s, t),
{
}

/// The certificate of a new peer. Without certificates in use, and where there
/// is none to check against, nothing is asked for. With them, a peer without
/// one is closed. One with a certificate is either accepted or closed. It is
/// accepted only where the check of the signatures may succeed, the certificate
/// names the account that the peer claims, and that account is not revoked, and
/// it is closed only where one of these fails. A session that waited keeps an
/// accepted certificate, whichever side opened it, and no other.
pub proof fn law_new_certificates(
    req: AddConnectedNodeReq,
    s: ManagerState,
    t: ManagerState,
    out: Outcome,
)
    requires
        s.inv(),
        NodesManagerMessage::AddConnectedNode(req).leads(s, t, out),
        !s.peers.contains_key(req.init_msg.peer_key),
        req.init_msg.peer_key != s.peer_key,
    ensures
        ({
            let key = req.init_msg.peer_key;
            let waited = s.pending.contains_key(req.session_id);
            let kept = t.connected[req.session_id].node_crt;
            match (s.enable_ca, req.init_msg.node_crt, s.root_crt) {
                (true, Some(pem), Some(root)) => {
                    let named = named_address(pem_common_name(pem@));
                    ||| {
                        &&& does_nothing(out)
                        &&& waited ==> kept == Some(NodeCertState { pem: pem@, address: key })
                        &&& chain_may_answer(root, pem@, Some(true))
                        &&& named == Ok::<Address, CertError>(key)
                        &&& !s.crl.contains(key)
                    }
                    ||| {
                        &&& only_closes(s, out, req.session_id)
                        &&& waited ==> kept is None
                        &&& chain_may_answer(root, pem@, Some(false)) || chain_may_answer(
                            root,
                            pem@,
                            None,
                        ) || named != Ok::<Address, CertError>(key) || s.crl.contains(key)
                    }
                },
                (true, None, _) => only_closes(s, out, req.session_id) && (waited ==> kept is None),
                _ => does_nothing(out) && (waited ==> kept is None),
            }
        }),
{
    let key = req.init_msg.peer_key;
    let answer = choose|answer: Option<bool>|
        {
            let vetting = #[trigger] s.vetting(req.init_msg@, answer);
            &&& s.may_answer(req.init_msg@, answer)
            &&& t == s.introduced(req.session_id, req.ty, key, vetting)
            &&& out.asks(s.introduced_actions(req.session_id, key, vetting))
        };
    let vetting = s.vetting(req.init_msg@, answer);
    let actions = s.introduced_actions(req.session_id, key, vetting);
    let refused = vetting is Refused;
    assert(actions =~= if_told(s.ctrl && refused, ActionState::Disconnect(req.session_id)));
    lemma_closing(out, req.session_id, s.ctrl && refused);
    if let Some(b) = answer {
        assert(answer == Some(true) || answer == Some(false));
    }
}

/// Whatever the certificate of a new peer came to, it decides only what is kept
/// of it and whether the session is closed: an accepted certificate is kept on
/// the session that waited, whichever side opened it, and no other is; only a
/// refused one closes the session. All else is booked the same way.
pub proof fn law_vetting_decides_only_the_certificate(
    s: ManagerState,
    session: SessionId,
    ty: SessionType,
    key: Address,
    vetting: VettingState,
    other: VettingState,
)
    requires
        s.inv(),
        !s.peers.contains_key(key),
        key != s.peer_key,
    ensures
        ({
            let t = s.introduced(session, ty, key, vetting);
            let u = s.introduced(session, ty, key, other);
            let actions = s.introduced_actions(session, key, vetting);
            &&& s.pending.contains_key(session) ==> t.connected[session].node_crt == match vetting {
                VettingState::Accepted(crt) => Some(crt),
                VettingState::NotAsked => None,
                VettingState::Refused => None,
            }
            &&& s.pending.contains_key(session) ==> t.connected[session].conn_addr
                == u.connected[session].conn_addr && t.connected[session].trans_addr
                == u.connected[session].trans_addr
            &&& same_except(t.connected, u.connected, session)
            &&& !s.pending.contains_key(session) ==> t.connected == u.connected
            &&& t.pending == u.pending && t.peers == u.peers && t.topology == u.topology
            &&& same_setup(t, u) && same_addresses(t, u) && same_messages(t, u)
            &&& same_revocation(t, u) && same_dial(t, u)
            &&& s.ctrl && vetting is Refused ==> actions == seq![ActionState::Disconnect(session)]
            &&& !(s.ctrl && vetting is Refused) ==> actions.len() == 0
        }),
{
    let actions = s.introduced_actions(session, key, vetting);
    assert(actions =~= if_told(s.ctrl && vetting is Refused, ActionState::Disconnect(session)));
}

/// An accepted certificate can be revoked: once the account of a new peer, whose
/// session waited and whose certificate was accepted, comes onto the list, that
/// session is closed.
pub proof fn law_accepted_peers_can_be_revoked(
    req: AddConnectedNodeReq,
    s: ManagerState,
    t: ManagerState,
    out: Outcome,
    crl: UpdateCrlReq,
    u: ManagerState,
    then: Outcome,
)
    requires
        s.inv(),
        NodesManagerMessage::AddConnectedNode(req).leads(s, t, out),
        !s.peers.contains_key(req.init_msg.peer_key),
        req.init_msg.peer_key != s.peer_key,
        s.enable_ca,
        s.root_crt is Some,
        s.ctrl,
        s.pending.contains_key(req.session_id),
        does_nothing(out),
        NodesManagerMessage::UpdateCrl(crl).leads(t, u, then),
        crl.crl@.contains(req.init_msg.peer_key),
    ensures
        then matches Outcome::Actions(list) && list@.contains(Action::Disconnect(req.session_id)),
{
    law_new_certificates(req, s, t, out);
    law_messages_keep_what_holds(
        NodesManagerMessage::AddConnectedNode(req),
        s,
        t,
        out,
    );
    law_messages_keep_the_setup(
        NodesManagerMessage::AddConnectedNode(req),
        s,
        t,
        out,
    );
    law_new_lists(crl, t, u, then, req.session_id);
    assert(t.connected.contains_key(req.session_id));
}

/// A new revocation list takes the place of the old one. With the network layer
/// there, exactly the open sessions are closed whose certificates are for
/// accounts on the list. Nothing else changes.
pub proof fn law_new_lists(
    req: UpdateCrlReq,
    s: ManagerState,
    t: ManagerState,
    out: Outcome,
    session: SessionId,
)
    requires
        s.inv(),
        NodesManagerMessage::UpdateCrl(req).leads(s, t, out),
    ensures
        out matches Outcome::Actions(list) && {
            &&& list@.contains(Action::Disconnect(session)) <==> s.ctrl
                && s.connected.contains_key(session) && (s.connected[session].node_crt matches Some(
                crt,
            ) && req.crl@.contains(crt.address))
            &&& forall|i: int| 0 <= i < list@.len() ==> #[trigger] list@[i] is Disconnect
        },
        t.crl == req.crl@,
        t.get_crl_point == s.get_crl_point,
        same_setup(s, t) && same_addresses(s, t) && same_sessions(s, t),
        same_messages(s, t) && same_dial(s, t),
{
    let list = out->Actions_0@;
    lemma_revoking_only_disconnects(s, req.crl@);
    lemma_disconnects(list, session);
    if s.ctrl {
        law_revoked_sessions_are_closed(s, req.crl@, session);
    } else {
        lemma_silent_revocation(s, req.crl@);
    }
}

/// Which sessions a list of actions closes.
proof fn lemma_disconnects(list: Seq<Action>, session: SessionId)
    ensures
        list.contains(Action::Disconnect(session)) <==> asked(list).contains(
            ActionState::Disconnect(session),
        ),
        forall|i: int|
            0 <= i < list.len() ==> (#[trigger] list[i] is Disconnect <==> asked(
                list,
            )[i] is Disconnect),
{
    assert forall|i: int| 0 <= i < list.len() implies asked(list)[i] == (#[trigger] list[i])@ by {}
    if asked(list).contains(ActionState::Disconnect(session)) {
        let i = asked(list).index_of(ActionState::Disconnect(session));
        assert(list[i]@ == ActionState::Disconnect(session));
        match list[i] {
            Action::Disconnect(id) => {},
            _ => {},
        }
        assert(list[i] == Action::Disconnect(session));
    }
    if list.contains(Action::Disconnect(session)) {
        let i = list.index_of(Action::Disconnect(session));
        assert(asked(list)[i] == ActionState::Disconnect(session));
    }
}

/// Without the network layer a new list closes nothing.
proof fn lemma_silent_revocation(s: ManagerState, crl: Seq<Address>)
    requires
        !s.ctrl,
    ensures
        s.revocation_actions(crl).len() == 0,
    decreases crl.len(),
{
    if crl.len() > 0 {
        lemma_silent_revocation(s, crl.drop_last());
        lemma_silent_closing(s, in_order(s.connected.dom()), crl.last());
    }
}

proof fn lemma_silent_closing(s: ManagerState, ids: Seq<SessionId>, addr: Address)
    requires
        !s.ctrl,
    ensures
        s.closing_actions(ids, addr).len() == 0,
    decreases ids.len(),
{
    if ids.len() > 0 {
        lemma_silent_closing(s, ids.drop_last(), addr);
    }
}

/// A new block. Validators of a height that is not lower than the one that is
/// kept take the place of those that were known, whichever these were; of a
/// lower one they change nothing. Validators that are the same raise the height
/// to theirs. The flag says whether the new validators are all linked. Nothing
/// else of the topology changes.
pub proof fn law_new_blocks(
    req: DealRichStatusReq,
    s: ManagerState,
    t: ManagerState,
    out: Outcome,
)
    requires
        s.inv(),
        NodesManagerMessage::DealRichStatus(req).admissible(s),
        NodesManagerMessage::DealRichStatus(req).leads(s, t, out),
    ensures
        req.msg.height >= s.topology.height ==> forall|account: Address| #[trigger]
            t.topology.validators.contains(account) <==> exists|i: int|
                0 <= i < req.msg.validators@.len() && #[trigger] req.msg.validators@[i]@
                    == address_bytes(account),
        req.msg.height < s.topology.height ==> t.topology == s.topology,
        t.topology.validators == s.topology.validators ==> t.topology.all_linked
            == s.topology.all_linked,
        t.topology.validators != s.topology.validators ==> t.topology.all_linked
            == t.topology.validators.subset_of(s.topology.linked) && t.topology.height
            == s.topology.height,
        req.msg.height >= s.topology.height && t.topology.validators == s.topology.validators
            ==> t.topology.height == req.msg.height,
        t.topology.linked == s.topology.linked,
        t.connected == s.connected && t.pending == s.pending && t.peers == s.peers,
        t.crl == s.crl,
        same_setup(s, t) && same_addresses(s, t) && same_messages(s, t) && same_dial(s, t),
{
    let listed = req.msg.listed();
    let all = listed.map_values(|bytes: Seq<u8>| address_of(bytes));
    if req.msg.height >= s.topology.height {
        assert forall|account: Address| #[trigger] t.topology.validators.contains(
            account,
        ) <==> exists|i: int|
            0 <= i < req.msg.validators@.len() && #[trigger] req.msg.validators@[i]@
                == address_bytes(account) by {
            law_address_of_its_bytes(account);
            if all.contains(account) {
                let i = all.index_of(account);
                assert(listed[i].len() == 20);
                law_bytes_of_their_address(listed[i]);
                assert(req.msg.validators@[i]@ == address_bytes(account));
            }
            if exists|i: int|
                0 <= i < req.msg.validators@.len() && #[trigger] req.msg.validators@[i]@
                    == address_bytes(account) {
                let i = choose|i: int|
                    0 <= i < req.msg.validators@.len() && #[trigger] req.msg.validators@[i]@
                        == address_bytes(account);
                assert(all[i] == account);
            }
            assert(t.topology.validators == all.to_set());
        }
    }
}

/// The revocation list is asked for at a new block exactly where certificates
/// are in use and the chain has grown by more than a hundred blocks since it
/// was last asked for: by a call of the contract that keeps it, in the name of
/// the zero account, as of the latest block, under a random number. The height
/// is kept then, and only then.
pub proof fn law_lists_are_asked_for(
    req: DealRichStatusReq,
    s: ManagerState,
    t: ManagerState,
    out: Outcome,
)
    requires
        NodesManagerMessage::DealRichStatus(req).leads(s, t, out),
    ensures
        ({
            let due = s.enable_ca && req.msg.height > s.get_crl_point + 100;
            &&& !due ==> does_nothing(out) && t.get_crl_point == s.get_crl_point
            &&& due ==> t.get_crl_point == req.msg.height && (only_action(out) matches Some(
                Action::GetCrl(request),
            ) && is_random_uuid(request.request_id@) && (request.call matches Some(call) && {
                &&& call.from@.len() == 20
                &&& forall|i: int| 0 <= i < 20 ==> #[trigger] call.from@[i] == 0
                &&& call.to@.len() == 20
                &&& forall|i: int| 0 <= i < 17 ==> #[trigger] call.to@[i] == 0xff
                &&& call.to@[17] == 2 && call.to@[18] == 0 && call.to@[19] == 0x30
                &&& call.data@ == keccak256_of(
                    seq![103u8, 101u8, 116u8, 67u8, 114u8, 108u8, 40u8, 41u8],
                ).take(4)
                &&& call.height@ == "\"latest\""@
            }))
        }),
{
    let list = out->Actions_0@;
    if s.enable_ca && req.msg.height > s.get_crl_point + 100 {
        let id = choose|id: Seq<u8>| #[trigger]
            is_random_uuid(id) && out.asks(
                seq![ActionState::GetCrl(crl_request(id))],
            );
        lemma_one_action(list, ActionState::GetCrl(crl_request(id)));
        match list[0] {
            Action::GetCrl(_) => {},
            _ => {},
        }
        lemma_zero_bytes(16);
        lemma_zero_bytes(4);
        lemma_manager_bytes();
    } else {
        lemma_no_action(list);
    }
}

/// The bytes of the address of the contract that keeps the revocation list.
proof fn lemma_manager_bytes()
    ensures
        address_bytes(CERT_REVOKE_MANAGER).len() == 20,
        forall|i: int|
            0 <= i < 17 ==> #[trigger] address_bytes(CERT_REVOKE_MANAGER)[i] == 0xff,
        address_bytes(CERT_REVOKE_MANAGER)[17] == 2,
        address_bytes(CERT_REVOKE_MANAGER)[18] == 0,
        address_bytes(CERT_REVOKE_MANAGER)[19] == 0x30,
{
    let high = Seq::new(16, |i: int| 0xffu8);
    let low = seq![0xffu8, 2u8, 0u8, 0x30u8];
    lemma_be_bytes_len(CERT_REVOKE_MANAGER.0 as nat, 16);
    lemma_be_bytes_len(CERT_REVOKE_MANAGER.1 as nat, 4);
    assert(be_value(low) == 0xff02_0030) by {
        reveal_with_fuel(be_value, 5);
        assert(low.drop_last() =~= seq![0xffu8, 2u8, 0u8]);
        assert(seq![0xffu8, 2u8, 0u8].drop_last() =~= seq![0xffu8, 2u8]);
        assert(seq![0xffu8, 2u8].drop_last() =~= seq![0xffu8]);
        assert(seq![0xffu8].drop_last() =~= Seq::<u8>::empty());
    }
    lemma_bytes_of_value(low);
    lemma_full_bytes(16);
    lemma_room_of_words();
}

/// The largest number of so many bytes has them all set.
proof fn lemma_full_bytes(len: nat)
    ensures
        room(len) > 0,
        be_bytes((room(len) - 1) as nat, len).len() == len,
        forall|i: int|
            0 <= i < len ==> #[trigger] be_bytes((room(len) - 1) as nat, len)[i] == 0xff,
    decreases len,
{
    if len > 0 {
        lemma_full_bytes((len - 1) as nat);
        let n = (room(len) - 1) as nat;
        assert(n / 256 == room((len - 1) as nat) - 1);
        assert(n % 256 == 255);
    }
}

/// A new list of configured peers. Exactly the peers on it are configured;
/// those that were keep their addresses, and the new ones have none. Exactly
/// the addresses of the peers that were dropped are no longer known, and with
/// the network layer there, exactly the sessions that connected to these are
/// closed. Nothing else changes.
pub proof fn law_new_peers(
    req: ModifiedConfigPeersReq,
    s: ManagerState,
    t: ManagerState,
    out: Outcome,
    name: Seq<char>,
    addr: SocketAddr,
    session: SessionId,
)
    requires
        s.inv(),
        NodesManagerMessage::ModifiedConfigPeers(req).leads(s, t, out),
    ensures
        t.config.contains_key(name) <==> texts(req.peers@).contains(name),
        t.config.contains_key(name) ==> t.config[name] == if s.config.contains_key(name) {
            s.config[name]
        } else {
            None
        },
        t.known.contains_key(addr) <==> s.known.contains_key(addr) && !is_dropped(
            s,
            texts(req.peers@),
            addr,
        ),
        t.known.contains_key(addr) ==> t.known[addr] == s.known[addr],
        out matches Outcome::Actions(list) && {
            &&& list@.contains(Action::Disconnect(session)) <==> s.ctrl && exists|a: SocketAddr|
                s.known.contains_key(a) && s.known[a].session_id == Some(session)
                    && #[trigger] is_dropped(s, texts(req.peers@), a)
            &&& forall|i: int| 0 <= i < list@.len() ==> #[trigger] list@[i] is Disconnect
        },
        same_setup(s, t) && same_sessions(s, t) && same_messages(s, t),
        same_revocation(s, t) && same_dial(s, t),
{
    let names = texts(req.peers@);
    let out_names = s.left_out(names);
    let gone = s.config.dom().difference(names.to_set());
    let list = out->Actions_0@;
    law_config_is_the_list(s, names);
    lemma_names_in_order_enumerates(gone);
    lemma_peers_dropped(s, out_names);
    assert(t.config.contains_key(name) <==> names.to_set().contains(name));
    assert forall|n: Seq<char>| out_names.contains(n) <==> s.config.contains_key(n)
        && !names.contains(n) by {
        assert(out_names.to_set().contains(n) <==> gone.contains(n));
    }
    assert forall|i: int| 0 <= i < out_names.len() implies s.config.contains_key(
        #[trigger] out_names[i],
    ) by {
        assert(out_names.contains(out_names[i]));
    }
    assert forall|i: int, j: int| 0 <= i < j < out_names.len() implies out_names[i]
        != out_names[j] by {
        assert(name_before()(out_names[i], out_names[j]));
        lemma_text_order_asymmetric(out_names[i], out_names[j]);
    }
    assert forall|a: SocketAddr| #[trigger] is_dropped(s, names, a) <==> exists|i: int|
        0 <= i < out_names.len() && s.config[#[trigger] out_names[i]] == Some(a) by {
        if is_dropped(s, names, a) {
            let n = choose|n: Seq<char>| #[trigger]
                s.config.contains_key(n) && !names.contains(n) && s.config[n] == Some(a);
            assert(out_names.contains(n));
            assert(s.config[out_names[out_names.index_of(n)]] == Some(a));
        }
        if exists|i: int| 0 <= i < out_names.len() && s.config[#[trigger] out_names[i]] == Some(a) {
            let i = choose|i: int|
                0 <= i < out_names.len() && s.config[#[trigger] out_names[i]] == Some(a);
            assert(out_names.contains(out_names[i]));
            assert(s.config.contains_key(out_names[i]));
        }
    }
    lemma_dropped_known(s, out_names, addr);
    assert(is_dropped(s, names, addr) <==> exists|i: int|
        0 <= i < out_names.len() && s.config[#[trigger] out_names[i]] == Some(addr));
    lemma_dropped_sessions(s, out_names, session);
    lemma_dropping_only_disconnects(s, out_names);
    lemma_disconnects(list, session);
    if s.peers_dropped_actions(out_names).contains(ActionState::Disconnect(session)) {
        let i = choose|i: int|
            0 <= i < out_names.len() && closes_with(s, #[trigger] out_names[i], session);
        let a = s.config[out_names[i]]->0;
        assert(is_dropped(s, names, a));
    }
    if s.ctrl && exists|a: SocketAddr|
        s.known.contains_key(a) && s.known[a].session_id == Some(session) && #[trigger] is_dropped(
            s,
            names,
            a,
        ) {
        let a = choose|a: SocketAddr|
            s.known.contains_key(a) && s.known[a].session_id == Some(session)
                && #[trigger] is_dropped(s, names, a);
        let i = choose|i: int|
            0 <= i < out_names.len() && s.config[#[trigger] out_names[i]] == Some(a);
        assert(closes_with(s, out_names[i], session));
    }
}

/// An address belongs to a configured peer that a new list leaves out.
pub open spec fn is_dropped(s: ManagerState, names: Seq<Seq<char>>, addr: SocketAddr) -> bool {
    exists|name: Seq<char>| #[trigger]
        s.config.contains_key(name) && !names.contains(name) && s.config[name] == Some(addr)
}

/// A session connects to the address of a configured peer.
spec fn closes_with(s: ManagerState, name: Seq<char>, session: SessionId) -> bool {
    s.config[name] matches Some(addr) && s.known.contains_key(addr) && s.known[addr].session_id
        == Some(session)
}

/// Which addresses are known after configured peers were dropped.
proof fn lemma_dropped_known(s: ManagerState, names: Seq<Seq<char>>, addr: SocketAddr)
    requires
        s.known.dom().finite(),
        forall|i: int| 0 <= i < names.len() ==> s.config.contains_key(#[trigger] names[i]),
        forall|i: int, j: int| 0 <= i < j < names.len() ==> names[i] != names[j],
    ensures
        s.peers_dropped(names).known.contains_key(addr) <==> s.known.contains_key(addr) && !exists|
            i: int,
        |
            0 <= i < names.len() && s.config[#[trigger] names[i]] == Some(addr),
    decreases names.len(),
{
    if names.len() > 0 {
        let front = names.drop_last();
        lemma_dropped_known(s, front, addr);
        lemma_peers_dropped(s, front);
        assert(!front.contains(names.last())) by {
            if front.contains(names.last()) {
                let i = front.index_of(names.last());
                assert(names[i] == names.last());
            }
        }
        assert(s.peers_dropped(front).config[names.last()] == s.config[names.last()]);
        if exists|i: int| 0 <= i < names.len() && s.config[#[trigger] names[i]] == Some(addr) {
            let i = choose|i: int|
                0 <= i < names.len() && s.config[#[trigger] names[i]] == Some(addr);
            if i < front.len() {
                assert(s.config[front[i]] == Some(addr));
            }
        }
        if exists|i: int| 0 <= i < front.len() && s.config[#[trigger] front[i]] == Some(addr) {
            let i = choose|i: int|
                0 <= i < front.len() && s.config[#[trigger] front[i]] == Some(addr);
            assert(s.config[names[i]] == Some(addr));
        }
        if s.config[names.last()] == Some(addr) {
            assert(s.config[names[names.len() - 1]] == Some(addr));
        }
    }
}

/// Which sessions are closed as configured peers are dropped.
#[verifier::spinoff_prover]
proof fn lemma_dropped_sessions(s: ManagerState, names: Seq<Seq<char>>, session: SessionId)
    requires
        s.known.dom().finite(),
        forall|i: int| 0 <= i < names.len() ==> s.config.contains_key(#[trigger] names[i]),
        forall|i: int, j: int| 0 <= i < j < names.len() ==> names[i] != names[j],
    ensures
        s.peers_dropped_actions(names).contains(ActionState::Disconnect(session)) <==> s.ctrl
            && exists|i: int|
            0 <= i < names.len() && closes_with(s, #[trigger] names[i], session),
    decreases names.len(),
{
    if names.len() > 0 {
        let front = names.drop_last();
        let name = names.last();
        let action = ActionState::Disconnect(session);
        let u = s.peers_dropped(front);
        lemma_dropped_sessions(s, front, session);
        lemma_peers_dropped(s, front);
        assert(!front.contains(name)) by {
            if front.contains(name) {
                let i = front.index_of(name);
                assert(names[i] == name);
            }
        }
        assert(u.config[name] == s.config[name]);
        let last = u.dropping_actions(name);
        lemma_in_either(s.peers_dropped_actions(front), last, action);
        if last.contains(action) {
            assert(last.len() > 0);
            assert(u.config[name] is Some);
            let addr = u.config[name]->0;
            assert(u.known.contains_key(addr) && u.known[addr].session_id is Some);
            assert(last =~= seq![ActionState::Disconnect(u.known[addr].session_id->0)]);
            assert(last[0] == action);
            assert(s.known.contains_key(addr) && s.known[addr] == u.known[addr]);
            assert(closes_with(s, names[names.len() - 1], session));
        }
        if exists|i: int| 0 <= i < front.len() && closes_with(s, #[trigger] front[i], session) {
            let i = choose|i: int|
                0 <= i < front.len() && closes_with(s, #[trigger] front[i], session);
            assert(closes_with(s, names[i], session));
        }
        if s.ctrl && exists|i: int|
            0 <= i < names.len() && closes_with(s, #[trigger] names[i], session) {
            let i = choose|i: int|
                0 <= i < names.len() && closes_with(s, #[trigger] names[i], session);
            if i < front.len() {
                assert(closes_with(s, front[i], session));
            } else {
                let addr = s.config[name]->0;
                lemma_dropped_known(s, front, addr);
                if u.known.contains_key(addr) {
                    assert(last[0] == action);
                    assert(last.contains(action));
                } else {
                    let j = choose|j: int|
                        0 <= j < front.len() && s.config[#[trigger] front[j]] == Some(addr);
                    assert(closes_with(s, front[j], session));
                }
            }
        }
    }
}

/// Exactly these messages can be handled: those whose scores stay in range, a
/// message of this node while it has a number left, an introduction whose
/// certificate, if it is looked at, can be read, and a block whose validators
/// have twenty bytes each and which, with certificates in use, is not below the
/// one at which the revocation list was asked for. All others always can.
pub proof fn law_what_can_be_handled(msg: NodesManagerMessage, s: ManagerState)
    ensures
        msg.admissible(s) <==> match msg {
            NodesManagerMessage::DialedErrorReq(req) => s.known.contains_key(req.addr)
                ==> s.known[req.addr].score >= i32::MIN + 25,
            NodesManagerMessage::DelConnectedNodeReq(req) => forall|addr: SocketAddr| #[trigger]
                s.known.contains_key(addr) && pays_for_end(s, req.session_id, addr)
                    ==> s.known[addr].score >= i32::MIN + 20,
            NodesManagerMessage::Broadcast(_) => s.self_version != 0xffff_ffff_ffff_ffff,
            NodesManagerMessage::AddConnectedNode(req) => {
                let key = req.init_msg.peer_key;
                let is_new = !s.peers.contains_key(key) && key != s.peer_key;
                &&& is_new && req.ty == SessionType::Outbound && s.pending.contains_key(
                    req.session_id,
                ) && s.known.contains_key(s.pending[req.session_id].addr)
                    ==> s.known[s.pending[req.session_id].addr].score <= i32::MAX - 10
                &&& s.peers.contains_key(key) && req.ty == SessionType::Outbound
                    && s.dialing is Some && s.known.contains_key(s.dialing->0)
                    ==> s.known[s.dialing->0].score <= i32::MAX - 10
                &&& is_new && s.enable_ca ==> (req.init_msg.node_crt matches Some(pem)
                    ==> is_certificate(pem@))
            },
            NodesManagerMessage::AddRepeatedNode(req) => s.known.contains_key(req.addr)
                ==> s.known[req.addr].score <= i32::MAX - 10,
            NodesManagerMessage::DealRichStatus(req) => {
                &&& s.enable_ca ==> req.msg.height >= s.get_crl_point
                &&& forall|i: int|
                    0 <= i < req.msg.validators@.len() ==> (
                    #[trigger] req.msg.validators@[i])@.len() == 20
            },
            _ => true,
        },
{
    match msg {
        NodesManagerMessage::DealRichStatus(req) => {
            let listed = req.msg.listed();
            assert forall|i: int| 0 <= i < req.msg.validators@.len() implies (
            #[trigger] req.msg.validators@[i])@ == listed[i] by {}
            assert(s.can_see_block(req.msg.height, listed) ==> forall|i: int|
                0 <= i < req.msg.validators@.len() ==> (#[trigger] req.msg.validators@[i])@.len()
                    == 20) by {
                if s.can_see_block(req.msg.height, listed) {
                    assert forall|i: int| 0 <= i < req.msg.validators@.len() implies (
                    #[trigger] req.msg.validators@[i])@.len() == 20 by {
                        assert(listed[i].len() == 20);
                    }
                }
            }
        },
        _ => {},
    }
}

/// A new revocation list on which no account stands twice closes no session
/// twice.
pub proof fn law_new_lists_close_once(
    req: UpdateCrlReq,
    s: ManagerState,
    t: ManagerState,
    out: Outcome,
)
    requires
        s.inv(),
        NodesManagerMessage::UpdateCrl(req).leads(s, t, out),
        req.crl@.no_duplicates(),
    ensures
        out matches Outcome::Actions(list) && forall|i: int, j: int|
            0 <= i < j < list@.len() ==> list@[i] != list@[j],
{
    let list = out->Actions_0@;
    lemma_revoked_once(s, req.crl@);
    assert(asked(list).no_duplicates());
    assert forall|i: int, j: int| 0 <= i < j < list.len() implies list[i] != list[j] by {
        assert(asked(list)[i] != asked(list)[j]);
    }
}

proof fn lemma_revoked_once(s: ManagerState, crl: Seq<Address>)
    requires
        s.inv(),
        crl.no_duplicates(),
    ensures
        s.revocation_actions(crl).no_duplicates(),
    decreases crl.len(),
{
    if !s.ctrl {
        lemma_silent_revocation(s, crl);
    } else if crl.len() > 0 {
        let front = crl.drop_last();
        let ids = in_order(s.connected.dom());
        let before = s.revocation_actions(front);
        let now = s.closing_actions(ids, crl.last());
        lemma_revoked_once(s, front);
        lemma_in_order_enumerates(s.connected.dom());
        assert forall|i: int, j: int| 0 <= i < j < ids.len() implies ids[i] != ids[j] by {
            assert(session_before()(ids[i], ids[j]));
        }
        lemma_closed_once(s, ids, crl.last());
        assert forall|i: int, j: int| 0 <= i < before.len() && 0 <= j < now.len() implies before[i]
            != now[j] by {
            lemma_revoking_only_disconnects(s, front);
            let session = now[j]->Disconnect_0;
            if before[i] == now[j] {
                assert(before.contains(ActionState::Disconnect(session)));
                law_revoked_sessions_are_closed(s, front, session);
                let k = front.index_of(crl.last());
                assert(front.contains(crl.last()));
                assert(crl[k] == crl[crl.len() - 1]);
            }
        }
        assert(s.revocation_actions(crl) == before + now);
    }
}

proof fn lemma_closed_once(s: ManagerState, ids: Seq<SessionId>, addr: Address)
    requires
        forall|i: int, j: int| 0 <= i < j < ids.len() ==> ids[i] != ids[j],
    ensures
        ({
            let actions = s.closing_actions(ids, addr);
            &&& forall|i: int|
                0 <= i < actions.len() ==> (#[trigger] actions[i] matches ActionState::Disconnect(
                    id,
                ) && ids.contains(id) && s.is_certified(id, addr))
            &&& actions.no_duplicates()
        }),
    decreases ids.len(),
{
    if ids.len() > 0 {
        let front = ids.drop_last();
        let before = s.closing_actions(front, addr);
        let actions = s.closing_actions(ids, addr);
        let last = ActionState::Disconnect(ids.last());
        lemma_closed_once(s, front, addr);
        assert forall|i: int| 0 <= i < before.len() implies #[trigger] before[i] != last by {
            let id = before[i]->Disconnect_0;
            assert(front.contains(id));
            assert(ids[front.index_of(id)] != ids[ids.len() - 1]);
        }
        assert forall|i: int| 0 <= i < actions.len() implies (
        #[trigger] actions[i] matches ActionState::Disconnect(id) && ids.contains(id)
            && s.is_certified(id, addr)) by {
            if i < before.len() {
                assert(actions[i] == before[i]);
                let id = before[i]->Disconnect_0;
                assert(ids[front.index_of(id)] == id);
            } else {
                assert(actions[i] == last);
                assert(ids[ids.len() - 1] == ids.last());
            }
        }
        assert forall|i: int, j: int| 0 <= i < actions.len() && 0 <= j < actions.len() && i
            != j implies actions[i] != actions[j] by {
            if i < before.len() && j < before.len() {
                assert(before[i] != before[j]);
            } else if i < before.len() {
                assert(before[i] != last);
            } else if j < before.len() {
                assert(before[j] != last);
            }
        }
    }
}

} // verus!
