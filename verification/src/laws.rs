//! What holds of the manager as a whole.
use vstd::prelude::*;

use crate::action::{asked, if_told, ActionState, UnitState};
use crate::cert::{
    chain_outcome, is_revoked, law_accepted_means_claimed_and_not_revoked, named_address,
    pem_common_name, CertError,
};
use crate::config_addrs::{lemma_names_in_order_enumerates, name_before, texts, unresolved};
use crate::init_msg::{decoded, law_decodes_what_was_encoded, InitState};
use crate::message::{NodesManagerMessage, Outcome};
use crate::order::{
    ascending, first_peer, in_order, is_first_peer, lemma_first_peer, lemma_in_order_enumerates,
    session_before,
};
use crate::state::{accounts, fits, is_order, ConsensusState, ManagerState, VettingState};
use crate::text::lemma_text_order_asymmetric;
use crate::topology::law_flag_stays_right;
use crate::types::{
    fresh_status, Address, NodeSource, SessionId, SessionType, SocketAddr,
    DEFAULT_MAX_KNOWN_ADDRS, DIALED_ERROR_SCORE, DIALING_SCORE, FULL_SCORE,
    MIN_DIALING_SCORE, REFUSED_SCORE, SUCCESS_DIALING_SCORE, UPDATE_CRL_PERIOD,
};

verus! {

/// What always holds does so from the start.
pub proof fn law_holds_from_the_start(peer_key: Address, consensus: ConsensusState)
    ensures
        ManagerState::initial(peer_key, consensus).inv(),
{
    let s = ManagerState::initial(peer_key, consensus);
    assert(s.topology.linked =~= s.peers.dom().insert(peer_key));
}

/// The end of a session keeps what always holds.
proof fn lemma_session_lost_keeps(s: ManagerState, session: SessionId)
    requires
        s.inv(),
    ensures
        s.session_lost(session).inv(),
{
    if s.connected.contains_key(session) {
        match first_peer(s.peers, session) {
            Some(key) => {
                assert(is_first_peer(s.peers, session, key));
                law_flag_stays_right(s.topology, key, 0, Set::empty());
                let t = s.disconnected(session);
                assert(t.topology.linked =~= t.peers.dom().insert(t.peer_key));
            },
            None => {},
        }
    }
}

/// An introduction keeps what always holds.
proof fn lemma_introduced_keeps(
    s: ManagerState,
    session: SessionId,
    ty: SessionType,
    key: Address,
    vetting: VettingState,
)
    requires
        s.inv(),
    ensures
        s.introduced(session, ty, key, vetting).inv(),
{
    let t = s.introduced(session, ty, key, vetting);
    law_flag_stays_right(s.topology, key, 0, Set::empty());
    if s.is_new_peer(key) {
        assert(t.topology.linked =~= t.peers.dom().insert(t.peer_key));
    }
}

/// Dropping configured peers changes only these and the known addresses.
pub proof fn lemma_peers_dropped(s: ManagerState, names: Seq<Seq<char>>)
    requires
        s.known.dom().finite(),
    ensures
        s.peers_dropped(names) == (ManagerState {
            config: s.peers_dropped(names).config,
            known: s.peers_dropped(names).known,
            ..s
        }),
        s.peers_dropped(names).config == s.config.remove_keys(names.to_set()),
        s.peers_dropped(names).known.submap_of(s.known),
        s.peers_dropped(names).known.dom().finite(),
    decreases names.len(),
{
    if names.len() == 0 {
        assert(s.config =~= s.config.remove_keys(names.to_set()));
    } else {
        lemma_peers_dropped(s, names.drop_last());
        assert forall|name: Seq<char>| names.contains(name) <==> names.drop_last().contains(name)
            || name == names.last() by {
            if names.contains(name) {
                let i = names.index_of(name);
                if i < names.len() - 1 {
                    assert(names.drop_last()[i] == name);
                }
            }
            if names.drop_last().contains(name) {
                let i = names.drop_last().index_of(name);
                assert(names[i] == name);
            }
        }
        assert(s.peers_dropped(names).config =~= s.config.remove_keys(names.to_set()));
    }
}

/// Every message keeps what always holds, whatever it leads to: the linked
/// nodes stay the peers and the node itself, which never becomes its own peer,
/// and the flag of the topology stays right.
#[verifier::rlimit(40)]
pub proof fn law_messages_keep_what_holds(
    msg: NodesManagerMessage,
    s: ManagerState,
    t: ManagerState,
    out: Outcome,
)
    requires
        s.inv(),
        msg.leads(s, t, out),
    ensures
        t.inv(),
{
    match msg {
        NodesManagerMessage::DelConnectedNodeReq(req) => {
            lemma_session_lost_keeps(s, req.session_id);
        },
        NodesManagerMessage::AddConnectedNode(req) => {
            let answer = choose|answer: Option<bool>|
                {
                    let vetting = #[trigger] s.vetting(req.init_msg@, answer);
                    &&& s.may_answer(req.init_msg@, answer)
                    &&& t == s.introduced(req.session_id, req.ty, req.init_msg.peer_key, vetting)
                    &&& out.asks(
                        s.introduced_actions(req.session_id, req.init_msg.peer_key, vetting),
                    )
                };
            lemma_introduced_keeps(
                s,
                req.session_id,
                req.ty,
                req.init_msg.peer_key,
                s.vetting(req.init_msg@, answer),
            );
        },
        NodesManagerMessage::ModifiedConfigPeers(req) => {
            let names = texts(req.peers@);
            lemma_peers_dropped(s, s.left_out(names));
            law_config_is_the_list(s, names);
            vstd::seq_lib::seq_to_set_is_finite(names);
        },
        NodesManagerMessage::DealRichStatus(req) => {
            law_flag_stays_right(
                s.topology,
                (0, 0),
                req.msg.height,
                accounts(req.msg.listed()),
            );
        },
        _ => {},
    }
}

/// No message starts a dial: that is left to the rounds.
#[verifier::rlimit(40)]
pub proof fn law_only_rounds_start_dials(
    msg: NodesManagerMessage,
    s: ManagerState,
    t: ManagerState,
    out: Outcome,
)
    requires
        s.inv(),
        msg.leads(s, t, out),
    ensures
        t.dialing == s.dialing || t.dialing is None,
        out matches Outcome::Actions(list) ==> forall|addr: SocketAddr|
            !(#[trigger] asked(list@).contains(ActionState::Dial(addr))),
{
    match msg {
        NodesManagerMessage::ModifiedConfigPeers(req) => {
            let dropped = s.left_out(texts(req.peers@));
            lemma_peers_dropped(s, dropped);
            lemma_dropping_only_disconnects(s, dropped);
        },
        NodesManagerMessage::UpdateCrl(req) => {
            lemma_revoking_only_disconnects(s, req.crl@);
        },
        _ => {},
    }
}

/// Dropping configured peers leads to nothing but the end of sessions.
pub proof fn lemma_dropping_only_disconnects(s: ManagerState, names: Seq<Seq<char>>)
    ensures
        forall|i: int|
            0 <= i < s.peers_dropped_actions(names).len() ==> #[trigger] s.peers_dropped_actions(
                names,
            )[i] is Disconnect,
    decreases names.len(),
{
    if names.len() > 0 {
        lemma_dropping_only_disconnects(s, names.drop_last());
    }
}

/// A new revocation list leads to nothing but the end of sessions.
pub proof fn lemma_revoking_only_disconnects(s: ManagerState, crl: Seq<Address>)
    ensures
        forall|i: int|
            0 <= i < s.revocation_actions(crl).len() ==> #[trigger] s.revocation_actions(crl)[i]
                is Disconnect,
    decreases crl.len(),
{
    if crl.len() > 0 {
        lemma_revoking_only_disconnects(s, crl.drop_last());
        lemma_closing_only_disconnects(s, in_order(s.connected.dom()), crl.last());
    }
}

proof fn lemma_closing_only_disconnects(s: ManagerState, ids: Seq<SessionId>, addr: Address)
    ensures
        forall|i: int|
            0 <= i < s.closing_actions(ids, addr).len() ==> #[trigger] s.closing_actions(
                ids,
                addr,
            )[i] is Disconnect,
    decreases ids.len(),
{
    if ids.len() > 0 {
        lemma_closing_only_disconnects(s, ids.drop_last(), addr);
    }
}

/// No message changes what the manager was set up with: its account, its
/// certificates, the number of sessions there may be, which messages are passed
/// on, and whether the network layer is there.
#[verifier::rlimit(40)]
pub proof fn law_messages_keep_the_setup(
    msg: NodesManagerMessage,
    s: ManagerState,
    t: ManagerState,
    out: Outcome,
)
    requires
        s.inv(),
        msg.leads(s, t, out),
    ensures
        same_setup(s, t),
{
    match msg {
        NodesManagerMessage::ModifiedConfigPeers(req) => {
            lemma_peers_dropped(s, s.left_out(texts(req.peers@)));
        },
        NodesManagerMessage::DelConnectedNodeReq(req) => {
            let u = s.disconnected(req.session_id);
            assert(same_setup(s, u));
            assert(same_setup(u, s.session_lost(req.session_id)));
        },
        NodesManagerMessage::AddConnectedNode(req) => {
            let answer = choose|answer: Option<bool>|
                {
                    let vetting = #[trigger] s.vetting(req.init_msg@, answer);
                    &&& s.may_answer(req.init_msg@, answer)
                    &&& t == s.introduced(req.session_id, req.ty, req.init_msg.peer_key, vetting)
                    &&& out.asks(
                        s.introduced_actions(req.session_id, req.init_msg.peer_key, vetting),
                    )
                };
            lemma_introduced_keeps_the_setup(
                s,
                req.session_id,
                req.ty,
                req.init_msg.peer_key,
                s.vetting(req.init_msg@, answer),
            );
        },
        _ => {},
    }
}

/// An introduction changes nothing that the manager was set up with.
proof fn lemma_introduced_keeps_the_setup(
    s: ManagerState,
    session: SessionId,
    ty: SessionType,
    key: Address,
    vetting: VettingState,
)
    ensures
        same_setup(s, s.introduced(session, ty, key, vetting)),
{
    let u = s.repeat_booked(ty, key).self_noted(key);
    let v = u.peer_added(session, ty, key, vetting);
    assert(same_setup(s, u));
    assert(same_setup(u, v));
}

/// Two states that do not differ in what a manager is set up with.
pub open spec fn same_setup(s: ManagerState, t: ManagerState) -> bool {
    &&& t.peer_key == s.peer_key
    &&& t.max_connects == s.max_connects
    &&& t.ctrl == s.ctrl
    &&& t.enable_ca == s.enable_ca
    &&& t.root_crt == s.root_crt
    &&& t.node_crt == s.node_crt
    &&& t.consensus == s.consensus
}

/// After the list of configured peers was replaced, exactly the peers on the
/// list are configured. Those that were before keep their addresses; the
/// addresses of the others are no longer known.
pub proof fn law_config_is_the_list(s: ManagerState, names: Seq<Seq<char>>)
    requires
        s.inv(),
    ensures
        s.config_modified(names).config.dom() == names.to_set(),
        forall|name: Seq<char>| #[trigger]
            s.config.contains_key(name) && names.contains(name) ==> s.config_modified(
                names,
            ).config[name] == s.config[name],
        forall|name: Seq<char>| #[trigger]
            s.config.contains_key(name) && !names.contains(name) ==> (s.config[name] matches Some(
                addr,
            ) ==> !s.config_modified(names).known.contains_key(addr)),
{
    let out = s.left_out(names);
    let gone = s.config.dom().difference(names.to_set());
    lemma_names_in_order_enumerates(gone);
    lemma_peers_dropped(s, out);
    let t = s.config_modified(names);
    assert(t.config.dom() =~= names.to_set());
    assert forall|name: Seq<char>| #[trigger] s.config.contains_key(name) && !names.contains(
        name,
    ) implies (s.config[name] matches Some(addr) ==> !t.known.contains_key(addr)) by {
        assert(gone.contains(name));
        assert(out.to_set().contains(name));
        lemma_dropped_is_unknown(s, out, out.index_of(name));
    }
}

/// The address of a dropped peer is not known after peers were dropped, each
/// once.
proof fn lemma_dropped_is_unknown(s: ManagerState, names: Seq<Seq<char>>, i: int)
    requires
        s.known.dom().finite(),
        0 <= i < names.len(),
        s.config.contains_key(names[i]),
        ascending(names, name_before()),
    ensures
        s.config[names[i]] matches Some(addr) ==> !s.peers_dropped(names).known.contains_key(addr),
    decreases names.len(),
{
    let front = names.drop_last();
    lemma_peers_dropped(s, front);
    if i < names.len() - 1 {
        assert forall|j: int, k: int| 0 <= j < k < front.len() implies name_before()(
            #[trigger] front[j],
            #[trigger] front[k],
        ) by {
            assert(name_before()(names[j], names[k]));
        }
        lemma_dropped_is_unknown(s, front, i);
    } else {
        assert(!front.contains(names[i])) by {
            if front.contains(names[i]) {
                let j = front.index_of(names[i]);
                assert(name_before()(names[j], names[i]));
                lemma_text_order_asymmetric(names[j], names[i]);
            }
        }
        assert(s.peers_dropped(front).config[names[i]] == s.config[names[i]]);
    }
}

/// Looking up names changes only the known addresses and the configured
/// peers, and forgets none of them.
proof fn lemma_translated(s: ManagerState, names: Seq<Seq<char>>, answers: Seq<Option<SocketAddr>>)
    requires
        s.inv(),
        names.len() == answers.len(),
    ensures
        s.translated(names, answers) == (ManagerState {
            config: s.translated(names, answers).config,
            known: s.translated(names, answers).known,
            ..s
        }),
        s.translated(names, answers).inv(),
        forall|addr: SocketAddr| #[trigger]
            s.known.contains_key(addr) ==> s.translated(names, answers).known.contains_key(addr),
    decreases names.len(),
{
    if names.len() > 0 {
        lemma_translated(s, names.drop_last(), answers.drop_last());
    }
}

/// A tick keeps what always holds: looking up names does, and so does a round
/// of dialing.
pub proof fn law_ticks_keep_what_holds(
    s: ManagerState,
    names: Seq<Seq<char>>,
    answers: Seq<Option<SocketAddr>>,
    order: Seq<SocketAddr>,
)
    requires
        s.inv(),
        names.len() == answers.len(),
    ensures
        s.translated(names, answers).inv(),
        s.round_made(order).inv(),
{
    lemma_translated(s, names, answers);
    assert(s.round_made(order).known.dom() =~= s.known.dom());
}

/// A configured peer whose name was looked up and has an address gets that
/// address, and the address is known, with the full score.
pub proof fn law_translated_peers_are_known(
    s: ManagerState,
    answers: Seq<Option<SocketAddr>>,
    i: int,
)
    requires
        s.inv(),
        0 <= i < answers.len(),
        answers.len() == s.to_translate().len(),
        answers[i] is Some,
    ensures
        s.translated(s.to_translate(), answers).config[s.to_translate()[i]] == answers[i],
        s.translated(s.to_translate(), answers).known.contains_key(answers[i]->0),
        s.translated(s.to_translate(), answers).known[answers[i]->0] == fresh_status(
            NodeSource::FromConfig,
        ),
{
    let names = s.to_translate();
    lemma_names_in_order_enumerates(unresolved(s.config));
    assert forall|j: int, k: int| 0 <= j < k < names.len() implies names[j] != names[k] by {
        assert(name_before()(names[j], names[k]));
        lemma_text_order_asymmetric(names[j], names[k]);
    }
    lemma_translated_entry(s, names, answers, i);
}

proof fn lemma_translated_entry(
    s: ManagerState,
    names: Seq<Seq<char>>,
    answers: Seq<Option<SocketAddr>>,
    i: int,
)
    requires
        0 <= i < names.len(),
        answers.len() == names.len(),
        answers[i] is Some,
        forall|j: int, k: int| 0 <= j < k < names.len() ==> names[j] != names[k],
    ensures
        s.translated(names, answers).config[names[i]] == answers[i],
        s.translated(names, answers).known.contains_key(answers[i]->0),
        s.translated(names, answers).known[answers[i]->0] == fresh_status(NodeSource::FromConfig),
    decreases names.len(),
{
    if i < names.len() - 1 {
        assert(names.drop_last()[i] == names[i]);
        assert(answers.drop_last()[i] == answers[i]);
        lemma_translated_entry(s, names.drop_last(), answers.drop_last(), i);
    }
}

/// The number of addresses that are passed over is the place of the first one
/// that may be dialed, if there is one.
proof fn lemma_first_dialable(s: ManagerState, order: Seq<SocketAddr>)
    ensures
        s.passed_over(order) <= order.len(),
        s.passed_over(order) < order.len() ==> s.dialable(order[s.passed_over(order) as int]),
        forall|k: int| 0 <= k < s.passed_over(order) ==> !s.dialable(#[trigger] order[k]),
    decreases order.len(),
{
    if order.len() > 0 && !s.dialable(order[0]) {
        let rest = order.drop_first();
        lemma_first_dialable(s, rest);
        assert forall|k: int| 0 <= k < s.passed_over(order) implies !s.dialable(
            #[trigger] order[k],
        ) by {
            if k > 0 {
                assert(rest[k - 1] == order[k]);
            }
        }
    }
}

/// A round dials at most one address. It is known, it is not connected, it is
/// not this node's, and its score is not too low; its status is not changed
/// before the dial, so that it can pay for it.
pub proof fn law_dials_only_what_may_be_dialed(s: ManagerState, order: Seq<SocketAddr>)
    requires
        is_order(order, s.known),
    ensures
        s.round_actions(order).len() <= 1,
        s.dials(order) matches Some(addr) ==> {
            &&& s.round_actions(order) == seq![ActionState::Dial(addr)]
            &&& s.round_made(order).dialing == Some(addr)
            &&& s.known.contains_key(addr)
            &&& s.known[addr].session_id is None
            &&& s.known[addr].score >= MIN_DIALING_SCORE
            &&& s.self_addr != Some(addr)
            &&& s.round_made(order).known[addr] == s.known[addr]
            &&& s.round_made(order).bears(addr, -DIALING_SCORE)
        },
        s.dials(order) is None ==> s.round_made(order).dialing == s.dialing,
{
    lemma_first_dialable(s, order);
    if s.dials(order) is Some {
        let n = s.passed_over(order) as int;
        assert(order.to_set().contains(order[n]));
    }
}

/// A round dials some address where one may be dialed, there may be more
/// sessions, and the network layer is there to be told.
pub proof fn law_dials_if_it_can(s: ManagerState, order: Seq<SocketAddr>, addr: SocketAddr)
    requires
        is_order(order, s.known),
        s.ctrl,
        !s.full(),
        s.known.contains_key(addr),
        s.dialable(addr),
    ensures
        s.dials(order) is Some,
{
    lemma_first_dialable(s, order);
    assert(order.to_set().contains(addr));
    let k = order.index_of(addr);
    assert(s.dialable(order[k]));
}

/// No address is dialed while another one is, nor while there are as many
/// sessions as there may be; while a dial is under way a tick changes nothing.
pub proof fn law_no_dial_when_busy_or_full(
    s: ManagerState,
    answers: Seq<Option<SocketAddr>>,
    order: Seq<SocketAddr>,
)
    requires
        s.inv(),
        answers.len() == s.to_translate().len(),
    ensures
        s.dialing is Some <==> s.ready_for_round(answers) is None,
        s.ready_for_round(answers) matches Some(t) ==> {
            &&& t.dialing is None
            &&& t.full() == s.full()
            &&& t.full() ==> t.dials(order) is None && t.round_made(order).dialing is None
        },
{
    lemma_translated(s, s.to_translate(), answers);
}

/// A round does not take a score above the full one, and lowers none that is
/// not above it.
pub proof fn law_rounds_raise_scores(s: ManagerState, order: Seq<SocketAddr>, addr: SocketAddr)
    requires
        s.known.contains_key(addr),
        s.known[addr].score <= FULL_SCORE,
    ensures
        s.known[addr].score <= s.round_made(order).known[addr].score <= FULL_SCORE,
{
}

/// In every round each address that is connected gets five, up to the full
/// score, and each one whose score is too low, and that is not this node's,
/// gets two where it was configured and one where it was discovered; whichever
/// address is dialed, and though there are as many sessions as there may be.
pub proof fn law_rest_is_rewarded(s: ManagerState, order: Seq<SocketAddr>, addr: SocketAddr)
    requires
        s.known.contains_key(addr),
    ensures
        s.known[addr].session_id is Some ==> s.round_made(order).known[addr].score == (
        if s.known[addr].score + 5 > FULL_SCORE {
            FULL_SCORE as int
        } else {
            s.known[addr].score + 5
        }),
        s.known[addr].session_id is None && s.self_addr != Some(addr) && s.known[addr].score
            < MIN_DIALING_SCORE ==> s.round_made(order).known[addr].score == s.known[addr].score
            + (if s.known[addr].node_src == NodeSource::FromConfig {
            2int
        } else {
            1int
        }),
{
}

/// The order of a round decides only which address is dialed.
pub proof fn law_order_decides_only_the_dial(
    s: ManagerState,
    order: Seq<SocketAddr>,
    other: Seq<SocketAddr>,
)
    requires
        is_order(order, s.known),
        is_order(other, s.known),
    ensures
        s.round_made(order).known == s.round_made(other).known,
        s.dials(order) is Some <==> s.dials(other) is Some,
{
    assert(s.round_made(order).known =~= s.round_made(other).known);
    lemma_first_dialable(s, order);
    lemma_first_dialable(s, other);
    let (n, m) = (s.passed_over(order) as int, s.passed_over(other) as int);
    if n < order.len() {
        assert(order.to_set().contains(order[n]));
        assert(other.to_set().contains(order[n]));
        assert(s.dialable(other[other.index_of(order[n])]));
    }
    if m < other.len() {
        assert(other.to_set().contains(other[m]));
        assert(order.to_set().contains(other[m]));
        assert(s.dialable(order[order.index_of(other[m])]));
    }
}

/// A dial costs ten and a failed dial twenty-five; the end of a session costs
/// the address that it connected to twenty, and so does the refusal of one that
/// was dialed. Nobody else pays.
pub proof fn law_what_dials_cost(
    s: ManagerState,
    addr: SocketAddr,
    session: SessionId,
    other: SocketAddr,
)
    requires
        s.known.contains_key(addr),
        other != addr,
    ensures
        s.bears(addr, -DIALING_SCORE) ==> s.dial_taken(addr).known[addr].score
            == s.known[addr].score - 10,
        s.dial_taken(addr).known[other] == s.known[other],
        s.bears(addr, -DIALED_ERROR_SCORE) ==> s.dial_failed(addr).known[addr].score
            == s.known[addr].score - 25,
        s.dial_failed(addr).known[other] == s.known[other],
        s.connects(addr, session) && s.can_fix(addr, session) ==> {
            &&& s.status_fixed(addr, session).known[addr].score == s.known[addr].score - 20
            &&& s.status_fixed(addr, session).known[addr].session_id is None
        },
        !s.connects(addr, session) ==> s.status_fixed(addr, session) == s,
        s.status_fixed(addr, session).known[other] == s.known[other],
        s.refusable(addr, session) && s.can_refuse(addr, session) ==> {
            &&& s.refused(addr, session).known[addr].score == s.known[addr].score - 20
            &&& s.refused(addr, session).known[addr].session_id is None
        },
        !s.refusable(addr, session) ==> s.refused(addr, session) == s,
        s.refused(addr, session).known[other] == s.known[other],
{
}

/// A dialed session that ends before it has introduced itself costs the
/// address that was dialed twenty, and ends the dial.
pub proof fn law_refused_dials_are_paid_for(s: ManagerState, session: SessionId)
    requires
        s.can_lose(session),
        s.pending.contains_key(session),
        s.pending[session].ty == SessionType::Outbound,
        s.refusable(s.pending[session].addr, session),
    ensures
        s.session_lost(session).known[s.pending[session].addr].score
            == s.known[s.pending[session].addr].score - 20,
        s.session_lost(session).known[s.pending[session].addr].session_id is None,
        !s.session_lost(session).pending.contains_key(session),
        s.session_lost(session).dialing is None,
{
}

/// The end of a session costs no address more than twenty.
pub proof fn law_lost_sessions_are_paid_for_once(
    s: ManagerState,
    session: SessionId,
    addr: SocketAddr,
)
    requires
        s.can_lose(session),
        s.known.contains_key(addr),
    ensures
        s.known[addr].score - 20 <= s.session_lost(session).known[addr].score
            <= s.known[addr].score,
{
}

/// The end of an open session frees the address that it connected to, and
/// costs it twenty.
pub proof fn law_lost_session_is_paid_for(s: ManagerState, session: SessionId)
    requires
        s.can_lose(session),
        s.connected.contains_key(session),
        s.connects(s.known_as(session), session),
    ensures
        s.session_lost(session).known[s.known_as(session)].score == s.known[s.known_as(
            session,
        )].score - 20,
        s.session_lost(session).known[s.known_as(session)].session_id is None,
        !s.session_lost(session).connected.contains_key(session),
        !s.session_lost(session).pending.contains_key(session),
{
}

/// The end of an open session unlinks its peer, where the session has no
/// other, and leaves all others.
pub proof fn law_lost_peers_are_unlinked(s: ManagerState, session: SessionId, key: Address)
    requires
        s.inv(),
        s.connected.contains_key(session),
        s.peers.contains_key(key),
        s.peers[key] == session,
        forall|other: Address| #[trigger]
            s.peers.contains_key(other) && other != key ==> s.peers[other] != session,
    ensures
        s.session_lost(session).peers == s.peers.remove(key),
        s.session_lost(session).topology.linked == s.topology.linked.remove(key),
{
    assert(is_first_peer(s.peers, session, key));
    lemma_first_peer(s.peers, session, key);
}

/// Every way in which a dial can end ends it: it fails, it reaches a node that
/// is connected already, it leads back to this node, its session introduces
/// itself, or that session ends before.
pub proof fn law_dials_end(
    s: ManagerState,
    addr: SocketAddr,
    session: SessionId,
    key: Address,
    vetting: VettingState,
)
    ensures
        s.dial_failed(addr).dialing is None,
        s.repeated_added(addr, session).dialing is None,
        s.self_connected(addr).dialing is None,
        s.introduced(session, SessionType::Outbound, key, vetting).dialing is None,
        s.pending.contains_key(session) && s.pending[session].ty == SessionType::Outbound
            ==> s.session_lost(session).dialing is None,
{
}

/// A node that becomes known has the full score and no session. One that is
/// known stays as it is, and so do all others.
pub proof fn law_new_nodes_have_full_score(
    s: ManagerState,
    addr: SocketAddr,
    source: NodeSource,
    other: SocketAddr,
)
    requires
        other != addr,
    ensures
        !s.known.contains_key(addr) && s.node_added(addr, source).known.contains_key(addr) ==> {
            &&& s.node_added(addr, source).known[addr].score == FULL_SCORE
            &&& s.node_added(addr, source).known[addr].session_id is None
            &&& s.node_added(addr, source).known[addr].node_src == source
        },
        s.known.contains_key(addr) ==> s.node_added(addr, source) == s,
        s.node_added(addr, source).known.contains_key(other) == s.known.contains_key(other),
        s.node_added(addr, source).known[other] == s.known[other],
{
}

/// Addresses that are found do not make more than 1001 known.
pub proof fn law_known_nodes_are_bounded(s: ManagerState, addr: SocketAddr, source: NodeSource)
    requires
        s.inv(),
    ensures
        s.known.len() <= DEFAULT_MAX_KNOWN_ADDRS + 1 ==> s.node_added(addr, source).known.len()
            <= DEFAULT_MAX_KNOWN_ADDRS + 1,
        s.known.len() > DEFAULT_MAX_KNOWN_ADDRS ==> s.node_added(addr, source) == s,
{
}

/// A peer that introduces itself on a session of its own and is lost again
/// leaves the sessions, the peers and the linked nodes as they were.
pub proof fn law_losing_undoes_introducing(
    s: ManagerState,
    session: SessionId,
    ty: SessionType,
    key: Address,
    vetting: VettingState,
)
    requires
        s.inv(),
        s.is_new_peer(key),
        s.pending.contains_key(session),
        !s.connected.contains_key(session),
        forall|other: Address| #[trigger]
            s.peers.contains_key(other) ==> s.peers[other] != session,
    ensures
        s.introduced(session, ty, key, vetting).session_lost(session).connected == s.connected,
        s.introduced(session, ty, key, vetting).session_lost(session).peers == s.peers,
        s.introduced(session, ty, key, vetting).session_lost(session).topology.linked
            == s.topology.linked,
        s.introduced(session, ty, key, vetting).session_lost(session).pending == s.pending.remove(
            session,
        ),
{
    let t = s.introduced(session, ty, key, vetting);
    let u = t.session_lost(session);
    assert(t.connected.contains_key(session));
    assert(is_first_peer(t.peers, session, key));
    lemma_first_peer(t.peers, session, key);
    assert(u.connected =~= s.connected);
    assert(u.peers =~= s.peers);
    assert(u.topology.linked =~= s.topology.linked);
    assert(u.pending =~= s.pending.remove(session));
}

/// A session that was dialed and is lost again costs its address ten: the
/// address gets ten for the connection and pays twenty for the end.
pub proof fn law_cost_of_a_short_session(
    s: ManagerState,
    session: SessionId,
    key: Address,
    vetting: VettingState,
)
    requires
        s.is_new_peer(key),
        s.pending.contains_key(session),
        !s.connected.contains_key(session),
        s.known.contains_key(s.pending[session].addr),
        fits(s.known[s.pending[session].addr].score + SUCCESS_DIALING_SCORE),
        fits(s.known[s.pending[session].addr].score - REFUSED_SCORE + SUCCESS_DIALING_SCORE),
    ensures
        s.introduced(session, SessionType::Outbound, key, vetting).session_lost(
            session,
        ).known[s.pending[session].addr].score == s.known[s.pending[session].addr].score - 10,
        s.introduced(session, SessionType::Outbound, key, vetting).session_lost(
            session,
        ).known[s.pending[session].addr].session_id is None,
{
}

/// A new peer becomes one on the session on which it introduced itself, and
/// is linked. A session that had been opened stops pending and is open.
pub proof fn law_introduced_peers_are_linked(
    s: ManagerState,
    session: SessionId,
    ty: SessionType,
    key: Address,
    vetting: VettingState,
)
    requires
        s.inv(),
        s.is_new_peer(key),
    ensures
        s.introduced(session, ty, key, vetting).peers == s.peers.insert(key, session),
        s.introduced(session, ty, key, vetting).topology.linked == s.topology.linked.insert(key),
        s.pending.contains_key(session) ==> {
            &&& s.introduced(session, ty, key, vetting).connected.contains_key(session)
            &&& s.introduced(session, ty, key, vetting).connected[session].conn_addr
                == s.pending[session].addr
            &&& !s.introduced(session, ty, key, vetting).pending.contains_key(session)
        },
{
    assert(s.introduced(session, ty, key, vetting).topology.linked =~= s.topology.linked.insert(
        key,
    ));
}

/// A second session of a peer is closed and changes neither the peers nor the
/// open sessions; the peer keeps the first one.
pub proof fn law_repeated_sessions_are_closed(
    s: ManagerState,
    session: SessionId,
    ty: SessionType,
    key: Address,
    vetting: VettingState,
)
    requires
        s.inv(),
        s.peers.contains_key(key),
    ensures
        s.introduced(session, ty, key, vetting).peers == s.peers,
        s.introduced(session, ty, key, vetting).connected.dom() == s.connected.dom(),
        s.introduced(session, ty, key, vetting).topology == s.topology,
        s.introduced_actions(session, key, vetting) == if_told(
            s.ctrl,
            ActionState::Disconnect(session),
        ),
{
    let t = s.introduced(session, ty, key, vetting);
    assert(t.connected.dom() =~= s.connected.dom());
    assert(s.introduced_actions(session, key, vetting) =~= if_told(
        s.ctrl,
        ActionState::Disconnect(session),
    ));
}

/// A session that leads back to this node makes it no peer of its own, and is
/// closed. Where an address is being dialed, it may no longer be dialed.
pub proof fn law_own_address_is_not_dialed(
    s: ManagerState,
    session: SessionId,
    ty: SessionType,
    vetting: VettingState,
)
    requires
        s.inv(),
    ensures
        s.introduced(session, ty, s.peer_key, vetting).peers == s.peers,
        s.introduced(session, ty, s.peer_key, vetting).connected == s.connected,
        s.introduced_actions(session, s.peer_key, vetting) == if_told(
            s.ctrl,
            ActionState::Disconnect(session),
        ),
        s.dialing matches Some(addr) ==> {
            &&& !s.introduced(session, ty, s.peer_key, vetting).dialable(addr)
            &&& !s.self_connected(addr).dialable(addr)
        },
{
    assert(s.introduced_actions(session, s.peer_key, vetting) =~= if_told(
        s.ctrl,
        ActionState::Disconnect(session),
    ));
}

/// Where certificates are in use and there is one to check against, a new
/// peer whose session is not closed has an accepted certificate: it names the
/// account that the peer claims, and the revocation list does not hold it.
pub proof fn law_unvetted_peers_are_closed(
    s: ManagerState,
    session: SessionId,
    msg: InitState,
    answer: Option<bool>,
)
    requires
        s.inv(),
        s.enable_ca,
        s.root_crt is Some,
        s.ctrl,
        s.is_new_peer(msg.peer_key),
        !s.introduced_actions(session, msg.peer_key, s.vetting(msg, answer)).contains(
            ActionState::Disconnect(session),
        ),
    ensures
        s.vetting(msg, answer) matches VettingState::Accepted(crt) && crt.address == msg.peer_key
            && Some(crt.pem) == msg.node_crt,
        answer == Some(true),
        named_address(pem_common_name(msg.node_crt->0)) == Ok::<Address, CertError>(msg.peer_key),
        !s.crl.contains(msg.peer_key),
{
    let vetting = s.vetting(msg, answer);
    let actions = s.introduced_actions(session, msg.peer_key, vetting);
    if vetting is Refused {
        assert(actions[0] == ActionState::Disconnect(session));
    }
    law_accepted_means_claimed_and_not_revoked(
        chain_outcome(answer),
        named_address(pem_common_name(msg.node_crt->0)),
        msg.peer_key,
        s.crl,
    );
}

/// Where certificates are not in use, no session of a new peer is closed.
pub proof fn law_no_vetting_without_ca(
    s: ManagerState,
    session: SessionId,
    msg: InitState,
    answer: Option<bool>,
)
    requires
        s.is_new_peer(msg.peer_key),
        !s.enable_ca,
    ensures
        s.introduced_actions(session, msg.peer_key, s.vetting(msg, answer)).len() == 0,
{
}

/// While there are as many sessions as there may be, a session that is opened
/// is closed, and nothing is booked; else it may introduce itself.
pub proof fn law_full_means_refused(
    s: ManagerState,
    session: SessionId,
    addr: SocketAddr,
    ty: SessionType,
)
    ensures
        s.full() ==> s.session_pending(session, addr, ty) == s,
        !s.full() ==> {
            &&& s.session_pending(session, addr, ty).pending.contains_key(session)
            &&& s.session_pending(session, addr, ty).pending[session].addr == addr
            &&& s.session_pending(session, addr, ty).connected == s.connected
        },
{
}

/// The validators are all linked, where the flag says so: each of them is
/// this node or one of its peers. And where there are validators and each of
/// them is, the flag says so.
pub proof fn law_flag_speaks_of_peers(s: ManagerState, validator: Address)
    requires
        s.inv(),
    ensures
        s.topology.all_linked && s.topology.validators.contains(validator) ==> validator
            == s.peer_key || s.peers.contains_key(validator),
        s.topology.validators.contains(validator) && (forall|v: Address| #[trigger]
            s.topology.validators.contains(v) ==> v == s.peer_key || s.peers.contains_key(v))
            ==> s.topology.all_linked,
{
    if s.topology.validators.contains(validator) && (forall|v: Address| #[trigger]
        s.topology.validators.contains(v) ==> v == s.peer_key || s.peers.contains_key(v)) {
        assert(s.topology.validators.subset_of(s.topology.linked));
    }
}

/// A message with a number is passed on once: when it comes in again, on
/// whatever session, it is not.
pub proof fn law_messages_are_passed_on_once(
    s: ManagerState,
    unit: UnitState,
    session: SessionId,
)
    requires
        unit.version != 0,
    ensures
        !s.message_seen(unit).is_news(unit),
        s.message_seen(unit).relay_actions(unit, session).len() == 0,
        s.message_seen(unit).message_seen(unit).gossip == s.message_seen(unit).gossip,
{
    let t = s.message_seen(unit);
    assert(t.message_seen(unit).gossip =~= t.gossip);
}

/// The highest number of an account never falls, unless a message without a
/// number comes in; so an older message is not passed on after a newer one.
pub proof fn law_numbers_only_rise(s: ManagerState, unit: UnitState, older: UnitState)
    requires
        unit.version != 0,
    ensures
        forall|addr: Address|
            #![trigger s.saved_version(addr)]
            s.message_seen(unit).saved_version(addr) >= s.saved_version(addr),
        older.addr == unit.addr && 0 < older.version <= unit.version ==> !s.message_seen(
            unit,
        ).is_news(older),
{
}

/// A message goes to all open sessions but the one it came on, to each once.
pub proof fn law_messages_go_to_all_others(
    s: ManagerState,
    unit: UnitState,
    session: SessionId,
    other: SessionId,
)
    requires
        s.inv(),
        s.ctrl,
        s.is_news(unit),
    ensures
        s.relay_actions(unit, session).len() == 1,
        s.relay_actions(unit, session)[0] matches ActionState::Multicast(ids, relayed) && {
            &&& ids.contains(other) <==> s.connected.contains_key(other) && other != session
            &&& ids.no_duplicates()
            &&& relayed == s.relayed(unit)
        },
{
    let targets = s.connected.dom().remove(session);
    lemma_in_order_enumerates(targets);
    let ids = in_order(targets);
    assert(ids.to_set().contains(other) <==> ids.contains(other));
    assert forall|i: int, j: int| 0 <= i < ids.len() && 0 <= j < ids.len() && i
        != j implies ids[i] != ids[j] by {
        if i < j {
            assert(session_before()(ids[i], ids[j]));
        } else {
            assert(session_before()(ids[j], ids[i]));
        }
    }
}

/// While all validators are linked no message is passed on more than once:
/// neither those that start from this node nor those that come in have any
/// passing on left.
pub proof fn law_linked_validators_end_relaying(
    s: ManagerState,
    unit: UnitState,
    key: Seq<char>,
    data: Seq<u8>,
)
    requires
        s.topology.all_linked,
    ensures
        s.relayed(unit).ttl == 0,
        s.own_unit(key, data).ttl == 0,
{
}

/// The messages of a node have ascending numbers, and a peer that saw one of
/// them, and none after it, passes the next one on.
pub proof fn law_own_messages_are_news(
    s: ManagerState,
    peer: ManagerState,
    key: Seq<char>,
    data: Seq<u8>,
    next_key: Seq<char>,
    next_data: Seq<u8>,
)
    requires
        s.self_version < u64::MAX,
        peer.saved_version(s.peer_key) <= s.self_version,
    ensures
        s.version_used().own_unit(next_key, next_data).version == s.own_unit(key, data).version
            + 1,
        peer.message_seen(s.own_unit(key, data)).is_news(
            s.version_used().own_unit(next_key, next_data),
        ),
{
}

/// The introduction of this node is understood: what it says is read from it,
/// unless it carries a certificate of no bytes.
pub proof fn law_introduction_is_understood(s: ManagerState)
    requires
        s.enable_ca ==> s.node_crt != Some(Seq::<u8>::empty()),
    ensures
        s.introduction().data.len() >= 28,
        decoded(s.introduction().data) == (InitState {
            chain_id: 0,
            peer_key: s.peer_key,
            node_crt: if s.enable_ca {
                s.node_crt
            } else {
                None
            },
        }),
{
    law_decodes_what_was_encoded(
        InitState {
            chain_id: 0,
            peer_key: s.peer_key,
            node_crt: if s.enable_ca {
                s.node_crt
            } else {
                None
            },
        },
    );
}

/// Known addresses are handed out each at most once, as many as were asked
/// for or all that there are.
pub proof fn law_random_nodes_are_known(
    s: ManagerState,
    order: Seq<SocketAddr>,
    num: nat,
    nodes: Seq<SocketAddr>,
)
    requires
        is_order(order, s.known),
        nodes == order.take(
            if num <= order.len() {
                num as int
            } else {
                order.len() as int
            },
        ),
    ensures
        order.len() == s.known.len(),
        nodes.len() == if num <= s.known.len() {
            num
        } else {
            s.known.len()
        },
        nodes.no_duplicates(),
        forall|i: int| 0 <= i < nodes.len() ==> s.known.contains_key(#[trigger] nodes[i]),
{
    order.unique_seq_to_set();
    assert forall|i: int| 0 <= i < nodes.len() implies s.known.contains_key(
        #[trigger] nodes[i],
    ) by {
        assert(order.to_set().contains(order[i]));
    }
}

/// The revocation list is asked for at most once in a period: not again
/// before the chain has grown by more than that.
pub proof fn law_crl_is_asked_for_once_a_period(
    s: ManagerState,
    height: u64,
    validators: Seq<Seq<u8>>,
    later: u64,
)
    requires
        s.crl_due(height),
    ensures
        s.block_seen(height, validators).crl_due(later) <==> later > height + UPDATE_CRL_PERIOD,
{
}

/// With a new revocation list exactly the open sessions of those peers are
/// closed whose certificates are for addresses on it.
pub proof fn law_revoked_sessions_are_closed(
    s: ManagerState,
    crl: Seq<Address>,
    session: SessionId,
)
    requires
        s.inv(),
        s.ctrl,
    ensures
        s.revocation_actions(crl).contains(ActionState::Disconnect(session)) <==> (
        s.connected.contains_key(session) && (s.connected[session].node_crt matches Some(crt)
            && is_revoked(crl, crt.address))),
    decreases crl.len(),
{
    if crl.len() > 0 {
        let front = crl.drop_last();
        let ids = in_order(s.connected.dom());
        let action = ActionState::Disconnect(session);
        let before = s.revocation_actions(front);
        let now = s.closing_actions(ids, crl.last());
        law_revoked_sessions_are_closed(s, front, session);
        lemma_in_order_enumerates(s.connected.dom());
        lemma_certified_sessions_are_closed(s, ids, crl.last(), session);
        assert(ids.to_set().contains(session) <==> ids.contains(session));
        lemma_in_either(before, now, action);
        if s.connected.contains_key(session) {
            if let Some(crt) = s.connected[session].node_crt {
                lemma_in_either(front, seq![crl.last()], crt.address);
                assert(front + seq![crl.last()] =~= crl);
                assert(seq![crl.last()].contains(crt.address) <==> crt.address == crl.last()) by {
                    assert(seq![crl.last()][0] == crl.last());
                }
            }
        }
    }
}

proof fn lemma_certified_sessions_are_closed(
    s: ManagerState,
    ids: Seq<SessionId>,
    addr: Address,
    session: SessionId,
)
    requires
        s.ctrl,
    ensures
        s.closing_actions(ids, addr).contains(ActionState::Disconnect(session)) <==> ids.contains(
            session,
        ) && s.is_certified(session, addr),
    decreases ids.len(),
{
    if ids.len() > 0 {
        let front = ids.drop_last();
        let action = ActionState::Disconnect(session);
        let last = if_told(s.is_certified(ids.last(), addr), ActionState::Disconnect(ids.last()));
        lemma_certified_sessions_are_closed(s, front, addr, session);
        lemma_in_either(s.closing_actions(front, addr), last, action);
        lemma_in_either(front, seq![ids.last()], session);
        assert(front + seq![ids.last()] =~= ids);
        assert(seq![ids.last()].contains(session) <==> session == ids.last()) by {
            assert(seq![ids.last()][0] == ids.last());
        }
        if s.is_certified(ids.last(), addr) {
            assert(last[0] == ActionState::Disconnect(ids.last()));
        }
    }
}

/// An item of two lists, one after the other, is an item of one of them.
pub proof fn lemma_in_either<T>(a: Seq<T>, b: Seq<T>, x: T)
    ensures
        (a + b).contains(x) <==> a.contains(x) || b.contains(x),
{
    if (a + b).contains(x) {
        let i = (a + b).index_of(x);
        if i < a.len() {
            assert(a[i] == x);
        } else {
            assert(b[i - a.len()] == x);
        }
    }
    if a.contains(x) {
        let i = a.index_of(x);
        assert((a + b)[i] == x);
    }
    if b.contains(x) {
        let i = b.index_of(x);
        assert((a + b)[a.len() + i] == x);
    }
}

/// When certificates are checked again, exactly the sessions of those peers
/// are closed whose certificates failed the check; they have certificates.
pub proof fn law_expired_sessions_are_closed(
    s: ManagerState,
    outcomes: Seq<Result<bool, CertError>>,
    session: SessionId,
)
    requires
        s.inv(),
        s.ctrl,
        outcomes.len() == s.to_check().len(),
    ensures
        s.expiry_actions(s.to_check(), outcomes).contains(ActionState::Disconnect(session)) <==> (
        exists|i: int|
            0 <= i < outcomes.len() && s.to_check()[i] == session && #[trigger] outcomes[i] is Err),
        s.to_check().contains(session) <==> s.enable_ca && s.root_crt is Some
            && s.connected.contains_key(session) && s.connected[session].node_crt is Some,
{
    lemma_expired_sessions_are_closed(s, s.to_check(), outcomes, session);
    let certified = s.connected.dom().filter(|id: SessionId| s.connected[id].node_crt is Some);
    lemma_in_order_enumerates(certified);
    let ids = in_order(certified);
    assert(ids.to_set().contains(session) <==> ids.contains(session));
}

/// The same of any sessions with their checks.
pub proof fn lemma_expired_sessions_are_closed(
    s: ManagerState,
    ids: Seq<SessionId>,
    outcomes: Seq<Result<bool, CertError>>,
    session: SessionId,
)
    requires
        s.ctrl,
        outcomes.len() == ids.len(),
    ensures
        s.expiry_actions(ids, outcomes).contains(ActionState::Disconnect(session)) <==> (exists|
            i: int,
        |
            0 <= i < outcomes.len() && ids[i] == session && #[trigger] outcomes[i] is Err),
    decreases ids.len(),
{
    if ids.len() > 0 {
        let (front, rest) = (ids.drop_last(), outcomes.drop_last());
        let action = ActionState::Disconnect(session);
        let last = if_told(outcomes.last() is Err, ActionState::Disconnect(ids.last()));
        lemma_expired_sessions_are_closed(s, front, rest, session);
        lemma_in_either(s.expiry_actions(front, rest), last, action);
        if outcomes.last() is Err {
            assert(last[0] == ActionState::Disconnect(ids.last()));
        }
        if exists|i: int| 0 <= i < outcomes.len() && ids[i] == session && #[trigger] outcomes[i]
            is Err {
            let i = choose|i: int|
                0 <= i < outcomes.len() && ids[i] == session && #[trigger] outcomes[i] is Err;
            if i < ids.len() - 1 {
                assert(rest[i] == outcomes[i] && front[i] == ids[i]);
            }
        }
        if exists|i: int| 0 <= i < rest.len() && front[i] == session && #[trigger] rest[i] is Err {
            let i = choose|i: int|
                0 <= i < rest.len() && front[i] == session && #[trigger] rest[i] is Err;
            assert(rest[i] == outcomes[i] && front[i] == ids[i]);
        }
        if outcomes.last() is Err && ids.last() == session {
            assert(outcomes[outcomes.len() - 1] is Err);
        }
    }
}

} // verus!
