//! What each tick does to what the manager knows, and what it leaves.
use vstd::prelude::*;

use crate::action::ActionState;
use crate::cert::{chain_may_answer, chain_outcome, CertError};
use crate::config_addrs::{lemma_names_in_order_enumerates, name_before, unresolved};
use crate::dialing::lemma_passed_over;
use crate::effects::{same_except, same_messages, same_revocation, same_sessions};
use crate::laws::{law_expired_sessions_are_closed, same_setup};
use crate::order::{ascending, in_order, lemma_in_order_enumerates, session_before};
use crate::state::{is_order, ManagerState};
use crate::text::lemma_text_order_asymmetric;
use crate::types::{NodeSource, NodeStatus, SessionId, SocketAddr};

verus! {

/// A known address may be dialed: no session connects to it, it is not this
/// node's, and it has at least sixty.
pub open spec fn may_be_dialed(s: ManagerState, addr: SocketAddr) -> bool {
    &&& s.known[addr].session_id is None
    &&& s.self_addr != Some(addr)
    &&& s.known[addr].score >= 60
}

/// A round changes nothing of a known address but its score: what is connected
/// stays so. A connected one gets five, up to a hundred; of the others, one that
/// is this node's or may be dialed keeps its score, and the rest, which have
/// less than sixty, get two where they were configured and one where they were
/// discovered. Nothing but the dial changes besides.
pub proof fn law_rounds(s: ManagerState, order: Seq<SocketAddr>, addr: SocketAddr)
    requires
        s.known.contains_key(addr),
    ensures
        s.round_made(order).known.dom() == s.known.dom(),
        s.round_made(order).known[addr].session_id == s.known[addr].session_id,
        s.round_made(order).known[addr].node_src == s.known[addr].node_src,
        s.known[addr].session_id is Some ==> s.round_made(order).known[addr].score == (
        if s.known[addr].score > 95 {
            100int
        } else {
            s.known[addr].score + 5
        }),
        s.known[addr].session_id is None && (s.self_addr == Some(addr) || s.known[addr].score
            >= 60) ==> s.round_made(order).known[addr].score == s.known[addr].score,
        s.known[addr].session_id is None && s.self_addr != Some(addr) && s.known[addr].score < 60
            ==> s.round_made(order).known[addr].score == s.known[addr].score + (
        match s.known[addr].node_src {
            NodeSource::FromConfig => 2int,
            NodeSource::FromDiscovery => 1int,
        }),
        s.known[addr].session_id is Some ==> !may_be_dialed(s.round_made(order), addr),
        s.round_made(order).config == s.config,
        s.round_made(order).self_addr == s.self_addr,
        same_setup(s, s.round_made(order)) && same_sessions(s, s.round_made(order)),
        same_messages(s, s.round_made(order)) && same_revocation(s, s.round_made(order)),
{
    assert(s.round_made(order).known.dom() =~= s.known.dom());
}

/// A round dials the first address of its order that may be dialed, where the
/// network layer is there and there may be more sessions.
pub proof fn law_rounds_dial_the_first(s: ManagerState, order: Seq<SocketAddr>, n: int)
    requires
        is_order(order, s.known),
        0 <= n < order.len(),
        may_be_dialed(s, order[n]),
        forall|k: int| 0 <= k < n ==> !may_be_dialed(s, #[trigger] order[k]),
        s.ctrl,
        s.connected.len() < s.max_connects,
    ensures
        s.round_made(order).dialing == Some(order[n]),
        s.round_actions(order) == seq![ActionState::Dial(order[n])],
{
    assert forall|k: int| 0 <= k < n implies !s.dialable(#[trigger] order[k]) by {
        assert(!may_be_dialed(s, order[k]));
    }
    lemma_passed_over(s, order, n);
}

/// A round dials nothing where no address may be dialed, where the network
/// layer is not there, and where there are as many sessions as there may be.
pub proof fn law_rounds_that_dial_nothing(s: ManagerState, order: Seq<SocketAddr>)
    requires
        is_order(order, s.known),
        !s.ctrl || s.connected.len() >= s.max_connects || forall|addr: SocketAddr| #[trigger]
            s.known.contains_key(addr) ==> !may_be_dialed(s, addr),
    ensures
        s.round_made(order).dialing == s.dialing,
        s.round_actions(order).len() == 0,
{
    if s.ctrl && s.connected.len() < s.max_connects {
        assert forall|k: int| 0 <= k < order.len() implies !s.dialable(#[trigger] order[k]) by {
            assert(order.to_set().contains(order[k]));
            assert(s.known.contains_key(order[k]));
        }
        lemma_passed_over(s, order, order.len() as int);
    }
}

/// Before a round exactly the names of the configured peers that have no
/// address are looked up, each once and in the order of the names; while a dial
/// is under way none is.
pub proof fn law_names_to_look_up(s: ManagerState, name: Seq<char>)
    requires
        s.inv(),
    ensures
        s.to_translate().contains(name) <==> s.dialing is None && s.config.contains_key(name)
            && s.config[name] is None,
        s.to_translate().no_duplicates(),
        ascending(s.to_translate(), name_before()),
{
    let open = unresolved(s.config);
    if s.dialing is None {
        lemma_names_in_order_enumerates(open);
        let names = s.to_translate();
        assert(names.to_set().contains(name) <==> names.contains(name));
        assert(open.contains(name) <==> s.config.contains_key(name) && s.config[name] is None);
        assert forall|i: int, j: int| 0 <= i < names.len() && 0 <= j < names.len() && i
            != j implies names[i] != names[j] by {
            let (p, q) = if i < j {
                (i, j)
            } else {
                (j, i)
            };
            assert(name_before()(names[p], names[q]));
            lemma_text_order_asymmetric(names[p], names[q]);
        }
    } else {
        assert(s.to_translate() =~= Seq::<Seq<char>>::empty());
    }
}

/// A round is made where no dial is under way, after the lookups: a name that
/// was found to have an address gets it, and all other configured peers stay.
/// Exactly the addresses that were found become known anew, with a hundred, no
/// session and as configured; all others stay. Nothing else changes.
pub proof fn law_lookups(
    s: ManagerState,
    answers: Seq<Option<SocketAddr>>,
    name: Seq<char>,
    addr: SocketAddr,
)
    requires
        s.inv(),
        answers.len() == s.to_translate().len(),
    ensures
        s.ready_for_round(answers) is Some <==> s.dialing is None,
        s.ready_for_round(answers) matches Some(t) ==> {
            &&& t.config.dom() == s.config.dom()
            &&& forall|i: int|
                0 <= i < answers.len() && #[trigger] s.to_translate()[i] == name ==> t.config[name]
                    == answers[i]
            &&& !s.to_translate().contains(name) && s.config.contains_key(name) ==> t.config[name]
                == s.config[name]
            &&& if answers.contains(Some(addr)) {
                &&& t.known.contains_key(addr)
                &&& t.known[addr] == (NodeStatus {
                    score: 100,
                    session_id: None,
                    node_src: NodeSource::FromConfig,
                })
            } else {
                &&& t.known.contains_key(addr) == s.known.contains_key(addr)
                &&& s.known.contains_key(addr) ==> t.known[addr] == s.known[addr]
            }
            &&& t.dialing == s.dialing
            &&& t.self_addr == s.self_addr
            &&& same_setup(s, t) && same_sessions(s, t)
            &&& same_messages(s, t) && same_revocation(s, t)
        },
{
    if s.dialing is None {
        let names = s.to_translate();
        law_names_to_look_up(s, name);
        assert forall|i: int| 0 <= i < names.len() implies s.config.contains_key(
            #[trigger] names[i],
        ) && s.config[names[i]] is None by {
            assert(names.contains(names[i]));
            law_names_to_look_up(s, names[i]);
        }
        law_looked_up_names(s, names, answers, name, addr);
        let t = s.translated(names, answers);
        assert(t.config.dom() =~= s.config.dom()) by {
            assert forall|n: Seq<char>| t.config.contains_key(n) <==> s.config.contains_key(
                n,
            ) by {
                law_looked_up_names(s, names, answers, n, addr);
            }
        }
    }
}

/// The same of any lookups of configured names without addresses, whether or not
/// a round follows.
pub proof fn law_looked_up_names(
    s: ManagerState,
    names: Seq<Seq<char>>,
    answers: Seq<Option<SocketAddr>>,
    name: Seq<char>,
    addr: SocketAddr,
)
    requires
        answers.len() == names.len(),
        names.no_duplicates(),
        forall|i: int|
            0 <= i < names.len() ==> s.config.contains_key(#[trigger] names[i])
                && s.config[names[i]] is None,
    ensures
        ({
            let t = s.translated(names, answers);
            &&& t.config.contains_key(name) == s.config.contains_key(name)
            &&& forall|i: int|
                0 <= i < answers.len() && #[trigger] names[i] == name ==> t.config[name]
                    == answers[i]
            &&& !names.contains(name) && s.config.contains_key(name) ==> t.config[name]
                == s.config[name]
            &&& if answers.contains(Some(addr)) {
                &&& t.known.contains_key(addr)
                &&& t.known[addr] == (NodeStatus {
                    score: 100,
                    session_id: None,
                    node_src: NodeSource::FromConfig,
                })
            } else {
                &&& t.known.contains_key(addr) == s.known.contains_key(addr)
                &&& s.known.contains_key(addr) ==> t.known[addr] == s.known[addr]
            }
            &&& t.dialing == s.dialing
            &&& t.self_addr == s.self_addr
            &&& same_setup(s, t) && same_sessions(s, t)
            &&& same_messages(s, t) && same_revocation(s, t)
        }),
    decreases names.len(),
{
    if names.len() > 0 {
        let (front, rest) = (names.drop_last(), answers.drop_last());
        let last = names.len() - 1;
        law_looked_up_names(s, front, rest, name, addr);
        assert(names[last] == names.last());
        assert(answers[last] == answers.last());
        assert(rest.contains(Some(addr)) ==> answers.contains(Some(addr))) by {
            if rest.contains(Some(addr)) {
                assert(answers[rest.index_of(Some(addr))] == Some(addr));
            }
        }
        assert(answers.contains(Some(addr)) ==> rest.contains(Some(addr)) || answers.last()
            == Some(addr)) by {
            if answers.contains(Some(addr)) {
                let i = answers.index_of(Some(addr));
                if i < last {
                    assert(rest[i] == Some(addr));
                }
            }
        }
        assert(!names.contains(name) ==> !front.contains(name)) by {
            if front.contains(name) {
                assert(names[front.index_of(name)] == name);
            }
        }
        assert forall|i: int| 0 <= i < answers.len() && #[trigger] names[i] == name implies
            s.translated(names, answers).config[name] == answers[i] by {
            if i < last {
                assert(front[i] == name);
                assert(rest[i] == answers[i]);
            } else {
                if front.contains(name) {
                    assert(names[front.index_of(name)] == names[last]);
                }
            }
        }
    }
}

/// A dial that the network layer took costs its address ten, and changes
/// nothing else.
pub proof fn law_taken_dials(s: ManagerState, addr: SocketAddr)
    requires
        s.known.contains_key(addr),
        s.known[addr].score >= i32::MIN + 10,
    ensures
        s.bears(addr, -10),
        s.dial_taken(addr).known.contains_key(addr),
        s.dial_taken(addr).known[addr].score == s.known[addr].score - 10,
        s.dial_taken(addr).known[addr].session_id == s.known[addr].session_id,
        s.dial_taken(addr).known[addr].node_src == s.known[addr].node_src,
        same_except(s.known, s.dial_taken(addr).known, addr),
        s.dial_taken(addr).config == s.config,
        s.dial_taken(addr).dialing == s.dialing,
        s.dial_taken(addr).self_addr == s.self_addr,
        same_setup(s, s.dial_taken(addr)) && same_sessions(s, s.dial_taken(addr)),
        same_messages(s, s.dial_taken(addr)) && same_revocation(s, s.dial_taken(addr)),
{
}

/// When certificates are checked again each session that has one is checked
/// once, lowest number first, where certificates are in use and there is one to
/// check against. With the network layer there, exactly those whose check
/// failed are closed, each once; without it nothing is done.
pub proof fn law_checked_sessions(
    s: ManagerState,
    outcomes: Seq<Result<bool, CertError>>,
    session: SessionId,
)
    requires
        s.inv(),
        outcomes.len() == s.to_check().len(),
    ensures
        s.to_check().contains(session) <==> s.enable_ca && s.root_crt is Some
            && s.connected.contains_key(session) && s.connected[session].node_crt is Some,
        forall|i: int, j: int|
            0 <= i < j < s.to_check().len() ==> s.to_check()[i] < s.to_check()[j],
        s.expiry_actions(s.to_check(), outcomes).contains(ActionState::Disconnect(session)) <==> (
        s.ctrl && exists|i: int|
            0 <= i < outcomes.len() && s.to_check()[i] == session && #[trigger] outcomes[i] is Err),
        s.expiry_actions(s.to_check(), outcomes).no_duplicates(),
        forall|i: int|
            0 <= i < s.expiry_actions(s.to_check(), outcomes).len()
                ==> #[trigger] s.expiry_actions(s.to_check(), outcomes)[i] is Disconnect,
{
    let ids = s.to_check();
    let certified = s.connected.dom().filter(|id: SessionId| s.connected[id].node_crt is Some);
    lemma_in_order_enumerates(certified);
    let all = in_order(certified);
    assert(all.to_set().contains(session) <==> all.contains(session));
    assert forall|i: int, j: int| 0 <= i < j < ids.len() implies ids[i] < ids[j] by {
        assert(session_before()(ids[i], ids[j]));
    }
    lemma_checked(s, ids, outcomes);
    if s.ctrl {
        law_expired_sessions_are_closed(s, outcomes, session);
    }
}

proof fn lemma_checked(
    s: ManagerState,
    ids: Seq<SessionId>,
    outcomes: Seq<Result<bool, CertError>>,
)
    requires
        outcomes.len() == ids.len(),
        forall|i: int, j: int| 0 <= i < j < ids.len() ==> ids[i] < ids[j],
    ensures
        ({
            let actions = s.expiry_actions(ids, outcomes);
            &&& !s.ctrl ==> actions.len() == 0
            &&& forall|i: int|
                0 <= i < actions.len() ==> (#[trigger] actions[i] matches ActionState::Disconnect(
                    id,
                ) && ids.contains(id))
            &&& actions.no_duplicates()
        }),
    decreases ids.len(),
{
    if ids.len() > 0 {
        let (front, rest) = (ids.drop_last(), outcomes.drop_last());
        let before = s.expiry_actions(front, rest);
        let actions = s.expiry_actions(ids, outcomes);
        let last = ActionState::Disconnect(ids.last());
        lemma_checked(s, front, rest);
        assert(!before.contains(last)) by {
            if before.contains(last) {
                let i = before.index_of(last);
                assert(before[i] == last);
                assert(front.contains(ids.last()));
                assert(ids[front.index_of(ids.last())] < ids[ids.len() - 1]);
            }
        }
        assert forall|i: int| 0 <= i < actions.len() implies (
        #[trigger] actions[i] matches ActionState::Disconnect(id) && ids.contains(id)) by {
            if i < before.len() {
                assert(actions[i] == before[i]);
                let id = before[i]->Disconnect_0;
                assert(ids[front.index_of(id)] == id);
            } else {
                assert(actions[i] == last);
                assert(ids[ids.len() - 1] == ids.last());
            }
        }
        assert forall|i: int, j: int| 0 <= i < actions.len() && 0 <= j < actions.len() && i
            != j implies actions[i] != actions[j] by {
            if i < before.len() && j < before.len() {
                assert(before[i] != before[j]);
            } else if i < before.len() {
                assert(before.contains(before[i]));
            } else if j < before.len() {
                assert(before.contains(before[j]));
            }
        }
    }
}

/// With the network layer there, a session whose certificate is checked again
/// is closed only where the check may fail, and stays only where it may
/// succeed.
pub proof fn law_checks_decide(
    s: ManagerState,
    outcomes: Seq<Result<bool, CertError>>,
    session: SessionId,
)
    requires
        s.inv(),
        s.ctrl,
        s.to_check().contains(session),
        outcomes.len() == s.to_check().len(),
        forall|i: int|
            0 <= i < outcomes.len() ==> s.may_come_to(s.to_check()[i], #[trigger] outcomes[i]),
    ensures
        ({
            let root = s.root_crt->0;
            let pem = s.connected[session].node_crt->0.pem;
            if s.expiry_actions(s.to_check(), outcomes).contains(
                ActionState::Disconnect(session),
            ) {
                chain_may_answer(root, pem, Some(false)) || chain_may_answer(root, pem, None)
            } else {
                chain_may_answer(root, pem, Some(true))
            }
        }),
{
    law_checked_sessions(s, outcomes, session);
    let closed = s.expiry_actions(s.to_check(), outcomes).contains(
        ActionState::Disconnect(session),
    );
    let i = if closed {
        choose|i: int|
            0 <= i < outcomes.len() && s.to_check()[i] == session && #[trigger] outcomes[i] is Err
    } else {
        s.to_check().index_of(session)
    };
    assert(s.may_come_to(s.to_check()[i], outcomes[i]));
    let answer = choose|answer: Option<bool>|
        chain_may_answer(s.root_crt->0, s.connected[session].node_crt->0.pem, answer)
            && outcomes[i] == #[trigger] chain_outcome(answer);
    if let Some(b) = answer {
        assert(answer == Some(true) || answer == Some(false));
    }
}

} // verus!
