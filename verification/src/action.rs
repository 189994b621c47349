//! What the network layer is told to do.
use vstd::prelude::*;

use crate::crl::{ProtoRequest, RequestState};
use crate::types::{Address, SessionId, SocketAddr};

verus! {

/// A message between nodes.
pub struct NetMessageUnit {
    /// What the message is about.
    pub key: String,
    pub data: Vec<u8>,
    /// The account of the node that the message started from.
    pub addr: Address,
    /// The number that this node gave the message.
    pub version: u64,
    /// How many more times the message may be passed on.
    pub ttl: u8,
}

/// What a [`NetMessageUnit`] says.
#[verifier::ext_equal]
pub struct UnitState {
    pub key: Seq<char>,
    pub data: Seq<u8>,
    pub addr: Address,
    pub version: u64,
    pub ttl: u8,
}

impl View for NetMessageUnit {
    type V = UnitState;

    open spec fn view(&self) -> UnitState {
        UnitState {
            key: self.key@,
            data: self.data@,
            addr: self.addr,
            version: self.version,
            ttl: self.ttl,
        }
    }
}

/// A message of the given kind, with nothing said of where it started.
pub open spec fn plain_unit(key: Seq<char>, data: Seq<u8>) -> UnitState {
    UnitState { key, data, addr: (0, 0), version: 0, ttl: 0 }
}

impl Default for NetMessageUnit {
    fn default() -> (r: Self)
        ensures
            r@ == plain_unit(Seq::empty(), Seq::empty()),
    {
        let r = NetMessageUnit {
            key: String::new(),
            data: Vec::new(),
            addr: (0, 0),
            version: 0,
            ttl: 0,
        };
        assert(r@ =~= plain_unit(Seq::empty(), Seq::empty()));
        r
    }
}

/// Something to be done outside of the bookkeeping.
pub enum Action {
    /// Close a session.
    Disconnect(SessionId),
    /// Open a session to an address.
    Dial(SocketAddr),
    /// Send a message on one session.
    SendTo(SessionId, NetMessageUnit),
    /// Send a message on every session.
    Broadcast(NetMessageUnit),
    /// Send a message on some sessions.
    Multicast(Vec<SessionId>, NetMessageUnit),
    /// Ask the rest of the node for the certificate revocation list.
    GetCrl(ProtoRequest),
}

/// What an [`Action`] asks for.
pub enum ActionState {
    Disconnect(SessionId),
    Dial(SocketAddr),
    SendTo(SessionId, UnitState),
    Broadcast(UnitState),
    Multicast(Seq<SessionId>, UnitState),
    GetCrl(RequestState),
}

impl View for Action {
    type V = ActionState;

    open spec fn view(&self) -> ActionState {
        match self {
            Action::Disconnect(id) => ActionState::Disconnect(*id),
            Action::Dial(addr) => ActionState::Dial(*addr),
            Action::SendTo(id, unit) => ActionState::SendTo(*id, unit@),
            Action::Broadcast(unit) => ActionState::Broadcast(unit@),
            Action::Multicast(ids, unit) => ActionState::Multicast(ids@, unit@),
            Action::GetCrl(request) => ActionState::GetCrl(request@),
        }
    }
}

/// What a list of actions asks for, in its order.
pub open spec fn asked(actions: Seq<Action>) -> Seq<ActionState> {
    actions.map_values(|a: Action| a@)
}

/// The one action, where the network layer is there to be told; else none.
pub open spec fn if_told(told: bool, action: ActionState) -> Seq<ActionState> {
    if told {
        seq![action]
    } else {
        Seq::empty()
    }
}

/// Appends an action where the network layer is there to be told.
pub fn tell(actions: &mut Vec<Action>, told: bool, action: Action)
    ensures
        asked(final(actions)@) == asked(old(actions)@) + if_told(told, action@),
{
    if told {
        actions.push(action);
    }
    assert(asked(actions@) =~= asked(old(actions)@) + if_told(told, action@));
}

/// The one action, where the network layer is there to be told; else none.
pub fn only(told: bool, action: Action) -> (r: Vec<Action>)
    ensures
        asked(r@) == if_told(told, action@),
{
    let mut r: Vec<Action> = Vec::new();
    tell(&mut r, told, action);
    assert(asked(r@) =~= if_told(told, action@));
    r
}

/// What each action asks for is what stands in it, and what a message says is
/// what stands in its fields.
pub proof fn law_actions(action: Action)
    ensures
        match action {
            Action::Disconnect(id) => action@ == ActionState::Disconnect(id),
            Action::Dial(addr) => action@ == ActionState::Dial(addr),
            Action::SendTo(id, unit) => action@ matches ActionState::SendTo(to, said) && to == id
                && says(unit, said),
            Action::Broadcast(unit) => action@ matches ActionState::Broadcast(said) && says(
                unit,
                said,
            ),
            Action::Multicast(ids, unit) => action@ matches ActionState::Multicast(to, said) && to
                == ids@ && says(unit, said),
            Action::GetCrl(request) => action@ matches ActionState::GetCrl(asked)
                && asked.request_id == request.request_id@,
        },
{
}

/// A message says this: its key, data, account, number and what is left of its
/// passing on.
pub open spec fn says(unit: NetMessageUnit, said: UnitState) -> bool {
    &&& said.key == unit.key@
    &&& said.data == unit.data@
    &&& said.addr == unit.addr
    &&& said.version == unit.version
    &&& said.ttl == unit.ttl
}

} // verus!
