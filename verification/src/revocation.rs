//! New blocks, the certificate revocation list, and certificates that no
//! longer hold.
use std::collections::BTreeSet;
use vstd::prelude::*;

use crate::action::{asked, tell, Action, ActionState};
use crate::bytes::{address_at, address_of};
use crate::cert::{verify_crt, CertError};
use crate::chance::is_random_uuid;
use crate::crl::{crl_request, get_crl};
use crate::manager::{lemma_sessions, NodesManager};
use crate::order::{in_order, lemma_in_order_enumerates, pick, picked, session_ids};
use crate::state::{accounts, ManagerState};
use crate::topology::law_flag_stays_right;
use crate::types::{same_address, Address, SessionId, UPDATE_CRL_PERIOD};

verus! {

/// The height of the chain and its validators.
pub struct RichStatus {
    pub height: u64,
    /// The account addresses, twenty bytes each.
    pub validators: Vec<Vec<u8>>,
}

impl RichStatus {
    /// The validators as they are listed.
    pub open spec fn listed(self) -> Seq<Seq<u8>> {
        self.validators@.map_values(|bytes: Vec<u8>| bytes@)
    }

    /// The accounts of the validators.
    fn accounts(&self) -> (r: BTreeSet<Address>)
        requires
            forall|i: int|
                0 <= i < self.listed().len() ==> (#[trigger] self.listed()[i]).len() == 20,
        ensures
            r@ == accounts(self.listed()),
    {
        let mut r: BTreeSet<Address> = BTreeSet::new();
        let ghost all = self.listed().map_values(|bytes: Seq<u8>| address_of(bytes));
        let mut i: usize = 0;
        assert(r@ =~= all.take(0).to_set());
        while i < self.validators.len()
            invariant
                i <= self.validators@.len(),
                all == self.listed().map_values(|bytes: Seq<u8>| address_of(bytes)),
                forall|k: int|
                    0 <= k < self.listed().len() ==> (#[trigger] self.listed()[k]).len() == 20,
                r@ == all.take(i as int).to_set(),
            decreases self.validators@.len() - i,
        {
            let bytes = &self.validators[i];
            assert(self.listed()[i as int] == bytes@);
            let account = address_at(bytes, 0);
            r.insert(account);
            proof {
                assert(bytes@.subrange(0, 20) =~= bytes@);
                assert(all[i as int] == account);
                let next = all.take(i + 1);
                assert(next =~= all.take(i as int).push(account));
                assert forall|a: Address| next.to_set().contains(a) <==> all.take(
                    i as int,
                ).to_set().insert(account).contains(a) by {
                    if a == account {
                        assert(next[i as int] == a);
                    }
                    if all.take(i as int).contains(a) {
                        let k = all.take(i as int).index_of(a);
                        assert(next[k] == a);
                    }
                }
                assert(next.to_set() =~= all.take(i as int).to_set().insert(account));
            }
            i = i + 1;
        }
        assert(all.take(i as int) =~= all);
        r
    }
}

/// The chain grew.
pub struct DealRichStatusReq {
    pub msg: RichStatus,
}

impl DealRichStatusReq {
    pub fn new(msg: RichStatus) -> (r: Self)
        ensures
            r == (DealRichStatusReq { msg }),
    {
        DealRichStatusReq { msg }
    }

    /// Takes in the height and the validators. Says whether the revocation
    /// list is to be asked for.
    pub fn take_in(self, service: &mut NodesManager) -> (r: bool)
        requires
            old(service).wf(),
            old(service)@.can_see_block(self.msg.height, self.msg.listed()),
        ensures
            final(service).wf(),
            final(service)@ == old(service)@.block_seen(self.msg.height, self.msg.listed()),
            r == old(service)@.crl_due(self.msg.height),
    {
        let mut due: bool = false;
        if service.enable_ca {
            let current_height = self.msg.height;
            if current_height - service.get_crl_point > UPDATE_CRL_PERIOD {
                due = true;
                service.get_crl_point = current_height;
            }
        }
        let validators = self.msg.accounts();
        service.consensus_topology.update_validators(self.msg.height, validators);
        proof {
            law_flag_stays_right(
                old(service)@.topology,
                (0, 0),
                self.msg.height,
                accounts(self.msg.listed()),
            );
        }
        due
    }

    /// Takes in the height and the validators, and asks for the revocation
    /// list where that is due.
    pub fn handle(self, service: &mut NodesManager) -> (r: Vec<Action>)
        requires
            old(service).wf(),
            old(service)@.can_see_block(self.msg.height, self.msg.listed()),
        ensures
            final(service).wf(),
            final(service)@ == old(service)@.block_seen(self.msg.height, self.msg.listed()),
            if old(service)@.crl_due(self.msg.height) {
                exists|id: Seq<u8>| #[trigger]
                    is_random_uuid(id) && asked(r@) == seq![ActionState::GetCrl(crl_request(id))]
            } else {
                r@.len() == 0
            },
    {
        let mut r: Vec<Action> = Vec::new();
        if self.take_in(service) {
            let request = get_crl();
            r.push(Action::GetCrl(request));
            proof {
                assert(is_random_uuid(request.request_id@));
                assert(asked(r@) =~= seq![ActionState::GetCrl(crl_request(request.request_id@))]);
            }
        }
        r
    }
}

/// There is a new certificate revocation list.
pub struct UpdateCrlReq {
    pub crl: Vec<Address>,
}

impl UpdateCrlReq {
    pub fn new(crl: Vec<Address>) -> (r: Self)
        ensures
            r == (UpdateCrlReq { crl }),
    {
        UpdateCrlReq { crl }
    }

    /// Whether the peer of an open session has a certificate for `addr`.
    fn is_certified(service: &NodesManager, session_id: SessionId, addr: Address) -> (r: bool)
        requires
            service@.connected.contains_key(session_id),
        ensures
            r == service@.is_certified(session_id, addr),
    {
        match service.connected_addrs.get(&session_id) {
            Some(info) => match &info.node_crt {
                Some(crt) => same_address(crt.address(), addr),
                None => false,
            },
            None => false,
        }
    }

    /// Closes the open sessions of the peers that have certificates for `addr`.
    fn close_certified(
        service: &NodesManager,
        ids: &Vec<SessionId>,
        addr: Address,
        actions: &mut Vec<Action>,
    )
        requires
            forall|k: int|
                0 <= k < ids@.len() ==> service@.connected.contains_key(#[trigger] ids@[k]),
        ensures
            asked(final(actions)@) == asked(old(actions)@) + service@.closing_actions(ids@, addr),
    {
        let mut i: usize = 0;
        proof {
            assert(ids@.take(0) =~= Seq::<SessionId>::empty());
            assert(asked(actions@) =~= asked(old(actions)@) + service@.closing_actions(
                ids@.take(0),
                addr,
            ));
        }
        while i < ids.len()
            invariant
                i <= ids@.len(),
                forall|k: int|
                    0 <= k < ids@.len() ==> service@.connected.contains_key(#[trigger] ids@[k]),
                asked(actions@) == asked(old(actions)@) + service@.closing_actions(
                    ids@.take(i as int),
                    addr,
                ),
            decreases ids@.len() - i,
        {
            let certified = Self::is_certified(service, ids[i], addr);
            proof {
                assert(ids@.take(i + 1).drop_last() =~= ids@.take(i as int));
            }
            tell(actions, service.service_ctrl && certified, Action::Disconnect(ids[i]));
            assert(asked(actions@) =~= asked(old(actions)@) + service@.closing_actions(
                ids@.take(i + 1),
                addr,
            ));
            i = i + 1;
        }
        assert(ids@.take(i as int) =~= ids@);
    }

    /// Keeps the list, and closes the open sessions of all peers with
    /// certificates for addresses on it.
    pub fn handle(self, service: &mut NodesManager) -> (r: Vec<Action>)
        requires
            old(service).wf(),
        ensures
            final(service).wf(),
            final(service)@ == (ManagerState { crl: self.crl@, ..old(service)@ }),
            asked(r@) == old(service)@.revocation_actions(self.crl@),
    {
        let ghost s = service@;
        let ids = session_ids(&service.connected_addrs);
        proof {
            lemma_sessions(service.connected_addrs@, 0, arbitrary());
            assert forall|k: int| 0 <= k < ids@.len() implies s.connected.contains_key(
                #[trigger] ids@[k],
            ) by {
                assert(ids@.to_set().contains(ids@[k]));
            }
        }
        let mut actions: Vec<Action> = Vec::new();
        let mut i: usize = 0;
        proof {
            assert(self.crl@.take(0) =~= Seq::<Address>::empty());
            assert(asked(actions@) =~= s.revocation_actions(self.crl@.take(0)));
        }
        while i < self.crl.len()
            invariant
                i <= self.crl@.len(),
                s == service@,
                ids@ == in_order(s.connected.dom()),
                forall|k: int|
                    0 <= k < ids@.len() ==> s.connected.contains_key(#[trigger] ids@[k]),
                asked(actions@) == s.revocation_actions(self.crl@.take(i as int)),
            decreases self.crl@.len() - i,
        {
            proof {
                assert(self.crl@.take(i + 1).drop_last() =~= self.crl@.take(i as int));
            }
            Self::close_certified(service, &ids, self.crl[i], &mut actions);
            i = i + 1;
        }
        assert(self.crl@.take(i as int) =~= self.crl@);
        service.crl = self.crl;
        actions
    }
}

impl NodesManager {
    /// The open sessions whose certificates are to be checked again, lowest
    /// number first.
    fn sessions_to_check(&self) -> (r: Vec<SessionId>)
        ensures
            r@ == self@.to_check(),
            forall|k: int|
                0 <= k < r@.len() ==> self.root_crt is Some && self.connected_addrs@.contains_key(
                    #[trigger] r@[k],
                ) && self.connected_addrs@[r@[k]].node_crt is Some,
    {
        if !self.enable_ca || self.root_crt.is_none() {
            return Vec::new();
        }
        let ids = session_ids(&self.connected_addrs);
        let mut wanted: Vec<bool> = Vec::new();
        let mut i: usize = 0;
        proof {
            lemma_sessions(self.connected_addrs@, 0, arbitrary());
            assert forall|id: SessionId| #[trigger] self@.connected.dom().contains(
                id,
            ) <==> ids@.contains(id) by {
                assert(ids@.to_set().contains(id) <==> ids@.contains(id));
            }
        }
        while i < ids.len()
            invariant
                i <= ids@.len(),
                wanted@.len() == i,
                forall|id: SessionId| #[trigger]
                    self@.connected.dom().contains(id) <==> ids@.contains(id),
                forall|k: int|
                    0 <= k < i ==> #[trigger] wanted@[k] == (self@.connected[ids@[k]].node_crt
                        is Some),
            decreases ids@.len() - i,
        {
            assert(self@.connected.dom().contains(ids@[i as int]));
            let certified = match self.connected_addrs.get(&ids[i]) {
                Some(info) => info.node_crt.is_some(),
                None => false,
            };
            wanted.push(certified);
            i = i + 1;
        }
        let r = pick(&ids, &wanted);
        proof {
            let certified = self@.connected.dom().filter(
                |id: SessionId| self@.connected[id].node_crt is Some,
            );
            assert(picked(ids@, wanted@) =~= certified);
            lemma_in_order_enumerates(certified);
            assert forall|k: int| 0 <= k < r@.len() implies certified.contains(
                #[trigger] r@[k],
            ) by {
                assert(r@.to_set().contains(r@[k]));
            }
        }
        r
    }

    /// Closes the sessions whose certificates failed the check of their
    /// signatures.
    pub fn close_expired(
        &self,
        ids: &Vec<SessionId>,
        outcomes: &Vec<Result<bool, CertError>>,
    ) -> (r: Vec<Action>)
        requires
            outcomes@.len() == ids@.len(),
        ensures
            asked(r@) == self@.expiry_actions(ids@, outcomes@),
    {
        let mut actions: Vec<Action> = Vec::new();
        let mut i: usize = 0;
        proof {
            assert(ids@.take(0) =~= Seq::<SessionId>::empty());
            assert(asked(actions@) =~= self@.expiry_actions(ids@.take(0), outcomes@.take(0)));
        }
        while i < ids.len()
            invariant
                i <= ids@.len(),
                outcomes@.len() == ids@.len(),
                asked(actions@) == self@.expiry_actions(
                    ids@.take(i as int),
                    outcomes@.take(i as int),
                ),
            decreases ids@.len() - i,
        {
            proof {
                assert(ids@.take(i + 1).drop_last() =~= ids@.take(i as int));
                assert(outcomes@.take(i + 1).drop_last() =~= outcomes@.take(i as int));
            }
            let failed = outcomes[i].is_err();
            tell(&mut actions, self.service_ctrl && failed, Action::Disconnect(ids[i]));
            i = i + 1;
        }
        proof {
            assert(ids@.take(i as int) =~= ids@);
            assert(outcomes@.take(i as int) =~= outcomes@);
        }
        actions
    }

    /// Checks the certificates of the connected nodes again, and closes the
    /// sessions of those whose certificates no longer hold.
    pub fn check_cert(&self) -> (r: Vec<Action>)
        ensures
            exists|outcomes: Seq<Result<bool, CertError>>|
                {
                    &&& outcomes.len() == self@.to_check().len()
                    &&& forall|i: int|
                        0 <= i < outcomes.len() ==> self@.may_come_to(
                            self@.to_check()[i],
                            #[trigger] outcomes[i],
                        )
                    &&& asked(r@) == #[trigger] self@.expiry_actions(self@.to_check(), outcomes)
                },
    {
        let ids = self.sessions_to_check();
        let mut outcomes: Vec<Result<bool, CertError>> = Vec::new();
        let mut i: usize = 0;
        while i < ids.len()
            invariant
                i <= ids@.len(),
                outcomes@.len() == i,
                forall|k: int|
                    0 <= k < ids@.len() ==> self.root_crt is Some
                        && self.connected_addrs@.contains_key(#[trigger] ids@[k])
                        && self.connected_addrs@[ids@[k]].node_crt is Some,
                forall|k: int|
                    0 <= k < outcomes@.len() ==> self@.may_come_to(
                        ids@[k],
                        #[trigger] outcomes@[k],
                    ),
            decreases ids@.len() - i,
        {
            let ghost so_far = outcomes@;
            if let (Some(root_crt), Some(info)) = (
                &self.root_crt,
                self.connected_addrs.get(&ids[i]),
            ) {
                if let Some(crt) = &info.node_crt {
                    outcomes.push(verify_crt(root_crt, crt.certificate()));
                }
            }
            proof {
                assert forall|k: int| 0 <= k < outcomes@.len() implies self@.may_come_to(
                    ids@[k],
                    #[trigger] outcomes@[k],
                ) by {
                    if k < i {
                        assert(outcomes@[k] == so_far[k]);
                    }
                }
            }
            i = i + 1;
        }
        let r = self.close_expired(&ids, &outcomes);
        assert(asked(r@) == self@.expiry_actions(self@.to_check(), outcomes@));
        r
    }
}

} // verus!
