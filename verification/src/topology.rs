//! Which validators are linked.
use std::collections::BTreeSet;
use vstd::prelude::*;
use vstd::std_specs::iter::IteratorSpec;

use crate::types::Address;

verus! {

/// The linked nodes and the validators, as sets.
#[verifier::ext_equal]
pub struct TopologyState {
    pub linked: Set<Address>,
    pub validators: Set<Address>,
    pub all_linked: bool,
    pub height: u64,
}

impl TopologyState {
    /// Only the node itself is linked, and no validators are known.
    pub open spec fn initial(self_address: Address) -> TopologyState {
        TopologyState {
            linked: set![self_address],
            validators: Set::empty(),
            all_linked: false,
            height: 0,
        }
    }

    /// Another height, or other validators.
    ///
    /// Validators of a lower height, and the ones that are known already,
    /// change at most the height, which they may raise. Other validators
    /// replace those that were known and leave the height as it is.
    pub open spec fn updated(self, height: u64, validators: Set<Address>) -> TopologyState {
        if height < self.height {
            self
        } else if validators == self.validators {
            TopologyState { height, ..self }
        } else {
            TopologyState {
                validators,
                all_linked: validators.subset_of(self.linked),
                ..self
            }
        }
    }

    /// One more linked node.
    pub open spec fn linked_to(self, node: Address) -> TopologyState {
        if self.linked.contains(node) {
            self
        } else {
            let linked = self.linked.insert(node);
            TopologyState { linked, all_linked: self.validators.subset_of(linked), ..self }
        }
    }

    /// One linked node less.
    pub open spec fn unlinked_from(self, node: Address) -> TopologyState {
        if self.linked.contains(node) {
            let linked = self.linked.remove(node);
            TopologyState { linked, all_linked: self.validators.subset_of(linked), ..self }
        } else {
            self
        }
    }

    /// The flag says that all validators are linked only where they are, and
    /// always where there are validators and all are linked.
    pub open spec fn flag_is_right(self) -> bool {
        &&& self.all_linked ==> self.validators.subset_of(self.linked)
        &&& self.validators != Set::<Address>::empty() && self.validators.subset_of(
            self.linked,
        ) ==> self.all_linked
    }
}

/// The linked nodes, the validators, and whether all of these are linked.
pub struct ConsensusNodeTopology {
    pub linked_nodes: BTreeSet<Address>,
    pub validator_nodes: BTreeSet<Address>,
    pub consensus_all_linked: bool,
    pub height: u64,
}

impl View for ConsensusNodeTopology {
    type V = TopologyState;

    open spec fn view(&self) -> TopologyState {
        TopologyState {
            linked: self.linked_nodes@,
            validators: self.validator_nodes@,
            all_linked: self.consensus_all_linked,
            height: self.height,
        }
    }
}

/// Whether every address of `a` is in `b`.
fn is_subset(a: &BTreeSet<Address>, b: &BTreeSet<Address>) -> (r: bool)
    ensures
        r == a@.subset_of(b@),
{
    let iter = a.iter();
    let ghost items = iter.remaining();
    proof {
        assert forall|x: Address| a@.contains(x) implies #[trigger] items.unref().contains(x) by {
            assert(items.unref().to_set().contains(x));
        }
    }
    let mut all: bool = true;
    for x in it: iter
        invariant
            it.seq() == items,
            items.unref().to_set() == a@,
            all == forall|k: int|
                0 <= k < it.index() ==> b@.contains(#[trigger] items.unref()[k]),
    {
        assert(items.unref()[it.index() as int] == *x);
        if !b.contains(x) {
            all = false;
        }
    }
    proof {
        if all {
            assert forall|x: Address| a@.contains(x) implies b@.contains(x) by {
                assert(items.unref().to_set().contains(x));
                let k = items.unref().index_of(x);
                assert(b@.contains(items.unref()[k]));
            }
        } else {
            let k = choose|k: int|
                0 <= k < items.len() && !b@.contains(#[trigger] items.unref()[k]);
            assert(items.unref().contains(items.unref()[k]));
            assert(a@.contains(items.unref()[k]));
        }
    }
    all
}

impl Default for ConsensusNodeTopology {
    fn default() -> (r: Self)
        ensures
            r@ == (TopologyState {
                linked: Set::empty(),
                validators: Set::empty(),
                all_linked: false,
                height: 0,
            }),
    {
        ConsensusNodeTopology {
            linked_nodes: BTreeSet::new(),
            validator_nodes: BTreeSet::new(),
            consensus_all_linked: false,
            height: 0,
        }
    }
}

impl ConsensusNodeTopology {
    pub fn new(self_address: Address) -> (r: ConsensusNodeTopology)
        ensures
            r@ == TopologyState::initial(self_address),
    {
        let mut top = ConsensusNodeTopology::default();
        top.linked_nodes.insert(self_address);
        assert(top@ =~= TopologyState::initial(self_address));
        top
    }

    fn validator_subset_linked(&self) -> (r: bool)
        ensures
            r == self@.validators.subset_of(self@.linked),
    {
        is_subset(&self.validator_nodes, &self.linked_nodes)
    }

    pub fn update_validators(&mut self, height: u64, validators: BTreeSet<Address>)
        ensures
            final(self)@ == old(self)@.updated(height, validators@),
    {
        let same = is_subset(&validators, &self.validator_nodes) && is_subset(
            &self.validator_nodes,
            &validators,
        );
        assert(same ==> validators@ =~= self.validator_nodes@);
        if height < self.height || same {
            if height > self.height {
                self.height = height;
            }
            return;
        }
        self.validator_nodes = validators;
        self.consensus_all_linked = self.validator_subset_linked();
    }

    pub fn add_linked_nodes(&mut self, linked_node: Address)
        ensures
            final(self)@ == old(self)@.linked_to(linked_node),
    {
        if self.linked_nodes.insert(linked_node) {
            self.consensus_all_linked = self.validator_subset_linked();
        } else {
            assert(self.linked_nodes@ =~= old(self).linked_nodes@);
        }
    }

    pub fn del_linked_nodes(&mut self, linked_node: &Address)
        ensures
            final(self)@ == old(self)@.unlinked_from(*linked_node),
    {
        if self.linked_nodes.remove(linked_node) {
            self.consensus_all_linked = self.validator_subset_linked();
        } else {
            assert(self.linked_nodes@ =~= old(self).linked_nodes@);
        }
    }

    pub fn consensus_all_linked(&self) -> (r: bool)
        ensures
            r == self@.all_linked,
    {
        self.consensus_all_linked
    }
}

/// The flag is right from the start and stays right, whatever is linked,
/// unlinked or learned of the validators.
pub proof fn law_flag_stays_right(
    top: TopologyState,
    node: Address,
    height: u64,
    validators: Set<Address>,
)
    requires
        top.flag_is_right(),
    ensures
        TopologyState::initial(node).flag_is_right(),
        top.linked_to(node).flag_is_right(),
        top.unlinked_from(node).flag_is_right(),
        top.updated(height, validators).flag_is_right(),
{
}

/// Linking a node that was not linked and unlinking it again restores the
/// linked nodes.
pub proof fn law_unlinking_undoes_linking(top: TopologyState, node: Address)
    requires
        !top.linked.contains(node),
    ensures
        top.linked_to(node).unlinked_from(node).linked == top.linked,
        top.linked_to(node).unlinked_from(node).validators == top.validators,
        top.linked_to(node).unlinked_from(node).height == top.height,
{
    assert(top.linked.insert(node).remove(node) =~= top.linked);
}

/// Validators of a height that is not lower than the one that is kept take the
/// place of those that were known, whatever height that is; of a lower one they
/// change nothing. Where they are the ones that were known, the height rises to
/// theirs and the flag stays; where they are others, the height stays and the
/// flag says whether they are all linked. What is linked stays.
pub proof fn law_validators_are_replaced(
    top: TopologyState,
    height: u64,
    validators: Set<Address>,
)
    ensures
        height >= top.height ==> top.updated(height, validators).validators == validators,
        height < top.height ==> top.updated(height, validators) == top,
        height >= top.height && validators == top.validators ==> {
            &&& top.updated(height, validators).height == height
            &&& top.updated(height, validators).all_linked == top.all_linked
        },
        height >= top.height && validators != top.validators ==> {
            &&& top.updated(height, validators).height == top.height
            &&& top.updated(height, validators).all_linked == forall|account: Address| #[trigger]
                validators.contains(account) ==> top.linked.contains(account)
        },
        top.updated(height, validators).linked == top.linked,
{
}

/// Linking and unlinking a node change that node and no other, and the flag
/// where they change anything: it then says whether all validators are linked.
/// The validators and the height stay.
pub proof fn law_linking(top: TopologyState, node: Address, other: Address)
    ensures
        top.linked_to(node).linked.contains(other) <==> top.linked.contains(other) || other == node,
        top.unlinked_from(node).linked.contains(other) <==> top.linked.contains(other) && other
            != node,
        top.linked.contains(node) ==> top.linked_to(node) == top,
        !top.linked.contains(node) ==> top.unlinked_from(node) == top,
        !top.linked.contains(node) ==> top.linked_to(node).all_linked == forall|account: Address|
         #[trigger]
            top.validators.contains(account) ==> top.linked.contains(account) || account == node,
        top.linked.contains(node) ==> top.unlinked_from(node).all_linked == forall|
            account: Address,
        | #[trigger]
            top.validators.contains(account) ==> top.linked.contains(account) && account != node,
        top.linked_to(node).validators == top.validators,
        top.unlinked_from(node).validators == top.validators,
        top.linked_to(node).height == top.height,
        top.unlinked_from(node).height == top.height,
{
    let more = top.linked.insert(node);
    let less = top.linked.remove(node);
    assert(top.validators.subset_of(more) <==> forall|account: Address| #[trigger]
        top.validators.contains(account) ==> top.linked.contains(account) || account == node);
    assert(top.validators.subset_of(less) <==> forall|account: Address| #[trigger]
        top.validators.contains(account) ==> top.linked.contains(account) && account != node);
}

} // verus!
