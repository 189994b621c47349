//! Which validators are linked.
use node_manager::topology::ConsensusNodeTopology;
use std::collections::BTreeSet;

const ME: (u128, u32) = (0, 1);
const A: (u128, u32) = (0, 2);
const B: (u128, u32) = (0, 3);

fn set(items: &[(u128, u32)]) -> BTreeSet<(u128, u32)> {
    items.iter().cloned().collect()
}

#[test]
fn at_first_only_the_node_is_linked() {
    let top = ConsensusNodeTopology::new(ME);
    assert_eq!(top.linked_nodes, set(&[ME]));
    assert_eq!(top.validator_nodes, set(&[]));
    assert!(!top.consensus_all_linked());
    assert_eq!(top.height, 0);
}

#[test]
fn flag_follows_links_and_validators() {
    let mut top = ConsensusNodeTopology::new(ME);
    top.update_validators(1, set(&[ME, A]));
    assert!(!top.consensus_all_linked());
    top.add_linked_nodes(A);
    assert!(top.consensus_all_linked());
    top.update_validators(2, set(&[ME, A, B]));
    assert!(!top.consensus_all_linked());
    top.add_linked_nodes(B);
    assert!(top.consensus_all_linked());
    top.del_linked_nodes(&A);
    assert!(!top.consensus_all_linked());
    top.update_validators(3, set(&[ME, B]));
    assert!(top.consensus_all_linked());
}

#[test]
fn linking_twice_and_unlinking_a_stranger_change_nothing() {
    let mut top = ConsensusNodeTopology::new(ME);
    top.add_linked_nodes(A);
    top.add_linked_nodes(A);
    assert_eq!(top.linked_nodes, set(&[ME, A]));
    top.del_linked_nodes(&B);
    assert_eq!(top.linked_nodes, set(&[ME, A]));
}

#[test]
fn unlinking_undoes_linking() {
    let mut top = ConsensusNodeTopology::new(ME);
    top.update_validators(1, set(&[ME, B]));
    top.add_linked_nodes(A);
    top.del_linked_nodes(&A);
    assert_eq!(top.linked_nodes, set(&[ME]));
    assert_eq!(top.validator_nodes, set(&[ME, B]));
}

#[test]
fn same_validators_raise_the_height_and_lower_ones_change_nothing() {
    let mut top = ConsensusNodeTopology::new(ME);
    top.update_validators(5, set(&[A]));
    assert_eq!(top.height, 0);
    top.update_validators(7, set(&[A]));
    assert_eq!(top.height, 7);
    top.update_validators(6, set(&[B]));
    assert_eq!(top.validator_nodes, set(&[A]));
    assert_eq!(top.height, 7);
    top.update_validators(6, set(&[A]));
    assert_eq!(top.height, 7);
}

#[test]
fn no_validators_at_all_are_not_linked_before_they_are_told() {
    let mut top = ConsensusNodeTopology::new(ME);
    top.update_validators(1, set(&[]));
    assert!(!top.consensus_all_linked());
    top.add_linked_nodes(A);
    assert!(top.consensus_all_linked());
}
