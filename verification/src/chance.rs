//! What is left to chance.
use rand::{thread_rng, Rng};
use uuid::Uuid;
use vstd::prelude::*;

use crate::types::SocketAddr;

verus! {

/// `Rng::shuffle` of the rand crate, on the generator of the thread: the same
/// items, in any order.
#[verifier::external_body]
pub(crate) fn shuffle(addrs: &mut Vec<SocketAddr>)
    ensures
        final(addrs)@.to_multiset() == old(addrs)@.to_multiset(),
{
    thread_rng().shuffle(addrs);
}

/// The sixteen bytes are those of a random (version 4) UUID: the version is
/// in the high half of the seventh byte, the variant in the two highest bits
/// of the ninth; all else is random.
pub open spec fn is_random_uuid(id: Seq<u8>) -> bool {
    &&& id.len() == 16
    &&& id[6] & 0xf0 == 0x40
    &&& id[8] & 0xc0 == 0x80
}

/// The bytes of `Uuid::new_v4` of the uuid crate.
#[verifier::external_body]
pub(crate) fn random_uuid() -> (id: Vec<u8>)
    ensures
        is_random_uuid(id@),
{
    Uuid::new_v4().as_bytes().to_vec()
}

/// Two lists with the same items, of which one has no duplicates, have the
/// same length and set of items, and neither has duplicates.
pub proof fn lemma_reordered(a: Seq<SocketAddr>, b: Seq<SocketAddr>)
    requires
        a.to_multiset() == b.to_multiset(),
        a.no_duplicates(),
    ensures
        b.no_duplicates(),
        b.to_set() == a.to_set(),
        b.len() == a.len(),
{
    broadcast use vstd::seq_lib::group_to_multiset_ensures;

    a.lemma_multiset_has_no_duplicates();
    b.lemma_multiset_has_no_duplicates_conv();
    assert forall|x: SocketAddr| a.to_set().contains(x) <==> b.to_set().contains(x) by {
        assert(a.contains(x) <==> a.to_multiset().count(x) > 0);
        assert(b.contains(x) <==> b.to_multiset().count(x) > 0);
    }
    assert(a.to_set() =~= b.to_set());
    assert(a.to_multiset().len() == a.len());
    assert(b.to_multiset().len() == b.len());
}

} // verus!
