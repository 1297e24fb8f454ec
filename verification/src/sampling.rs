use vstd::prelude::*;

use rand::seq::SliceRandom;

use crate::address::PeerAddr;

verus! {

/// Calls rand's `SliceRandom::choose_multiple` on `peers` with the thread-local
/// generator (`rand::thread_rng`) and copies out what it picks.
///
/// The source picks `min(amount, peers.len())` distinct positions of the slice at
/// random and yields the elements there in random order; so the picked elements
/// form a sub-multiset of `peers`. Which positions and which order is left open.
/// `thread_rng` panics when the operating system cannot seed it; nothing here rules
/// that out.
#[verifier::external_body]
pub(crate) fn choose_multiple_peers(peers: &Vec<PeerAddr>, amount: usize) -> (chosen: Vec<PeerAddr>)
    ensures
        chosen@.len() == if amount < peers@.len() { amount as int } else { peers@.len() as int },
        chosen@.to_multiset().subset_of(peers@.to_multiset()),
{
    peers.as_slice().choose_multiple(&mut rand::thread_rng(), amount).copied().collect()
}

/// A sub-multiset of `whole` with as many elements as `whole` is `whole` itself.
pub(crate) proof fn lemma_full_submultiset_is_whole(part: Seq<PeerAddr>, whole: Seq<PeerAddr>)
    requires
        part.to_multiset().subset_of(whole.to_multiset()),
        part.len() == whole.len(),
    ensures
        part.to_multiset() =~= whole.to_multiset(),
{
    broadcast use vstd::seq_lib::group_to_multiset_ensures;
    broadcast use vstd::multiset::group_multiset_axioms;

    let p = part.to_multiset();
    let w = whole.to_multiset();
    let rest = w.sub(p);
    assert(rest.len() == 0);
    vstd::multiset::lemma_multiset_empty_len(rest);
    assert forall|v: PeerAddr| p.count(v) == w.count(v) by {
        assert(rest.count(v) == 0);
    }
}

} // verus!
