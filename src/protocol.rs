//! Fan-out peer selection: whom a gossip message is forwarded to.

use crate::domain::{NodeId, PeerAddr};
use crate::id_map::{keys_unique, lemma_lists_by_cover, lists, IdMap};
use vstd::prelude::*;

verus! {

/// Relies on rand::seq::index::sample with the thread-local generator:
/// `amount` distinct indices below `length`, in random order. It panics when
/// `amount > length`, which the precondition excludes.
#[verifier::external_body]
fn sample_indices(length: usize, amount: usize) -> (r: Vec<usize>)
    requires
        amount <= length,
    ensures
        r@.len() == amount,
        forall|i: int| 0 <= i < r@.len() ==> r@[i] < length,
        r@.no_duplicates(),
{
    rand::seq::index::sample(&mut rand::thread_rng(), length, amount).into_vec()
}

/// The number of peers other than `exclude`.
pub open spec fn others_count(peers: Map<NodeId, PeerAddr>, exclude: NodeId) -> nat {
    if peers.contains_key(exclude) {
        (peers.len() - 1) as nat
    } else {
        peers.len()
    }
}

/// `sel` is a fan-out for a message from `exclude`: `min(k, others)` distinct
/// known peers, none of them `exclude`, each with its known address.
pub open spec fn is_fan_out(
    sel: Seq<(NodeId, PeerAddr)>,
    peers: Map<NodeId, PeerAddr>,
    exclude: NodeId,
    k: nat,
) -> bool {
    &&& sel.len() == if k < others_count(peers, exclude) {
        k
    } else {
        others_count(peers, exclude)
    }
    &&& forall|i: int|
        #![trigger sel[i]]
        0 <= i < sel.len() ==> sel[i].0 != exclude && peers.contains_key(sel[i].0) && peers[sel[i].0]
            == sel[i].1
    &&& keys_unique(sel)
}

/// The known peers other than `exclude`, each once, with their addresses.
pub fn fan_out_candidates(known_peers: &IdMap<PeerAddr>, exclude: NodeId) -> (r: Vec<
    (NodeId, PeerAddr),
>)
    ensures
        lists(r@, known_peers@.remove(exclude)),
{
    let all = known_peers.to_vec();
    let ghost m = known_peers@;
    let mut r: Vec<(NodeId, PeerAddr)> = Vec::new();
    let mut i: usize = 0;
    while i < all.len()
        invariant
            i <= all@.len(),
            lists(all@, m),
            keys_unique(r@),
            forall|j: int|
                #![trigger r@[j]]
                0 <= j < r@.len() ==> r@[j].0 != exclude && m.contains_key(r@[j].0) && m[r@[j].0]
                    == r@[j].1,
            forall|j: int|
                #![trigger all@[j]]
                0 <= j < i && all@[j].0 != exclude ==> exists|t: int|
                    0 <= t < r@.len() && r@[t].0 == all@[j].0,
            forall|j: int, t: int|
                #![trigger all@[j], r@[t]]
                i <= j < all@.len() && 0 <= t < r@.len() ==> r@[t].0 != all@[j].0,
        decreases all@.len() - i,
    {
        let e = all[i];
        if e.0 != exclude {
            let ghost before = r@;
            r.push(e);
            proof {
                assert forall|a: int, b: int|
                    0 <= a < r@.len() && 0 <= b < r@.len() && a != b implies r@[a].0
                    != r@[b].0 by {
                    if a < before.len() && b < before.len() {
                        assert(before[a].0 != before[b].0);
                    } else if a < before.len() {
                        assert(before[a] == r@[a]);
                    } else {
                        assert(before[b] == r@[b]);
                    }
                }
                assert forall|j: int|
                    #![trigger all@[j]]
                    0 <= j < i + 1 && all@[j].0 != exclude implies exists|t: int|
                        0 <= t < r@.len() && r@[t].0 == all@[j].0 by {
                    if j < i {
                        let t = choose|t: int| 0 <= t < before.len() && before[t].0 == all@[j].0;
                        assert(r@[t] == before[t]);
                    } else {
                        assert(r@[before.len() as int] == e);
                    }
                }
                assert forall|j: int, t: int|
                    #![trigger all@[j], r@[t]]
                    i + 1 <= j < all@.len() && 0 <= t < r@.len() implies r@[t].0 != all@[j].0 by {
                    if t < before.len() {
                        assert(r@[t] == before[t]);
                    } else {
                        assert(all@[i as int].0 != all@[j].0);
                    }
                }
            }
        }
        i = i + 1;
    }
    proof {
        let m2 = m.remove(exclude);
        assert forall|k: NodeId| #[trigger] m2.contains_key(k) implies exists|t: int|
            0 <= t < r@.len() && r@[t].0 == k by {
            let j = choose|j: int| 0 <= j < all@.len() && all@[j].0 == k;
            assert(all@[j].0 != exclude);
        }
        lemma_lists_by_cover(r@, m2);
    }
    r
}

/// The items at the given positions, in the order of the positions.
pub fn pick<T: Copy>(items: &Vec<T>, indices: &Vec<usize>) -> (r: Vec<T>)
    requires
        forall|i: int| 0 <= i < indices@.len() ==> indices@[i] < items@.len(),
    ensures
        r@.len() == indices@.len(),
        forall|i: int| 0 <= i < indices@.len() ==> r@[i] == items@[indices@[i] as int],
{
    let mut r: Vec<T> = Vec::new();
    let mut i: usize = 0;
    while i < indices.len()
        invariant
            i <= indices@.len(),
            forall|j: int| 0 <= j < indices@.len() ==> indices@[j] < items@.len(),
            r@.len() == i,
            forall|j: int| 0 <= j < i ==> r@[j] == items@[indices@[j] as int],
        decreases indices@.len() - i,
    {
        r.push(items[indices[i]]);
        i = i + 1;
    }
    r
}

/// Selects uniformly at random, without replacement, up to `gossip_factor`
/// known peers other than the message's originator.
pub fn select_peers(
    known_peers: &IdMap<PeerAddr>,
    exclude_originator: NodeId,
    gossip_factor: usize,
) -> (r: Vec<(NodeId, PeerAddr)>)
    ensures
        is_fan_out(r@, known_peers@, exclude_originator, gossip_factor as nat),
{
    let candidates = fan_out_candidates(known_peers, exclude_originator);
    let amount = if gossip_factor < candidates.len() {
        gossip_factor
    } else {
        candidates.len()
    };
    let indices = sample_indices(candidates.len(), amount);
    let r = pick(&candidates, &indices);
    proof {
        let m = known_peers@;
        known_peers.lemma_finite();
        if m.contains_key(exclude_originator) {
            m.lemma_remove_key_len(exclude_originator);
        } else {
            assert(m.remove(exclude_originator) =~= m);
        }
        let c = candidates@;
        assert forall|i: int| #![trigger r@[i]] 0 <= i < r@.len() implies r@[i].0
            != exclude_originator && m.contains_key(r@[i].0) && m[r@[i].0] == r@[i].1 by {
            assert(c[indices@[i] as int] == r@[i]);
        }
        assert forall|a: int, b: int|
            0 <= a < r@.len() && 0 <= b < r@.len() && a != b implies r@[a].0 != r@[b].0 by {
            assert(indices@[a] != indices@[b]);
            assert(c[indices@[a] as int].0 != c[indices@[b] as int].0);
        }
    }
    r
}

} // verus!
