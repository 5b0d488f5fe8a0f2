//! Merkle summaries of winner lists.
//!
//! A winner list is serialised winner by winner into fixed-width big-endian
//! fields and summarised by one SHA-256 digest, hex encoded; the empty list
//! gets the sentinel root `"empty"` instead of a hash of nothing.  Batches
//! of roots are combined by a pairwise merkle tree whose odd last leaf is
//! paired with itself.

use vstd::prelude::*;
use vstd::string::StrSliceExecFns;
use vstd::utf8::encode_utf8;

use crate::cluster::{winners_of, ClusterWinner};
use crate::codec::{i32_be, push_i32_be, push_u32_be, u32_be};
use crate::hashing::{hex_encode, hex_of, sha256, sha256_of};

verus! {

/// The serialisation of one winner: user id, both cell coordinates and the
/// member count, big endian and fixed width.
pub open spec fn winner_bytes(w: ClusterWinner) -> Seq<u8> {
    u32_be(w.uid) + i32_be(w.cluster_center.0) + i32_be(w.cluster_center.1) + seq![w.participants]
}

/// The serialisation of a winner list, winner by winner.
pub open spec fn winners_bytes(ws: Seq<ClusterWinner>) -> Seq<u8>
    decreases ws.len(),
{
    if ws.len() == 0 {
        Seq::empty()
    } else {
        winners_bytes(ws.drop_last()) + winner_bytes(ws.last())
    }
}

/// The root of a winner list: the sentinel `"empty"` for no winners, else
/// the hex SHA-256 digest of the serialised list.
pub open spec fn root_of_winners(ws: Seq<ClusterWinner>) -> Seq<char> {
    if ws.len() == 0 {
        "empty"@
    } else {
        hex_of(sha256_of(winners_bytes(ws)))
    }
}

/// Computes the merkle root of a winner list.
pub fn compute_merkle_root(winners: &Vec<ClusterWinner>) -> (r: String)
    ensures
        r@ == root_of_winners(winners@),
{
    if winners.len() == 0 {
        return "empty".to_owned();
    }
    let mut bytes: Vec<u8> = Vec::new();
    let mut i: usize = 0;
    assert(winners@.take(0int) =~= Seq::<ClusterWinner>::empty());
    assert(bytes@ =~= winners_bytes(winners@.take(0int)));
    while i < winners.len()
        invariant
            i <= winners.len(),
            bytes@ == winners_bytes(winners@.take(i as int)),
        decreases winners.len() - i,
    {
        let w = winners[i];
        push_u32_be(&mut bytes, w.uid);
        push_i32_be(&mut bytes, w.cluster_center.0);
        push_i32_be(&mut bytes, w.cluster_center.1);
        bytes.push(w.participants);
        proof {
            assert(winners@.take(i as int + 1).drop_last() =~= winners@.take(i as int));
            assert(winners@.take(i as int + 1).last() == w);
            assert(bytes@ =~= winners_bytes(winners@.take(i as int)) + winner_bytes(w));
        }
        i += 1;
    }
    assert(winners@.take(winners@.len() as int) =~= winners@);
    let digest = sha256(&bytes);
    hex_encode(&digest)
}

/// Electing winners and summarising them in one step: the clusterer's whole
/// contract.  Both parts depend only on the multiset of submissions.
pub fn cluster(submissions: &Vec<crate::cluster::CompactSubmission>) -> (r: (
    Vec<ClusterWinner>,
    String,
))
    ensures
        r.0@ == winners_of(submissions@),
        r.1@ == root_of_winners(winners_of(submissions@)),
{
    let winners = crate::cluster::select_cluster_winners(submissions);
    let root = compute_merkle_root(&winners);
    (winners, root)
}

/// Identical submission multisets give identical winners and an identical
/// merkle root, whatever the submission order.
pub proof fn lemma_cluster_root_deterministic(
    a: Seq<crate::cluster::CompactSubmission>,
    b: Seq<crate::cluster::CompactSubmission>,
)
    requires
        a.to_multiset() == b.to_multiset(),
    ensures
        winners_of(a) == winners_of(b),
        root_of_winners(winners_of(a)) == root_of_winners(winners_of(b)),
{
    crate::cluster::lemma_cluster_deterministic(a, b);
}

/// The views of a list of strings.
pub open spec fn views(v: Seq<String>) -> Seq<Seq<char>> {
    v.map_values(|s: String| s@)
}

/// The combination of two child hashes: the hex SHA-256 digest of the two
/// strings' bytes, left first.
pub open spec fn hash_pair(l: Seq<char>, r: Seq<char>) -> Seq<char> {
    hex_of(sha256_of(encode_utf8(l) + encode_utf8(r)))
}

/// One level of the merkle tree: neighbours are combined pairwise and an
/// odd last leaf is paired with itself.
pub open spec fn merkle_level(level: Seq<Seq<char>>) -> Seq<Seq<char>> {
    Seq::new(
        (level.len() + 1) / 2,
        |i: int|
            if 2 * i + 1 < level.len() {
                hash_pair(level[2 * i], level[2 * i + 1])
            } else {
                hash_pair(level[2 * i], level[2 * i])
            },
    )
}

/// The root of the pairwise merkle tree over a list of leaves: the empty
/// string for no leaves, the leaf itself for one leaf, else the root of the
/// combined level.
pub open spec fn merkle_root_of(leaves: Seq<Seq<char>>) -> Seq<char>
    decreases leaves.len(),
{
    if leaves.len() == 0 {
        Seq::empty()
    } else if leaves.len() == 1 {
        leaves[0]
    } else {
        merkle_root_of(merkle_level(leaves))
    }
}

/// Combines two child hashes.
fn hash_pair_exec(l: &String, r: &String) -> (h: String)
    ensures
        h@ == hash_pair(l@, r@),
{
    let mut buf = l.as_str().as_bytes_vec();
    let mut rb = r.as_str().as_bytes_vec();
    buf.append(&mut rb);
    let digest = sha256(&buf);
    hex_encode(&digest)
}

/// Computes the root of the pairwise merkle tree over the leaves.
pub fn calculate_merkle_root(leaves: &Vec<String>) -> (r: String)
    ensures
        r@ == merkle_root_of(views(leaves@)),
{
    if leaves.len() == 0 {
        return String::new();
    }
    let mut current: Vec<String> = Vec::new();
    let mut i: usize = 0;
    assert(views(leaves@).take(0int) =~= views(current@));
    while i < leaves.len()
        invariant
            i <= leaves.len(),
            views(current@) == views(leaves@).take(i as int),
        decreases leaves.len() - i,
    {
        let ghost prev = current@;
        let s = leaves[i].clone();
        current.push(s);
        proof {
            assert(s == leaves@[i as int]);
            assert(current@ == prev.push(s));
            assert(views(current@) =~= views(prev).push(s@));
            assert(views(leaves@).take(i as int + 1) =~= views(leaves@).take(i as int).push(
                leaves@[i as int]@,
            ));
            assert(views(current@) == views(leaves@).take(i as int + 1));
        }
        i += 1;
    }
    assert(views(leaves@).take(leaves@.len() as int) =~= views(leaves@));
    while current.len() > 1
        invariant
            current@.len() >= 1,
            merkle_root_of(views(current@)) == merkle_root_of(views(leaves@)),
        decreases current@.len(),
    {
        let ghost level = views(current@);
        let mut next: Vec<String> = Vec::new();
        let half = current.len() / 2;
        let pairs = half + current.len() % 2;
        let mut m: usize = 0;
        assert(merkle_level(level).take(0int) =~= views(next@));
        assert(level.len() <= usize::MAX as int);
        while m < pairs
            invariant
                current@.len() == level.len(),
                level == views(current@),
                level.len() <= usize::MAX as int,
                pairs == (level.len() + 1) / 2,
                m <= pairs,
                next@.len() == m,
                views(next@) == merkle_level(level).take(m as int),
            decreases pairs - m,
        {
            assert(2 * (m as int) < level.len());
            let k = 2 * m;
            let h = if k + 1 < current.len() {
                hash_pair_exec(&current[k], &current[k + 1])
            } else {
                hash_pair_exec(&current[k], &current[k])
            };
            next.push(h);
            proof {
                assert(merkle_level(level)[m as int] == h@);
                assert(views(next@) =~= merkle_level(level).take(m as int + 1));
            }
            m += 1;
        }
        proof {
            assert(views(next@) =~= merkle_level(level));
            assert((level.len() + 1) / 2 < level.len());
            assert(merkle_root_of(level) == merkle_root_of(merkle_level(level)));
        }
        current = next;
    }
    let r = current[0].clone();
    proof {
        assert(views(current@).len() == 1);
        assert(merkle_root_of(views(current@)) == views(current@)[0]);
    }
    r
}

} // verus!
