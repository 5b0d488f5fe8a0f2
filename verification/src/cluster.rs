//! Deterministic spatial clustering of location submissions.
//!
//! Submissions carry coordinates in microdegrees.  Valid submissions are
//! partitioned into square grid cells of 1000 microdegrees; every cell with
//! at least two members forms a cluster and elects exactly one winner by the
//! pure rule `(cell_x + cell_y) mod members`.  Winners are emitted in cell
//! order and capped at [`MAX_WINNERS`] per interval.
//!
//! The whole computation is a function of the multiset of submissions: the
//! submissions are brought into a canonical order before the cells are
//! walked, so any two permutations of one batch elect the same winners (see
//! [`lemma_cluster_deterministic`]).

use vstd::prelude::*;
use vstd::multiset::Multiset;
use vstd::relations::{sorted_by, total_ordering, strongly_connected};
use vstd::seq_lib::group_to_multiset_ensures;
use vstd::seq_lib::lemma_sorted_unique;

verus! {

/// One location report: a numeric user id, coordinates in microdegrees and a
/// timestamp in milliseconds.
#[derive(Clone, Copy, PartialEq, Eq, Structural, Debug)]
pub struct CompactSubmission {
    pub uid: u32,
    pub lat: i32,
    pub lon: i32,
    pub t: u64,
}

/// The elected representative of one grid cell: the winner's user id, the
/// cell coordinates and the cell's member count (saturated at 255).
#[derive(Clone, Copy, PartialEq, Eq, Debug)]
pub struct ClusterWinner {
    pub uid: u32,
    pub cluster_center: (i32, i32),
    pub participants: u8,
}

/// Grid cell edge length in microdegrees, about 100 m of latitude.
pub const GRID_CELL_MICRODEGREES: i32 = 1000;

/// At most this many winners are emitted for one interval.
pub const MAX_WINNERS: usize = 100;

/// Whether a coordinate pair lies on the earth: latitude within ±90 degrees
/// and longitude within ±180 degrees, in microdegrees.
pub open spec fn valid_location(lat: int, lon: int) -> bool {
    &&& -90_000_000 <= lat <= 90_000_000
    &&& -180_000_000 <= lon <= 180_000_000
}

/// The predicate that [`valid_location`] induces on submissions.
pub open spec fn valid_submission() -> spec_fn(CompactSubmission) -> bool {
    |s: CompactSubmission| valid_location(s.lat as int, s.lon as int)
}

/// The grid coordinate of a microdegree coordinate: division by the cell
/// size, truncated toward zero.
pub open spec fn grid_of(v: int) -> int {
    if v >= 0 {
        v / (GRID_CELL_MICRODEGREES as int)
    } else {
        -((-v) / (GRID_CELL_MICRODEGREES as int))
    }
}

/// The grid cell of a submission.
pub open spec fn cell_of(s: CompactSubmission) -> (int, int) {
    (grid_of(s.lat as int), grid_of(s.lon as int))
}

/// The canonical total order on submissions: by grid cell, then user id,
/// timestamp and exact coordinates.  Submissions that compare equal in both
/// directions are equal, so a multiset of submissions has exactly one sorted
/// arrangement.
pub open spec fn sub_le(a: CompactSubmission, b: CompactSubmission) -> bool {
    let (ax, ay) = cell_of(a);
    let (bx, by) = cell_of(b);
    if ax != bx {
        ax < bx
    } else if ay != by {
        ay < by
    } else if a.uid != b.uid {
        a.uid < b.uid
    } else if a.t != b.t {
        a.t < b.t
    } else if a.lat != b.lat {
        a.lat < b.lat
    } else {
        a.lon <= b.lon
    }
}

/// The canonical order as a relation value.
pub open spec fn sub_order() -> spec_fn(CompactSubmission, CompactSubmission) -> bool {
    |a: CompactSubmission, b: CompactSubmission| sub_le(a, b)
}

/// The canonical order is a total order.
pub proof fn lemma_sub_order_total()
    ensures
        total_ordering(sub_order()),
{
    let leq = sub_order();
    assert forall|a: CompactSubmission, b: CompactSubmission| #[trigger] leq(a, b) && #[trigger]
    leq(b, a) implies a == b by {
        assert(sub_le(a, b) && sub_le(b, a));
    }
    assert forall|a: CompactSubmission, b: CompactSubmission, c: CompactSubmission| #[trigger]
    leq(a, b) && #[trigger] leq(b, c) implies leq(a, c) by {
        assert(sub_le(a, b) && sub_le(b, c));
        assert(sub_le(a, c));
    }
}

/// Whether a coordinate pair lies on the earth.
pub fn is_valid_location(lat: i32, lon: i32) -> (r: bool)
    ensures
        r == valid_location(lat as int, lon as int),
{
    lat >= -90_000_000 && lat <= 90_000_000 && lon >= -180_000_000 && lon <= 180_000_000
}

/// The computed grid coordinate of one microdegree coordinate.
pub fn grid_coord(v: i32) -> (g: i32)
    ensures
        g == grid_of(v as int),
{
    if v >= 0 {
        let q: u64 = (v as u64) / 1000;
        q as i32
    } else {
        let mag: u64 = (-(v as i64)) as u64;
        let q: u64 = mag / 1000;
        -(q as i32)
    }
}

/// Whether `a` precedes `b` in the canonical order.
pub fn sub_le_exec(a: &CompactSubmission, b: &CompactSubmission) -> (r: bool)
    ensures
        r == sub_le(*a, *b),
{
    let ax = grid_coord(a.lat);
    let ay = grid_coord(a.lon);
    let bx = grid_coord(b.lat);
    let by = grid_coord(b.lon);
    if ax != bx {
        ax < bx
    } else if ay != by {
        ay < by
    } else if a.uid != b.uid {
        a.uid < b.uid
    } else if a.t != b.t {
        a.t < b.t
    } else if a.lat != b.lat {
        a.lat < b.lat
    } else {
        a.lon <= b.lon
    }
}

/// Rearranges the submissions into the canonical order.  The result is the
/// one sorted arrangement of the input's multiset.
pub fn sort_submissions(v: &Vec<CompactSubmission>) -> (r: Vec<CompactSubmission>)
    ensures
        sorted_by(r@, sub_order()),
        r@.to_multiset() == v@.to_multiset(),
{
    broadcast use group_to_multiset_ensures;

    proof {
        lemma_sub_order_total();
    }
    let mut out: Vec<CompactSubmission> = Vec::new();
    let mut idx: usize = 0;
    assert(v@.take(0int) =~= Seq::<CompactSubmission>::empty());
    while idx < v.len()
        invariant
            idx <= v.len(),
            sorted_by(out@, sub_order()),
            out@.to_multiset() == v@.take(idx as int).to_multiset(),
            total_ordering(sub_order()),
        decreases v.len() - idx,
    {
        let x = v[idx];
        let mut j: usize = 0;
        while j < out.len() && sub_le_exec(&out[j], &x)
            invariant
                j <= out.len(),
                forall|k: int| 0 <= k < j ==> sub_le(#[trigger] out@[k], x),
            decreases out.len() - j,
        {
            j += 1;
        }
        proof {
            if j < out.len() {
                assert(!sub_le(out@[j as int], x));
                assert(strongly_connected(sub_order()));
                assert(sub_order()(out@[j as int], x) || sub_order()(x, out@[j as int]));
                assert(sub_le(x, out@[j as int]));
            }
        }
        let ghost old_out = out@;
        out.insert(j, x);
        proof {
            let leq = sub_order();
            assert forall|p: int, q: int| 0 <= p < q < out@.len() implies #[trigger] leq(
                out@[p],
                out@[q],
            ) by {
                if q < j {
                    assert(leq(old_out[p], old_out[q]));
                } else if p > j {
                    assert(leq(old_out[p - 1], old_out[q - 1]));
                } else if q == j {
                    assert(sub_le(old_out[p], x));
                } else if p == j {
                    // x precedes everything from position j on
                    if j < old_out.len() {
                        assert(sub_le(x, old_out[j as int]));
                        assert(leq(old_out[j as int], old_out[q - 1]) || j as int == q - 1);
                    }
                } else {
                    // p < j < q
                    assert(sub_le(old_out[p], x));
                    assert(leq(old_out[p], old_out[q - 1]));
                }
            }
            assert(out@ == old_out.insert(j as int, x));
            assert(0 <= j as int <= old_out.len());
            vstd::seq_lib::to_multiset_insert(old_out, j as int, x);
            assert(out@.to_multiset() == old_out.to_multiset().insert(x));
            assert(v@.take(idx as int + 1) =~= v@.take(idx as int).push(x));
            vstd::seq_lib::to_multiset_build(v@.take(idx as int), x);
            assert(v@.take(idx as int + 1).to_multiset() == v@.take(idx as int).push(
                x,
            ).to_multiset());
            assert(out@.to_multiset() == v@.take(idx as int + 1).to_multiset());
        }
        idx += 1;
    }
    proof {
        assert(v@.take(v@.len() as int) =~= v@);
    }
    out
}

/// The end of the run of equal grid cells that starts at `i`: the first
/// index past `i` whose cell differs from the cell at `i`, or the length of
/// the sequence.
pub open spec fn run_end(s: Seq<CompactSubmission>, i: int) -> int
    decreases s.len() - i,
{
    if i < 0 || i >= s.len() {
        i
    } else if i + 1 < s.len() && cell_of(s[i + 1]) == cell_of(s[i]) {
        run_end(s, i + 1)
    } else {
        i + 1
    }
}

/// The run that starts inside the sequence is nonempty, stays inside the
/// sequence, has one cell throughout, and ends at the first different cell.
pub proof fn lemma_run_end(s: Seq<CompactSubmission>, i: int)
    requires
        0 <= i < s.len(),
    ensures
        i < run_end(s, i) <= s.len(),
        forall|k: int| i <= k < run_end(s, i) ==> cell_of(#[trigger] s[k]) == cell_of(s[i]),
        run_end(s, i) < s.len() ==> cell_of(s[run_end(s, i)]) != cell_of(s[i]),
    decreases s.len() - i,
{
    if i + 1 < s.len() && cell_of(s[i + 1]) == cell_of(s[i]) {
        lemma_run_end(s, i + 1);
    }
}

/// A scan that saw one cell from `i` up to `j` and a different cell (or the
/// end) at `j` has found the run's end.
pub proof fn lemma_run_end_from_scan(s: Seq<CompactSubmission>, i: int, j: int)
    requires
        0 <= i < j <= s.len(),
        forall|k: int| i <= k < j ==> cell_of(#[trigger] s[k]) == cell_of(s[i]),
        j < s.len() ==> cell_of(s[j]) != cell_of(s[i]),
    ensures
        run_end(s, i) == j,
    decreases j - i,
{
    if i + 1 < s.len() && cell_of(s[i + 1]) == cell_of(s[i]) {
        assert(i + 1 < j);
        lemma_run_end_from_scan(s, i + 1, j);
    } else {
        if j > i + 1 {
            assert(cell_of(s[i + 1]) == cell_of(s[i]));
        }
    }
}

/// The winner that the run `s[i..j]` of one cell elects: the member at
/// offset `(cell_x + cell_y) mod (j - i)` of the run, with the cell as the
/// cluster center and the member count saturated at 255.
pub open spec fn mk_winner(s: Seq<CompactSubmission>, i: int, j: int) -> ClusterWinner
    recommends
        0 <= i < j <= s.len(),
{
    let cx = grid_of(s[i].lat as int);
    let cy = grid_of(s[i].lon as int);
    let n = j - i;
    let w = s[i + ((cx + cy) % n)];
    ClusterWinner {
        uid: w.uid,
        cluster_center: (cx as i32, cy as i32),
        participants: if n >= 255 {
            255u8
        } else {
            n as u8
        },
    }
}

/// The winners elected from the runs of the canonically ordered sequence
/// `s`, starting at position `i` with `taken` winners already emitted: every
/// run of two or more members elects one winner, runs are visited in order,
/// and emission stops at [`MAX_WINNERS`].
pub open spec fn winners_from(s: Seq<CompactSubmission>, i: int, taken: int) -> Seq<ClusterWinner>
    decreases s.len() - i,
    via winners_from_decreases
{
    if i < 0 || i >= s.len() || taken >= MAX_WINNERS as int {
        Seq::empty()
    } else {
        let j = run_end(s, i);
        if j - i >= 2 {
            seq![mk_winner(s, i, j)] + winners_from(s, j, taken + 1)
        } else {
            winners_from(s, j, taken)
        }
    }
}

#[via_fn]
proof fn winners_from_decreases(s: Seq<CompactSubmission>, i: int, taken: int) {
    if !(i < 0 || i >= s.len() || taken >= MAX_WINNERS as int) {
        lemma_run_end(s, i);
    }
}

/// The canonical arrangement of a batch: the valid submissions, in the
/// canonical order.  It is a function of the batch's multiset.
pub open spec fn canonical_of(s: Seq<CompactSubmission>) -> Seq<CompactSubmission> {
    s.filter(valid_submission()).sort_by(sub_order())
}

/// The winners that a batch of submissions elects.
pub open spec fn winners_of(s: Seq<CompactSubmission>) -> Seq<ClusterWinner> {
    winners_from(canonical_of(s), 0, 0)
}

/// At most `MAX_WINNERS - taken` further winners are ever emitted.
pub proof fn lemma_winners_from_cap(s: Seq<CompactSubmission>, i: int, taken: int)
    requires
        0 <= taken <= MAX_WINNERS as int,
    ensures
        winners_from(s, i, taken).len() <= MAX_WINNERS as int - taken,
    decreases s.len() - i,
{
    if !(i < 0 || i >= s.len() || taken >= MAX_WINNERS as int) {
        let j = run_end(s, i);
        lemma_run_end(s, i);
        if j - i >= 2 {
            lemma_winners_from_cap(s, j, taken + 1);
        } else {
            lemma_winners_from_cap(s, j, taken);
        }
    }
}

/// Every emitted winner represents a cluster of at least two members: a
/// cell with a single member never elects a winner.
pub proof fn lemma_winners_from_min_members(s: Seq<CompactSubmission>, i: int, taken: int)
    ensures
        forall|k: int|
            0 <= k < winners_from(s, i, taken).len() ==> (#[trigger] winners_from(s, i, taken)[k]).participants
                >= 2,
    decreases s.len() - i,
{
    if !(i < 0 || i >= s.len() || taken >= MAX_WINNERS as int) {
        let j = run_end(s, i);
        lemma_run_end(s, i);
        if j - i >= 2 {
            lemma_winners_from_min_members(s, j, taken + 1);
            let w = winners_from(s, i, taken);
            let rest = winners_from(s, j, taken + 1);
            assert(w == seq![mk_winner(s, i, j)] + rest);
            assert(mk_winner(s, i, j).participants >= 2);
            assert forall|k: int| 0 <= k < w.len() implies (#[trigger] w[k]).participants >= 2 by {
                if k == 0 {
                    assert(w[0] == mk_winner(s, i, j));
                } else {
                    assert(w[k] == rest[k - 1]);
                }
            }
        } else {
            lemma_winners_from_min_members(s, j, taken);
            assert(winners_from(s, i, taken) == winners_from(s, j, taken));
        }
    } else {
        assert(winners_from(s, i, taken) =~= Seq::<ClusterWinner>::empty());
    }
}

/// The Euclidean remainder of a negative value, computed from the remainder
/// of a nonnegative one.
proof fn lemma_mod_neg(a: int, n: int)
    requires
        a < 0,
        n >= 1,
    ensures
        a % n == n - 1 - ((-a - 1) % n),
{
    let b = -a - 1;
    vstd::arithmetic::div_mod::lemma_fundamental_div_mod(b, n);
    vstd::arithmetic::div_mod::lemma_mod_bound(b, n);
    let q = -(b / n) - 1;
    let r = n - 1 - (b % n);
    assert(a == q * n + r) by {
        vstd::arithmetic::mul::lemma_mul_is_distributive_sub_other_way(n, -(b / n), 1);
        vstd::arithmetic::mul::lemma_mul_unary_negation(b / n, n);
    }
    vstd::arithmetic::div_mod::lemma_fundamental_div_mod_converse(a, n, q, r);
}

/// The member offset that the winner rule picks inside a run: the Euclidean
/// remainder of the cell coordinate sum by the member count.
fn winner_offset(cx: i32, cy: i32, count: usize) -> (r: usize)
    requires
        count >= 1,
    ensures
        r as int == (cx as int + cy as int) % (count as int),
        r < count,
{
    let sum: i64 = cx as i64 + cy as i64;
    let n: u64 = count as u64;
    if sum >= 0 {
        let m: u64 = (sum as u64) % n;
        proof {
            vstd::arithmetic::div_mod::lemma_mod_bound(sum as int, n as int);
        }
        m as usize
    } else {
        let b: u64 = ((-sum) as u64) - 1;
        let m: u64 = b % n;
        proof {
            vstd::arithmetic::div_mod::lemma_mod_bound(b as int, n as int);
            lemma_mod_neg(sum as int, n as int);
        }
        (n - 1 - m) as usize
    }
}

/// Elects the winners of one batch: partitions the valid submissions into
/// grid cells, elects one member of every cell with at least two members by
/// the rule `(cell_x + cell_y) mod members`, and emits the winners in cell
/// order, at most [`MAX_WINNERS`] of them.  The result depends only on the
/// multiset of submissions handed in.
pub fn select_cluster_winners(submissions: &Vec<CompactSubmission>) -> (winners: Vec<
    ClusterWinner,
>)
    ensures
        winners@ == winners_of(submissions@),
        winners@.len() <= MAX_WINNERS,
        forall|k: int| 0 <= k < winners@.len() ==> (#[trigger] winners@[k]).participants >= 2,
{
    let ghost pred = valid_submission();
    let mut valid: Vec<CompactSubmission> = Vec::new();
    let mut i: usize = 0;
    assert(submissions@.take(0int) =~= Seq::<CompactSubmission>::empty());
    assert(submissions@.take(0int).filter(pred) =~= Seq::<CompactSubmission>::empty());
    while i < submissions.len()
        invariant
            i <= submissions.len(),
            pred == valid_submission(),
            valid@ == submissions@.take(i as int).filter(pred),
        decreases submissions.len() - i,
    {
        let s = submissions[i];
        let ok = is_valid_location(s.lat, s.lon);
        proof {
            assert(ok == pred(s));
            assert(submissions@.take(i as int + 1).drop_last() =~= submissions@.take(i as int));
            assert(submissions@.take(i as int + 1).last() == s);
            reveal_with_fuel(Seq::filter, 2);
        }
        if ok {
            valid.push(s);
        }
        assert(valid@ == submissions@.take(i as int + 1).filter(pred));
        i += 1;
    }
    assert(submissions@.take(submissions@.len() as int) =~= submissions@);
    let sorted = sort_submissions(&valid);
    proof {
        lemma_sub_order_total();
        submissions@.filter(pred).lemma_sort_by_ensures(sub_order());
        lemma_sorted_unique(sorted@, canonical_of(submissions@), sub_order());
    }
    let n = sorted.len();
    let mut winners: Vec<ClusterWinner> = Vec::new();
    let mut at: usize = 0;
    while at < n && winners.len() < MAX_WINNERS
        invariant
            n == sorted@.len(),
            at <= n,
            winners@.len() <= MAX_WINNERS,
            forall|k: int| 0 <= k < winners@.len() ==> (#[trigger] winners@[k]).participants >= 2,
            winners_from(sorted@, 0, 0) == winners@ + winners_from(
                sorted@,
                at as int,
                winners@.len() as int,
            ),
        decreases n - at,
    {
        let ghost taken = winners@.len() as int;
        let cx = grid_coord(sorted[at].lat);
        let cy = grid_coord(sorted[at].lon);
        let mut j: usize = at + 1;
        while j < n && grid_coord(sorted[j].lat) == cx && grid_coord(sorted[j].lon) == cy
            invariant
                n == sorted@.len(),
                at < j <= n,
                cx == grid_of(sorted@[at as int].lat as int),
                cy == grid_of(sorted@[at as int].lon as int),
                forall|k: int|
                    at <= k < j ==> cell_of(#[trigger] sorted@[k]) == cell_of(sorted@[at as int]),
            decreases n - j,
        {
            j += 1;
        }
        proof {
            lemma_run_end_from_scan(sorted@, at as int, j as int);
        }
        let count = j - at;
        if count >= 2 {
            let off = winner_offset(cx, cy, count);
            let w = sorted[at + off];
            let participants: u8 = if count >= 255 {
                255
            } else {
                count as u8
            };
            let ghost old_winners = winners@;
            winners.push(
                ClusterWinner { uid: w.uid, cluster_center: (cx, cy), participants },
            );
            proof {
                assert(winners@.last() == mk_winner(sorted@, at as int, j as int));
                assert(winners_from(sorted@, at as int, taken) == seq![
                    mk_winner(sorted@, at as int, j as int),
                ] + winners_from(sorted@, j as int, taken + 1));
                assert(winners@ =~= old_winners.push(winners@.last()));
                assert(old_winners + winners_from(sorted@, at as int, taken) =~= winners@
                    + winners_from(sorted@, j as int, taken + 1));
            }
        } else {
            proof {
                assert(winners_from(sorted@, at as int, taken) == winners_from(
                    sorted@,
                    j as int,
                    taken,
                ));
            }
        }
        at = j;
    }
    proof {
        assert(winners_from(sorted@, at as int, winners@.len() as int) =~= Seq::empty());
        assert(winners@ + winners_from(sorted@, at as int, winners@.len() as int) =~= winners@);
    }
    winners
}

/// Two batches with the same submissions, in any order and with any
/// duplication pattern, elect exactly the same winners: clustering is a
/// function of the multiset of submissions.
pub proof fn lemma_cluster_deterministic(a: Seq<CompactSubmission>, b: Seq<CompactSubmission>)
    requires
        a.to_multiset() == b.to_multiset(),
    ensures
        winners_of(a) == winners_of(b),
{
    lemma_sub_order_total();
    lemma_filter_to_multiset(a, valid_submission());
    lemma_filter_to_multiset(b, valid_submission());
    a.filter(valid_submission()).lemma_sort_by_ensures(sub_order());
    b.filter(valid_submission()).lemma_sort_by_ensures(sub_order());
    lemma_sorted_unique(canonical_of(a), canonical_of(b), sub_order());
    assert(canonical_of(a) == canonical_of(b));
}

/// Filtering commutes with forgetting the order: the multiset of a filtered
/// sequence is the filtered multiset.
pub proof fn lemma_filter_to_multiset<A>(s: Seq<A>, pred: spec_fn(A) -> bool)
    ensures
        s.filter(pred).to_multiset() == s.to_multiset().filter(pred),
    decreases s.len(),
{
    broadcast use group_to_multiset_ensures;
    broadcast use vstd::multiset::group_multiset_axioms;

    reveal_with_fuel(Seq::filter, 2);
    if s.len() == 0 {
        assert(s.filter(pred) =~= Seq::<A>::empty());
        assert(s.to_multiset() =~= Multiset::<A>::empty());
        assert(s.filter(pred).to_multiset() =~= s.to_multiset().filter(pred));
    } else {
        let dl = s.drop_last();
        let x = s.last();
        lemma_filter_to_multiset(dl, pred);
        assert(s =~= dl.push(x));
        assert(s.push(x).to_multiset() == s.to_multiset().insert(x));
        assert(dl.push(x).to_multiset() == dl.to_multiset().insert(x));
        if pred(x) {
            assert(s.filter(pred) == dl.filter(pred).push(x));
            assert(s.filter(pred).to_multiset() == dl.filter(pred).to_multiset().insert(x));
            assert(dl.to_multiset().insert(x).filter(pred) =~= dl.to_multiset().filter(
                pred,
            ).insert(x));
        } else {
            assert(s.filter(pred) == dl.filter(pred));
            assert(dl.to_multiset().insert(x).filter(pred) =~= dl.to_multiset().filter(pred));
        }
        assert(s.filter(pred).to_multiset() == s.to_multiset().filter(pred));
    }
}

} // verus!
