//! Quorum collection and majority-vote finalization.
//!
//! Independent collectors report one [`IntervalResult`] per interval.  The
//! aggregator keeps the reports of each unfinalized interval, refuses a
//! second report from the same collector, and finalizes an interval as soon
//! as [`CONSENSUS_QUORUM`] collectors have reported: the merkle root with
//! the most votes wins, a tie goes to the root whose report was inserted
//! first, and the canonical result's winners are sealed into a new ledger
//! block.  The interval's pending entry is removed at finalization.

use vstd::prelude::*;

use crate::cluster::ClusterWinner;
use crate::ledger::Ledger;
use crate::validator::{clone_winners, IntervalResult};

verus! {

/// How many distinct collectors must report an interval before it is
/// finalized.
pub const CONSENSUS_QUORUM: usize = 2;

/// One consensus submission: which interval, the collector's result, and
/// the collector's identity.
pub struct ConsensusRequest {
    pub interval_id: u64,
    pub validation_result: IntervalResult,
    pub edge_server_id: String,
}

/// The summary handed back when an interval is finalized.  The winner list
/// is the canonical result's: the caller dispatches it to the reward
/// collaborator; the block itself is already appended.
pub struct FinalizedBlock {
    pub block_index: u64,
    pub interval_id: u64,
    pub winners: Vec<ClusterWinner>,
}

/// What one consensus submission achieved.
pub enum SubmitOutcome {
    /// The quorum is not reached yet; the ledger is untouched.
    Pending,
    /// The submission completed the quorum: the interval was finalized and
    /// one block was appended.
    Finalized(FinalizedBlock),
}

/// Why a consensus operation failed.
#[derive(Debug)]
pub enum ConsensusError {
    /// Finalization was asked of an interval with no accumulated results.
    NoConsensusData,
    /// No accumulated result carries the winning root.  Finalization
    /// proves this cannot happen; the variant remains for the API.
    NoWinningResult,
    /// The collector has already reported this interval.
    DuplicateCollector,
}

/// The results of a pending entry list, in submission order.
pub open spec fn results_of(entries: Seq<(String, IntervalResult)>) -> Seq<IntervalResult> {
    entries.map_values(|p: (String, IntervalResult)| p.1)
}

/// Whether some entry was reported by the given collector.
pub open spec fn has_collector(entries: Seq<(String, IntervalResult)>, collector: Seq<char>) -> bool {
    exists|k: int| 0 <= k < entries.len() && (#[trigger] entries[k]).0@ == collector
}

/// The predicate "this result votes for the given merkle root".
pub open spec fn root_pred(root: Seq<char>) -> spec_fn(IntervalResult) -> bool {
    |r: IntervalResult| r.merkle_root@ == root
}

/// How many of the results vote for the given merkle root.
pub open spec fn votes_for(results: Seq<IntervalResult>, root: Seq<char>) -> int {
    results.filter(root_pred(root)).len() as int
}

/// The index of the result whose root leads the tally among the first
/// `upto` results: the most votes win and a tie keeps the earlier result.
pub open spec fn best_index(results: Seq<IntervalResult>, upto: int) -> int
    decreases upto,
{
    if upto <= 1 {
        0
    } else {
        let prev = best_index(results, upto - 1);
        if votes_for(results, results[upto - 1].merkle_root@) > votes_for(
            results,
            results[prev].merkle_root@,
        ) {
            upto - 1
        } else {
            prev
        }
    }
}

/// The index of the canonical result of a tally.
pub open spec fn winning_index(results: Seq<IntervalResult>) -> int {
    best_index(results, results.len() as int)
}

/// The merkle root that wins the tally.
pub open spec fn winning_root(results: Seq<IntervalResult>) -> Seq<char> {
    results[winning_index(results)].merkle_root@
}

/// The canonical result leads the tally, strictly beats every earlier
/// result, and is the first result that carries the winning root: a tie
/// between two roots goes to the root reported first.
pub proof fn lemma_winning_root_majority(results: Seq<IntervalResult>)
    requires
        results.len() > 0,
    ensures
        0 <= winning_index(results) < results.len(),
        forall|j: int|
            0 <= j < results.len() ==> votes_for(results, (#[trigger] results[j]).merkle_root@)
                <= votes_for(results, winning_root(results)),
        forall|j: int|
            0 <= j < winning_index(results) ==> votes_for(
                results,
                (#[trigger] results[j]).merkle_root@,
            ) < votes_for(results, winning_root(results)),
        forall|j: int|
            0 <= j < winning_index(results) ==> (#[trigger] results[j]).merkle_root@
                != winning_root(results),
{
    lemma_best_index(results, results.len() as int);
}

/// The inductive core of [`lemma_winning_root_majority`], over a prefix.
proof fn lemma_best_index(results: Seq<IntervalResult>, upto: int)
    requires
        0 < upto <= results.len(),
    ensures
        0 <= best_index(results, upto) < upto,
        forall|j: int|
            0 <= j < upto ==> votes_for(results, (#[trigger] results[j]).merkle_root@) <= votes_for(
                results,
                results[best_index(results, upto)].merkle_root@,
            ),
        forall|j: int|
            0 <= j < best_index(results, upto) ==> votes_for(
                results,
                (#[trigger] results[j]).merkle_root@,
            ) < votes_for(results, results[best_index(results, upto)].merkle_root@),
        forall|j: int|
            0 <= j < best_index(results, upto) ==> (#[trigger] results[j]).merkle_root@
                != results[best_index(results, upto)].merkle_root@,
    decreases upto,
{
    if upto > 1 {
        lemma_best_index(results, upto - 1);
    }
}

/// The aggregator: for every interval that has reports but no block yet,
/// the reports in submission order, at most one per collector.
pub struct ConsensusAggregator {
    pending: vstd::hash_map::HashMapWithView<u64, Vec<(String, IntervalResult)>>,
}

impl View for ConsensusAggregator {
    type V = Map<u64, Vec<(String, IntervalResult)>>;

    closed spec fn view(&self) -> Map<u64, Vec<(String, IntervalResult)>> {
        self.pending@
    }
}

/// A valid pending list: nonempty, with at most one report per collector.
pub open spec fn entries_ok(entries: Seq<(String, IntervalResult)>) -> bool {
    &&& entries.len() > 0
    &&& forall|a: int, b: int|
        0 <= a < b < entries.len() ==> (#[trigger] entries[a]).0@ != (#[trigger] entries[b]).0@
}

/// Pushing a report from a collector that is not in the list keeps the
/// list valid.
proof fn lemma_entries_ok_push(entries: Seq<(String, IntervalResult)>, p: (String, IntervalResult))
    requires
        entries.len() == 0 || entries_ok(entries),
        forall|m: int| 0 <= m < entries.len() ==> (#[trigger] entries[m]).0@ != p.0@,
    ensures
        entries_ok(entries.push(p)),
{
    let es = entries.push(p);
    assert forall|a: int, b: int| 0 <= a < b < es.len() implies (#[trigger] es[a]).0@ != (
    #[trigger] es[b]).0@ by {
        if b == es.len() - 1 {
            assert(es[a] == entries[a]);
            assert(es[b] == p);
        } else {
            assert(es[a] == entries[a]);
            assert(es[b] == entries[b]);
        }
    }
}

impl ConsensusAggregator {
    /// Every pending list is nonempty and holds at most one report per
    /// collector.
    pub open spec fn wf(&self) -> bool {
        forall|id: u64| self@.dom().contains(id) ==> entries_ok((#[trigger] self@[id])@)
    }

    /// Every pending list is still short of the quorum: an interval that
    /// reaches it is finalized and removed within the same call.
    pub open spec fn bounded(&self) -> bool {
        forall|id: u64|
            self@.dom().contains(id) ==> (#[trigger] self@[id])@.len() < CONSENSUS_QUORUM as int
    }

    /// An empty aggregator.
    pub fn new() -> (r: ConsensusAggregator)
        ensures
            r@ == Map::<u64, Vec<(String, IntervalResult)>>::empty(),
            r.wf(),
            r.bounded(),
    {
        broadcast use vstd::std_specs::hash::axiom_u64_obeys_hash_table_key_model;

        ConsensusAggregator { pending: vstd::hash_map::HashMapWithView::new() }
    }
}

/// Counts the accumulated results that vote for the given root.
fn count_votes(entries: &Vec<(String, IntervalResult)>, root: &String) -> (c: usize)
    ensures
        c as int == votes_for(results_of(entries@), root@),
        c <= entries@.len(),
{
    let ghost rs = results_of(entries@);
    let ghost pred = root_pred(root@);
    let mut c: usize = 0;
    let mut k: usize = 0;
    proof {
        reveal_with_fuel(Seq::filter, 2);
        assert(rs.take(0int) =~= Seq::<IntervalResult>::empty());
        assert(rs.take(0int).filter(pred) =~= Seq::<IntervalResult>::empty());
    }
    while k < entries.len()
        invariant
            k <= entries@.len(),
            rs == results_of(entries@),
            pred == root_pred(root@),
            c as int == rs.take(k as int).filter(pred).len(),
            c <= k,
        decreases entries@.len() - k,
    {
        let hit = entries[k].1.merkle_root == *root;
        proof {
            assert(rs[k as int] == entries@[k as int].1);
            assert(hit == pred(rs[k as int]));
            assert(rs.take(k as int + 1).drop_last() =~= rs.take(k as int));
            assert(rs.take(k as int + 1).last() == rs[k as int]);
            reveal_with_fuel(Seq::filter, 2);
        }
        if hit {
            c += 1;
        }
        assert(c as int == rs.take(k as int + 1).filter(pred).len());
        k += 1;
    }
    proof {
        assert(rs.take(rs.len() as int) =~= rs);
    }
    c
}

/// Tallies the accumulated results and returns the index of the canonical
/// one: the result whose merkle root has the most votes, the earliest such
/// result on a tie.
fn find_winning_index(entries: &Vec<(String, IntervalResult)>) -> (best: usize)
    requires
        entries@.len() > 0,
    ensures
        best as int == winning_index(results_of(entries@)),
        best < entries@.len(),
{
    let ghost rs = results_of(entries@);
    let mut best: usize = 0;
    let mut best_votes = count_votes(entries, &entries[0].1.merkle_root);
    let mut j: usize = 1;
    proof {
        assert(rs[0int] == entries@[0int].1);
        assert(best_index(rs, 1int) == 0int);
    }
    while j < entries.len()
        invariant
            1 <= j <= entries@.len(),
            rs == results_of(entries@),
            best as int == best_index(rs, j as int),
            0 <= best < j,
            best_votes as int == votes_for(rs, rs[best as int].merkle_root@),
        decreases entries@.len() - j,
    {
        let vj = count_votes(entries, &entries[j].1.merkle_root);
        proof {
            assert(rs[j as int] == entries@[j as int].1);
        }
        if vj > best_votes {
            best = j;
            best_votes = vj;
        }
        assert(best as int == best_index(rs, j as int + 1));
        j += 1;
    }
    best
}

/// Finalizes an interval: takes its accumulated results out of the
/// aggregator, tallies the votes by merkle root, picks the canonical
/// result (most votes, first reported root on a tie) and appends one block
/// built from it.  An interval without accumulated results is an error and
/// changes nothing.
#[verifier::rlimit(50)]
pub fn finalize_consensus(
    agg: &mut ConsensusAggregator,
    ledger: &mut Ledger,
    interval_id: u64,
    now: u64,
) -> (r: Result<FinalizedBlock, ConsensusError>)
    requires
        old(agg).wf(),
        old(ledger).wf(),
    ensures
        final(agg).wf(),
        final(ledger).wf(),
        final(agg)@ == old(agg)@.remove(interval_id),
        match r {
            Err(ConsensusError::NoConsensusData) => {
                &&& !old(agg)@.dom().contains(interval_id)
                &&& final(ledger)@ == old(ledger)@
            },
            Err(_) => false,
            Ok(fb) => {
                let rs = results_of(old(agg)@[interval_id]@);
                let w = winning_index(rs);
                &&& old(agg)@.dom().contains(interval_id)
                &&& rs.len() > 0
                &&& fb.block_index == old(ledger)@.len()
                &&& fb.interval_id == interval_id
                &&& fb.winners@ == rs[w].cluster_winners@
                &&& final(ledger)@ == old(ledger)@.push(final(ledger)@.last())
                &&& final(ledger)@.last().index == old(ledger)@.len()
                &&& final(ledger)@.last().interval_id == interval_id
                &&& final(ledger)@.last().merkle_root@ == winning_root(rs)
                &&& final(ledger)@.last().winner_count as int == vstd::math::min(
                    rs[w].cluster_winners@.len() as int,
                    u32::MAX as int,
                )
                &&& final(ledger)@.last().timestamp == now
            },
        },
{
    let entries = match agg.pending.remove(&interval_id) {
        Some(v) => v,
        None => {
            proof {
                assert(agg@ =~= old(agg)@.remove(interval_id));
            }
            return Err(ConsensusError::NoConsensusData);
        },
    };
    let ghost rs = results_of(entries@);
    proof {
        assert(old(agg)@.dom().contains(interval_id));
        assert(entries == old(agg)@[interval_id]);
        assert(old(agg)@[interval_id]@.len() > 0);
    }
    let best = find_winning_index(&entries);
    let winning = &entries[best].1;
    let root_clone = winning.merkle_root.clone();
    let winners = clone_winners(&winning.cluster_winners);
    let wc: u32 = if winning.cluster_winners.len() >= u32::MAX as usize {
        u32::MAX
    } else {
        winning.cluster_winners.len() as u32
    };
    let block_index = ledger.append(interval_id, root_clone, wc, now);
    Ok(FinalizedBlock { block_index, interval_id, winners })
}

/// Accepts one collector's result for an interval.  A collector that
/// already reported the interval is refused.  While the quorum is not
/// reached the result is only recorded and the ledger stays untouched; the
/// submission that completes the quorum finalizes the interval within the
/// same call: exactly one block is appended and the interval's pending
/// entry is gone.
#[verifier::rlimit(50)]
pub fn submit_consensus(
    agg: &mut ConsensusAggregator,
    ledger: &mut Ledger,
    request: ConsensusRequest,
    now: u64,
) -> (r: Result<SubmitOutcome, ConsensusError>)
    requires
        old(agg).wf(),
        old(agg).bounded(),
        old(ledger).wf(),
    ensures
        final(agg).wf(),
        final(agg).bounded(),
        final(ledger).wf(),
        ({
            let id = request.interval_id;
            let old_entries = if old(agg)@.dom().contains(id) {
                old(agg)@[id]@
            } else {
                Seq::<(String, IntervalResult)>::empty()
            };
            let entries = old_entries.push(
                (request.edge_server_id, request.validation_result),
            );
            let rs = results_of(entries);
            match r {
                Err(ConsensusError::DuplicateCollector) => {
                    &&& has_collector(old_entries, request.edge_server_id@)
                    &&& final(agg)@ == old(agg)@
                    &&& final(ledger)@ == old(ledger)@
                },
                Err(_) => false,
                Ok(SubmitOutcome::Pending) => {
                    &&& !has_collector(old_entries, request.edge_server_id@)
                    &&& entries.len() < CONSENSUS_QUORUM as int
                    &&& final(ledger)@ == old(ledger)@
                    &&& final(agg)@.dom() == old(agg)@.dom().insert(id)
                    &&& final(agg)@[id]@ == entries
                    &&& forall|other: u64|
                        final(agg)@.dom().contains(other) && other != id
                            ==> #[trigger] final(agg)@[other] == old(agg)@[other]
                },
                Ok(SubmitOutcome::Finalized(fb)) => {
                    let w = winning_index(rs);
                    &&& !has_collector(old_entries, request.edge_server_id@)
                    &&& entries.len() == CONSENSUS_QUORUM as int
                    &&& final(agg)@ == old(agg)@.remove(id)
                    &&& fb.block_index == old(ledger)@.len()
                    &&& fb.interval_id == id
                    &&& fb.winners@ == rs[w].cluster_winners@
                    &&& final(ledger)@ == old(ledger)@.push(final(ledger)@.last())
                    &&& final(ledger)@.last().index == old(ledger)@.len()
                    &&& final(ledger)@.last().interval_id == id
                    &&& final(ledger)@.last().merkle_root@ == winning_root(rs)
                    &&& final(ledger)@.last().winner_count as int == vstd::math::min(
                        rs[w].cluster_winners@.len() as int,
                        u32::MAX as int,
                    )
                    &&& final(ledger)@.last().timestamp == now
                },
            }
        }),
{
    let id = request.interval_id;
    let mut entries = match agg.pending.remove(&id) {
        Some(v) => v,
        None => Vec::new(),
    };
    let ghost old_entries = entries@;
    let mut dup = false;
    let mut k: usize = 0;
    while k < entries.len()
        invariant
            k <= entries@.len(),
            entries@ == old_entries,
            dup ==> has_collector(old_entries, request.edge_server_id@),
            !dup ==> forall|m: int|
                0 <= m < k ==> (#[trigger] old_entries[m]).0@ != request.edge_server_id@,
        decreases entries@.len() - k,
    {
        if entries[k].0 == request.edge_server_id {
            dup = true;
            proof {
                assert(old_entries[k as int].0@ == request.edge_server_id@);
            }
        }
        k += 1;
    }
    proof {
        if !dup && has_collector(old_entries, request.edge_server_id@) {
            let witness = choose|m: int|
                0 <= m < old_entries.len() && (#[trigger] old_entries[m]).0@
                    == request.edge_server_id@;
            assert(false);
        }
    }
    if dup {
        proof {
            if !old(agg)@.dom().contains(id) {
                assert(old_entries.len() == 0);
                assert(!has_collector(old_entries, request.edge_server_id@));
            }
        }
        agg.pending.insert(id, entries);
        proof {
            assert(agg@ =~= old(agg)@);
        }
        return Err(ConsensusError::DuplicateCollector);
    }
    entries.push((request.edge_server_id, request.validation_result));
    let ghost pushed = entries@;
    let reached = entries.len() >= CONSENSUS_QUORUM;
    agg.pending.insert(id, entries);
    proof {
        let mid = agg@;
        assert(mid[id]@ == pushed);
        if old(agg)@.dom().contains(id) {
            assert(old(agg)@[id]@ == old_entries);
            assert(entries_ok(old_entries));
        } else {
            assert(old_entries.len() == 0);
        }
        lemma_entries_ok_push(
            old_entries,
            (request.edge_server_id, request.validation_result),
        );
        assert forall|other: u64| mid.dom().contains(other) implies entries_ok(
            (#[trigger] mid[other])@,
        ) by {
            if other != id {
                assert(mid[other] == old(agg)@[other]);
            }
        }
        assert(agg.wf());
    }
    if reached {
        match finalize_consensus(agg, ledger, id, now) {
            Ok(fb) => {
                proof {
                    assert(agg@ =~= old(agg)@.remove(id));
                }
                Ok(SubmitOutcome::Finalized(fb))
            },
            Err(e) => Err(e),
        }
    } else {
        proof {
            assert(agg@.dom() =~= old(agg)@.dom().insert(id));
        }
        Ok(SubmitOutcome::Pending)
    }
}

} // verus!
