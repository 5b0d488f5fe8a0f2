//! Batch validation: authenticity, time windows and clustering.
//!
//! A collector hands in a batch of intervals, each with its submissions,
//! authenticated by an HMAC over a canonical serialisation of the batch.
//! For every interval the validator drops the submissions outside the
//! interval's time window, clusters the rest and summarises the winners in
//! a merkle root; a batch whose signature does not verify yields results
//! that are marked invalid and carry empty fields, never a failure.

use vstd::prelude::*;

use crate::cluster::{
    valid_submission, winners_of, ClusterWinner, CompactSubmission,
};
use crate::codec::{i32_be, push_i32_be, push_u32_be, push_u64_be, u32_be, u64_be};
use crate::hashing::{hex_encode, hex_of, hmac_sha256, hmac_sha256_of};
use crate::merkle::{calculate_merkle_root, merkle_root_of, root_of_winners, views};

verus! {

/// The length of one interval in milliseconds.
pub const INTERVAL_DURATION_MS: u64 = 600_000;

/// One collector's validation result for one interval.
pub struct IntervalResult {
    pub valid: bool,
    pub interval_id: u64,
    pub merkle_root: String,
    pub cluster_winners: Vec<ClusterWinner>,
    pub valid_submissions: u32,
}

impl Clone for IntervalResult {
    fn clone(&self) -> (r: IntervalResult)
        ensures
            r.valid == self.valid,
            r.interval_id == self.interval_id,
            r.merkle_root == self.merkle_root,
            r.cluster_winners@ == self.cluster_winners@,
            r.valid_submissions == self.valid_submissions,
    {
        IntervalResult {
            valid: self.valid,
            interval_id: self.interval_id,
            merkle_root: self.merkle_root.clone(),
            cluster_winners: clone_winners(&self.cluster_winners),
            valid_submissions: self.valid_submissions,
        }
    }
}

/// The older name of the per-interval result.
pub type ValidationResult = IntervalResult;

/// Copies a winner list.
pub fn clone_winners(v: &Vec<ClusterWinner>) -> (r: Vec<ClusterWinner>)
    ensures
        r@ == v@,
{
    let mut r: Vec<ClusterWinner> = Vec::new();
    let mut i: usize = 0;
    while i < v.len()
        invariant
            i <= v.len(),
            r@ == v@.take(i as int),
        decreases v.len() - i,
    {
        r.push(v[i]);
        proof {
            assert(r@ =~= v@.take(i as int + 1));
        }
        i += 1;
    }
    proof {
        assert(v@.take(v@.len() as int) =~= v@);
    }
    r
}

/// A batch of intervals to validate, authenticated as one unit.  The ids
/// and the submission lists are paired up positionally.
pub struct BatchValidationRequest {
    pub interval_ids: Vec<u64>,
    pub submissions_batch: Vec<Vec<CompactSubmission>>,
    pub signature: String,
}

/// The outcome of validating one batch.
pub struct BatchValidationResult {
    pub results: Vec<IntervalResult>,
    pub batch_merkle_root: String,
}

/// Whether a timestamp lies in the interval's half-open time window
/// `[interval_id * duration, (interval_id + 1) * duration)`.
pub open spec fn in_window(t: u64, interval_id: u64) -> bool {
    &&& interval_id * INTERVAL_DURATION_MS <= t
    &&& t < (interval_id + 1) * INTERVAL_DURATION_MS
}

/// The predicate that [`in_window`] induces on submissions.
pub open spec fn window_pred(interval_id: u64) -> spec_fn(CompactSubmission) -> bool {
    |s: CompactSubmission| in_window(s.t, interval_id)
}

/// Whether a timestamp lies in the interval's time window.
pub fn is_valid_timestamp(t: u64, interval_id: u64) -> (r: bool)
    ensures
        r == in_window(t, interval_id),
{
    let r = t / INTERVAL_DURATION_MS == interval_id;
    proof {
        vstd::arithmetic::div_mod::lemma_fundamental_div_mod(
            t as int,
            INTERVAL_DURATION_MS as int,
        );
        vstd::arithmetic::div_mod::lemma_mod_bound(t as int, INTERVAL_DURATION_MS as int);
        if in_window(t, interval_id) {
            vstd::arithmetic::div_mod::lemma_fundamental_div_mod_converse(
                t as int,
                INTERVAL_DURATION_MS as int,
                interval_id as int,
                t as int - interval_id as int * INTERVAL_DURATION_MS as int,
            );
        }
    }
    r
}

/// The canonical serialisation of one submission: user id, coordinates and
/// timestamp, big endian and fixed width.
pub open spec fn submission_bytes(s: CompactSubmission) -> Seq<u8> {
    u32_be(s.uid) + i32_be(s.lat) + i32_be(s.lon) + u64_be(s.t)
}

/// The serialisation of a submission list.
pub open spec fn subs_bytes(subs: Seq<CompactSubmission>) -> Seq<u8>
    decreases subs.len(),
{
    if subs.len() == 0 {
        Seq::empty()
    } else {
        subs_bytes(subs.drop_last()) + submission_bytes(subs.last())
    }
}

/// The serialisation of the first `n` interval/submission pairs.
pub open spec fn pairs_bytes(ids: Seq<u64>, batch: Seq<Vec<CompactSubmission>>, n: int) -> Seq<u8>
    decreases n,
{
    if n <= 0 {
        Seq::empty()
    } else {
        pairs_bytes(ids, batch, n - 1) + u64_be(ids[n - 1]) + subs_bytes(batch[n - 1]@)
    }
}

/// The canonical message over which a batch is authenticated: every paired
/// interval id followed by its submissions.
pub open spec fn batch_message(ids: Seq<u64>, batch: Seq<Vec<CompactSubmission>>) -> Seq<u8> {
    pairs_bytes(ids, batch, vstd::math::min(ids.len() as int, batch.len() as int))
}

/// Whether the batch's signature is the HMAC of its canonical message
/// under the shared key, hex encoded.
pub open spec fn signature_valid(req: &BatchValidationRequest, key: Seq<u8>) -> bool {
    req.signature@ == hex_of(
        hmac_sha256_of(key, batch_message(req.interval_ids@, req.submissions_batch@)),
    )
}

/// Computes the hex HMAC tag of a message under a key.
pub fn calculate_hmac(key: &Vec<u8>, data: &Vec<u8>) -> (r: String)
    ensures
        r@ == hex_of(hmac_sha256_of(key@, data@)),
{
    let tag = hmac_sha256(key, data);
    hex_encode(&tag)
}

/// Whether the signature is the hex HMAC of the message under any of the
/// accepted keys.
pub fn verify_signature(keys: &Vec<Vec<u8>>, message: &Vec<u8>, signature: &String) -> (r: bool)
    ensures
        r == exists|k: int|
            0 <= k < keys@.len() && signature@ == hex_of(
                hmac_sha256_of((#[trigger] keys@[k])@, message@),
            ),
{
    let mut found = false;
    let mut k: usize = 0;
    while k < keys.len()
        invariant
            k <= keys@.len(),
            found ==> exists|m: int|
                0 <= m < keys@.len() && signature@ == hex_of(
                    hmac_sha256_of((#[trigger] keys@[m])@, message@),
                ),
            !found ==> forall|m: int|
                0 <= m < k ==> signature@ != hex_of(
                    hmac_sha256_of((#[trigger] keys@[m])@, message@),
                ),
        decreases keys@.len() - k,
    {
        let expected = calculate_hmac(&keys[k], message);
        if expected == *signature {
            found = true;
            proof {
                assert(signature@ == hex_of(hmac_sha256_of(keys@[k as int]@, message@)));
            }
        }
        k += 1;
    }
    found
}

/// Serialises a batch into its canonical message: what a collector signs.
pub fn batch_message_bytes(ids: &Vec<u64>, batch: &Vec<Vec<CompactSubmission>>) -> (m: Vec<u8>)
    ensures
        m@ == batch_message(ids@, batch@),
{
    let npairs = if ids.len() < batch.len() {
        ids.len()
    } else {
        batch.len()
    };
    let mut m: Vec<u8> = Vec::new();
    let mut i: usize = 0;
    assert(m@ =~= pairs_bytes(ids@, batch@, 0int));
    while i < npairs
        invariant
            i <= npairs,
            npairs == vstd::math::min(ids@.len() as int, batch@.len() as int),
            m@ == pairs_bytes(ids@, batch@, i as int),
        decreases npairs - i,
    {
        push_u64_be(&mut m, ids[i]);
        let subs = &batch[i];
        let ghost before = m@;
        let mut j: usize = 0;
        assert(m@ =~= before + subs_bytes(subs@.take(0int)));
        while j < subs.len()
            invariant
                j <= subs@.len(),
                subs@ == batch@[i as int]@,
                m@ == before + subs_bytes(subs@.take(j as int)),
            decreases subs@.len() - j,
        {
            let s = subs[j];
            push_u32_be(&mut m, s.uid);
            push_i32_be(&mut m, s.lat);
            push_i32_be(&mut m, s.lon);
            push_u64_be(&mut m, s.t);
            proof {
                assert(subs@.take(j as int + 1).drop_last() =~= subs@.take(j as int));
                assert(subs@.take(j as int + 1).last() == s);
                assert(m@ =~= before + (subs_bytes(subs@.take(j as int)) + submission_bytes(s)));
            }
            j += 1;
        }
        proof {
            assert(subs@.take(subs@.len() as int) =~= subs@);
            assert(m@ =~= pairs_bytes(ids@, batch@, i as int + 1));
        }
        i += 1;
    }
    m
}

/// The winners that one interval's submissions elect, after the window
/// filter.
pub open spec fn interval_winners(interval_id: u64, subs: Seq<CompactSubmission>) -> Seq<
    ClusterWinner,
> {
    winners_of(subs.filter(window_pred(interval_id)))
}

/// The number of submissions of one interval that survive both the window
/// and the location filter.
pub open spec fn interval_valid_count(interval_id: u64, subs: Seq<CompactSubmission>) -> int {
    subs.filter(window_pred(interval_id)).filter(valid_submission()).len() as int
}

/// What a correct validation result for one interval looks like.
pub open spec fn result_matches(
    r: IntervalResult,
    interval_id: u64,
    subs: Seq<CompactSubmission>,
) -> bool {
    &&& r.interval_id == interval_id
    &&& r.cluster_winners@ == interval_winners(interval_id, subs)
    &&& r.merkle_root@ == root_of_winners(interval_winners(interval_id, subs))
    &&& r.valid == (interval_winners(interval_id, subs).len() > 0)
    &&& r.valid_submissions as int == vstd::math::min(
        interval_valid_count(interval_id, subs),
        u32::MAX as int,
    )
}

/// What the result of an unauthenticated batch looks like: marked invalid,
/// with empty fields.
pub open spec fn result_invalid(r: IntervalResult, interval_id: u64) -> bool {
    &&& r.interval_id == interval_id
    &&& !r.valid
    &&& r.merkle_root@ == Seq::<char>::empty()
    &&& r.cluster_winners@ == Seq::<ClusterWinner>::empty()
    &&& r.valid_submissions == 0
}

/// The merkle roots of a result list.
pub open spec fn roots_of(results: Seq<IntervalResult>) -> Seq<Seq<char>> {
    results.map_values(|r: IntervalResult| r.merkle_root@)
}

/// Validates one interval: drops the submissions outside the interval's
/// window, clusters the rest, and reports the winners, their merkle root
/// and the surviving submission count.  Read-only and deterministic.
pub fn validate_interval(interval_id: u64, submissions: &Vec<CompactSubmission>) -> (r:
    IntervalResult)
    ensures
        result_matches(r, interval_id, submissions@),
{
    let ghost wpred = window_pred(interval_id);
    let mut windowed: Vec<CompactSubmission> = Vec::new();
    let mut i: usize = 0;
    proof {
        reveal_with_fuel(Seq::filter, 2);
        assert(submissions@.take(0int) =~= Seq::<CompactSubmission>::empty());
        assert(submissions@.take(0int).filter(wpred) =~= Seq::<CompactSubmission>::empty());
    }
    while i < submissions.len()
        invariant
            i <= submissions@.len(),
            wpred == window_pred(interval_id),
            windowed@ == submissions@.take(i as int).filter(wpred),
        decreases submissions@.len() - i,
    {
        let s = submissions[i];
        let ok = is_valid_timestamp(s.t, interval_id);
        proof {
            assert(ok == wpred(s));
            assert(submissions@.take(i as int + 1).drop_last() =~= submissions@.take(i as int));
            assert(submissions@.take(i as int + 1).last() == s);
            reveal_with_fuel(Seq::filter, 2);
        }
        if ok {
            windowed.push(s);
        }
        assert(windowed@ == submissions@.take(i as int + 1).filter(wpred));
        i += 1;
    }
    proof {
        assert(submissions@.take(submissions@.len() as int) =~= submissions@);
    }
    let (winners, root) = crate::merkle::cluster(&windowed);
    let ghost vpred = valid_submission();
    let mut vc: usize = 0;
    let mut j: usize = 0;
    proof {
        reveal_with_fuel(Seq::filter, 2);
        assert(windowed@.take(0int) =~= Seq::<CompactSubmission>::empty());
        assert(windowed@.take(0int).filter(vpred) =~= Seq::<CompactSubmission>::empty());
    }
    while j < windowed.len()
        invariant
            j <= windowed@.len(),
            vpred == valid_submission(),
            vc as int == windowed@.take(j as int).filter(vpred).len(),
            vc <= j,
        decreases windowed@.len() - j,
    {
        let s = windowed[j];
        let ok = crate::cluster::is_valid_location(s.lat, s.lon);
        proof {
            assert(ok == vpred(s));
            assert(windowed@.take(j as int + 1).drop_last() =~= windowed@.take(j as int));
            assert(windowed@.take(j as int + 1).last() == s);
            reveal_with_fuel(Seq::filter, 2);
        }
        if ok {
            vc += 1;
        }
        assert(vc as int == windowed@.take(j as int + 1).filter(vpred).len());
        j += 1;
    }
    proof {
        assert(windowed@.take(windowed@.len() as int) =~= windowed@);
    }
    let valid_submissions: u32 = if vc >= u32::MAX as usize {
        u32::MAX
    } else {
        vc as u32
    };
    let valid = winners.len() > 0;
    IntervalResult { valid, interval_id, merkle_root: root, cluster_winners: winners,
    valid_submissions }
}

/// Validates one batch.  The signature is checked first: a batch that does
/// not authenticate yields one invalid, empty result per paired interval
/// and an empty batch root, never a failure.  An authenticated batch gets
/// one full validation result per paired interval and a pairwise merkle
/// root over the interval roots.
pub fn validate_batch(request: &BatchValidationRequest, key: &Vec<u8>) -> (r:
    BatchValidationResult)
    ensures
        r.results@.len() == vstd::math::min(
            request.interval_ids@.len() as int,
            request.submissions_batch@.len() as int,
        ),
        signature_valid(request, key@) ==> forall|i: int|
            0 <= i < r.results@.len() ==> result_matches(
                #[trigger] r.results@[i],
                request.interval_ids@[i],
                request.submissions_batch@[i]@,
            ),
        signature_valid(request, key@) ==> r.batch_merkle_root@ == merkle_root_of(
            roots_of(r.results@),
        ),
        !signature_valid(request, key@) ==> forall|i: int|
            0 <= i < r.results@.len() ==> result_invalid(
                #[trigger] r.results@[i],
                request.interval_ids@[i],
            ),
        !signature_valid(request, key@) ==> r.batch_merkle_root@ == Seq::<char>::empty(),
{
    let msg = batch_message_bytes(&request.interval_ids, &request.submissions_batch);
    let expected = calculate_hmac(key, &msg);
    let sig_ok = expected == request.signature;
    let npairs = if request.interval_ids.len() < request.submissions_batch.len() {
        request.interval_ids.len()
    } else {
        request.submissions_batch.len()
    };
    let mut results: Vec<IntervalResult> = Vec::new();
    let mut i: usize = 0;
    if sig_ok {
        while i < npairs
            invariant
                i <= npairs,
                npairs == vstd::math::min(
                    request.interval_ids@.len() as int,
                    request.submissions_batch@.len() as int,
                ),
                results@.len() == i,
                forall|j: int|
                    0 <= j < i ==> result_matches(
                        #[trigger] results@[j],
                        request.interval_ids@[j],
                        request.submissions_batch@[j]@,
                    ),
            decreases npairs - i,
        {
            let res = validate_interval(
                request.interval_ids[i],
                &request.submissions_batch[i],
            );
            results.push(res);
            i += 1;
        }
        let mut roots: Vec<String> = Vec::new();
        let mut j: usize = 0;
        assert(views(roots@) =~= roots_of(results@).take(0int));
        while j < results.len()
            invariant
                j <= results@.len(),
                roots@.len() == j,
                views(roots@) == roots_of(results@).take(j as int),
            decreases results@.len() - j,
        {
            let root = results[j].merkle_root.clone();
            roots.push(root);
            proof {
                assert(views(roots@) =~= roots_of(results@).take(j as int + 1));
            }
            j += 1;
        }
        proof {
            assert(roots_of(results@).take(results@.len() as int) =~= roots_of(results@));
        }
        let batch_merkle_root = calculate_merkle_root(&roots);
        BatchValidationResult { results, batch_merkle_root }
    } else {
        while i < npairs
            invariant
                i <= npairs,
                npairs <= request.interval_ids@.len(),
                results@.len() == i,
                forall|j: int|
                    0 <= j < i ==> result_invalid(
                        #[trigger] results@[j],
                        request.interval_ids@[j],
                    ),
            decreases npairs - i,
        {
            let res = IntervalResult {
                valid: false,
                interval_id: request.interval_ids[i],
                merkle_root: String::new(),
                cluster_winners: Vec::new(),
                valid_submissions: 0,
            };
            results.push(res);
            i += 1;
        }
        BatchValidationResult { results, batch_merkle_root: String::new() }
    }
}

} // verus!
