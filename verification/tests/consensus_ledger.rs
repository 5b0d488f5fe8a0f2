use bikera_core::cluster::ClusterWinner;
use bikera_core::consensus::{
    finalize_consensus, submit_consensus, ConsensusAggregator, ConsensusError, ConsensusRequest,
    SubmitOutcome,
};
use bikera_core::ledger::Ledger;
use bikera_core::validator::IntervalResult;

fn result_with_root(interval_id: u64, root: &str) -> IntervalResult {
    IntervalResult {
        valid: true,
        interval_id,
        merkle_root: root.to_string(),
        cluster_winners: vec![ClusterWinner {
            uid: 1,
            cluster_center: (3, 4),
            participants: 2,
        }],
        valid_submissions: 2,
    }
}

fn request(interval_id: u64, root: &str, collector: &str) -> ConsensusRequest {
    ConsensusRequest {
        interval_id,
        validation_result: result_with_root(interval_id, root),
        edge_server_id: collector.to_string(),
    }
}

#[test]
fn first_submission_is_pending_and_second_finalizes() {
    let mut agg = ConsensusAggregator::new();
    let mut ledger = Ledger::new();

    let r1 = submit_consensus(&mut agg, &mut ledger, request(5, "aaa", "edge-a"), 100).unwrap();
    assert!(matches!(r1, SubmitOutcome::Pending));
    assert_eq!(ledger.len(), 0);

    let r2 = submit_consensus(&mut agg, &mut ledger, request(5, "aaa", "edge-b"), 200).unwrap();
    match r2 {
        SubmitOutcome::Finalized(fb) => {
            assert_eq!(fb.block_index, 0);
            assert_eq!(fb.interval_id, 5);
            assert_eq!(fb.winners.len(), 1);
        }
        SubmitOutcome::Pending => panic!("quorum of two must finalize"),
    }
    assert_eq!(ledger.len(), 1);

    let blocks = ledger.get_blockchain(0, 10);
    assert_eq!(blocks.len(), 1);
    assert_eq!(blocks[0].index, 0);
    assert_eq!(blocks[0].interval_id, 5);
    assert_eq!(blocks[0].merkle_root, "aaa");
    assert_eq!(blocks[0].winner_count, 1);
    assert_eq!(blocks[0].timestamp, 200);
    assert_eq!(blocks[0].previous_hash, "0");
}

#[test]
fn tie_between_roots_goes_to_the_first_inserted() {
    let mut agg = ConsensusAggregator::new();
    let mut ledger = Ledger::new();

    submit_consensus(&mut agg, &mut ledger, request(9, "aaa", "edge-a"), 1).unwrap();
    let out = submit_consensus(&mut agg, &mut ledger, request(9, "bbb", "edge-b"), 2).unwrap();
    assert!(matches!(out, SubmitOutcome::Finalized(_)));

    let blocks = ledger.get_blockchain(0, 10);
    assert_eq!(blocks.len(), 1);
    assert_eq!(blocks[0].merkle_root, "aaa");
}

#[test]
fn ledger_indices_match_positions_after_many_finalizations() {
    let mut agg = ConsensusAggregator::new();
    let mut ledger = Ledger::new();

    for interval in 0..4u64 {
        submit_consensus(&mut agg, &mut ledger, request(interval, "r", "edge-a"), interval).unwrap();
        submit_consensus(&mut agg, &mut ledger, request(interval, "r", "edge-b"), interval).unwrap();
    }
    assert_eq!(ledger.len(), 4);
    let blocks = ledger.get_blockchain(0, 100);
    assert_eq!(blocks.len(), 4);
    for (i, b) in blocks.iter().enumerate() {
        assert_eq!(b.index, i as u64);
    }
    // The chain threads each block's hash into its successor.
    for i in 1..blocks.len() {
        assert_eq!(blocks[i].previous_hash, blocks[i - 1].hash);
    }
    assert_eq!(blocks[0].previous_hash, "0");
}

#[test]
fn duplicate_collector_is_refused() {
    let mut agg = ConsensusAggregator::new();
    let mut ledger = Ledger::new();

    submit_consensus(&mut agg, &mut ledger, request(3, "aaa", "edge-a"), 1).unwrap();
    let again = submit_consensus(&mut agg, &mut ledger, request(3, "bbb", "edge-a"), 2);
    assert!(matches!(again, Err(ConsensusError::DuplicateCollector)));
    assert_eq!(ledger.len(), 0);

    // A different collector still completes the quorum.
    let done = submit_consensus(&mut agg, &mut ledger, request(3, "aaa", "edge-b"), 3).unwrap();
    assert!(matches!(done, SubmitOutcome::Finalized(_)));
}

#[test]
fn finalizing_without_data_is_an_error() {
    let mut agg = ConsensusAggregator::new();
    let mut ledger = Ledger::new();
    let r = finalize_consensus(&mut agg, &mut ledger, 42, 0);
    assert!(matches!(r, Err(ConsensusError::NoConsensusData)));
    assert_eq!(ledger.len(), 0);
}

#[test]
fn block_hash_is_pinned() {
    let mut ledger = Ledger::new();
    let idx = ledger.append(7, "empty".to_string(), 0, 5);
    assert_eq!(idx, 0);
    let blocks = ledger.get_blockchain(0, 1);
    assert_eq!(
        blocks[0].hash,
        "56c1f98046c4886e9e0696e30d6af418ba529bedede4dd68b88f9b447062436c"
    );
}

#[test]
fn get_blockchain_clamps_out_of_range_requests() {
    let mut ledger = Ledger::new();
    for i in 0..3u64 {
        ledger.append(i, "r".to_string(), 0, i);
    }
    assert_eq!(ledger.get_blockchain(0, 3).len(), 3);
    assert_eq!(ledger.get_blockchain(1, 5).len(), 2);
    assert_eq!(ledger.get_blockchain(10, 5).len(), 0);
    assert_eq!(ledger.get_blockchain(2, 0).len(), 0);
    assert_eq!(ledger.get_blockchain(u64::MAX, u64::MAX).len(), 0);
}

#[test]
fn get_latest_blocks_returns_newest_oldest_first() {
    let mut ledger = Ledger::new();
    for i in 0..5u64 {
        ledger.append(i, "r".to_string(), 0, i);
    }
    let last2 = ledger.get_latest_blocks(2);
    assert_eq!(last2.len(), 2);
    assert_eq!(last2[0].index, 3);
    assert_eq!(last2[1].index, 4);
    let all = ledger.get_latest_blocks(50);
    assert_eq!(all.len(), 5);
    assert_eq!(all[0].index, 0);
}
