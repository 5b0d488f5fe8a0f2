use bikera_core::cluster::CompactSubmission;
use bikera_core::merkle::calculate_merkle_root;
use bikera_core::validator::{
    batch_message_bytes, calculate_hmac, is_valid_timestamp, validate_batch, validate_interval,
    verify_signature, BatchValidationRequest,
};

fn sub(uid: u32, lat: i32, lon: i32, t: u64) -> CompactSubmission {
    CompactSubmission { uid, lat, lon, t }
}

#[test]
fn hmac_tag_is_pinned() {
    let key = b"secret".to_vec();
    let data = b"hello".to_vec();
    assert_eq!(
        calculate_hmac(&key, &data),
        "88aab3ede8d3adf94d26ab90d3bafd4a2083070c3bcce9c014ee04a443847c0b"
    );
}

#[test]
fn any_accepted_key_verifies_a_signature() {
    let message = b"hello".to_vec();
    let signature =
        "88aab3ede8d3adf94d26ab90d3bafd4a2083070c3bcce9c014ee04a443847c0b".to_string();
    let keys = vec![b"other".to_vec(), b"secret".to_vec()];
    assert!(verify_signature(&keys, &message, &signature));
    let wrong_keys = vec![b"other".to_vec()];
    assert!(!verify_signature(&wrong_keys, &message, &signature));
    assert!(!verify_signature(&Vec::new(), &message, &signature));
}

#[test]
fn merkle_tree_roots_are_pinned() {
    assert_eq!(calculate_merkle_root(&Vec::new()), "");
    assert_eq!(calculate_merkle_root(&vec!["z".to_string()]), "z");
    assert_eq!(
        calculate_merkle_root(&vec!["a".to_string(), "b".to_string()]),
        "fb8e20fc2e4c3f248c60c39bd652f3c1347298bb977b8b4d5903b85055620603"
    );
    // An odd leaf is paired with itself.
    assert_eq!(
        calculate_merkle_root(&vec!["a".to_string(), "b".to_string(), "c".to_string()]),
        "5c700ad7ee9dc104f1a6e92da5a3a76f73d62b0d1c86a205eace21ed914dcdbf"
    );
}

#[test]
fn timestamps_outside_the_window_are_dropped() {
    assert!(is_valid_timestamp(0, 0));
    assert!(is_valid_timestamp(599_999, 0));
    assert!(!is_valid_timestamp(600_000, 0));
    assert!(is_valid_timestamp(600_000, 1));
    assert!(is_valid_timestamp(1_199_999, 1));
    assert!(!is_valid_timestamp(1_200_000, 1));

    // Submissions from the wrong interval never reach clustering.
    let subs = vec![sub(1, 0, 0, 0), sub(2, 100, 100, 0)];
    let r = validate_interval(1, &subs);
    assert!(!r.valid);
    assert_eq!(r.valid_submissions, 0);
    assert_eq!(r.cluster_winners.len(), 0);
    assert_eq!(r.merkle_root, "empty");
}

#[test]
fn validate_interval_reports_winners_and_counts() {
    let subs = vec![
        sub(1, 10_000_000, 10_000_000, 10),
        sub(2, 10_000_100, 10_000_050, 20),
        sub(3, 90_000_001, 0, 30),
    ];
    let r = validate_interval(0, &subs);
    assert!(r.valid);
    assert_eq!(r.interval_id, 0);
    assert_eq!(r.valid_submissions, 2);
    assert_eq!(r.cluster_winners.len(), 1);
    assert_eq!(r.cluster_winners[0].uid, 1);
}

#[test]
fn authenticated_batch_is_validated() {
    let ids = vec![0u64];
    let batch = vec![vec![
        sub(1, 10_000_000, 10_000_000, 0),
        sub(2, 10_000_100, 10_000_050, 0),
    ]];
    let key = b"shared-key".to_vec();
    let message = batch_message_bytes(&ids, &batch);
    let signature = calculate_hmac(&key, &message);
    assert_eq!(
        signature,
        "279502bc4b056c42800daa1fabc3830d688a182b93f6c91c92a531ed438334a2"
    );
    let request = BatchValidationRequest {
        interval_ids: ids,
        submissions_batch: batch,
        signature,
    };
    let out = validate_batch(&request, &key);
    assert_eq!(out.results.len(), 1);
    let r = &out.results[0];
    assert!(r.valid);
    assert_eq!(r.interval_id, 0);
    assert_eq!(r.valid_submissions, 2);
    assert_eq!(r.cluster_winners.len(), 1);
    assert_eq!(
        r.merkle_root,
        "1f8a27f69ea42f21a5b2598f3de4102f3fe2ea93efe7f50ec265a720b39b6d17"
    );
    // One leaf: the batch root is the interval root itself.
    assert_eq!(out.batch_merkle_root, r.merkle_root);
}

#[test]
fn unauthenticated_batch_degrades_to_invalid_results() {
    let ids = vec![0u64, 1u64];
    let batch = vec![
        vec![sub(1, 0, 0, 0), sub(2, 10, 10, 0)],
        vec![sub(3, 0, 0, 600_000)],
    ];
    let key = b"shared-key".to_vec();
    let request = BatchValidationRequest {
        interval_ids: ids,
        submissions_batch: batch,
        signature: "forged".to_string(),
    };
    let out = validate_batch(&request, &key);
    assert_eq!(out.results.len(), 2);
    for (i, r) in out.results.iter().enumerate() {
        assert!(!r.valid);
        assert_eq!(r.interval_id, i as u64);
        assert_eq!(r.merkle_root, "");
        assert_eq!(r.cluster_winners.len(), 0);
        assert_eq!(r.valid_submissions, 0);
    }
    assert_eq!(out.batch_merkle_root, "");
}

#[test]
fn batch_root_combines_interval_roots_pairwise() {
    let ids = vec![0u64, 1u64];
    let batch = vec![
        vec![sub(1, 0, 0, 0), sub(2, 100, 100, 0)],
        vec![
            sub(3, 5_000_000, 5_000_000, 600_000),
            sub(4, 5_000_100, 5_000_100, 600_500),
        ],
    ];
    let key = b"shared-key".to_vec();
    let message = batch_message_bytes(&ids, &batch);
    let signature = calculate_hmac(&key, &message);
    assert_eq!(
        signature,
        "c001b62e69896bf9f14eba34a2508b537bc860b0742430e6e879637ad82180bd"
    );
    let request = BatchValidationRequest {
        interval_ids: ids,
        submissions_batch: batch,
        signature,
    };
    let out = validate_batch(&request, &key);
    assert_eq!(out.results.len(), 2);
    assert_eq!(
        out.results[0].merkle_root,
        "38405d44ac70dd83834c1ecca218e807a1cfc2f1dbf67ab694c46faf54b9efff"
    );
    assert_eq!(
        out.results[1].merkle_root,
        "87791e5ef0ff54e13f029a75b9cb4113380367113f58689bdc506b3b3fea59ea"
    );
    assert_eq!(
        out.batch_merkle_root,
        "971ed000e96969209e3f16c959a50aa3023a38b919115de021a4101ccfce8a49"
    );
}

#[test]
fn unpaired_intervals_are_ignored() {
    // Three ids but two submission lists: only the paired prefix counts.
    let ids = vec![0u64, 1u64, 2u64];
    let batch = vec![Vec::new(), Vec::new()];
    let key = b"k".to_vec();
    let message = batch_message_bytes(&ids, &batch);
    let signature = calculate_hmac(&key, &message);
    let request = BatchValidationRequest {
        interval_ids: ids,
        submissions_batch: batch,
        signature,
    };
    let out = validate_batch(&request, &key);
    assert_eq!(out.results.len(), 2);
}
