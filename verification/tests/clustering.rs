use bikera_core::cluster::{select_cluster_winners, ClusterWinner, CompactSubmission};
use bikera_core::merkle::{cluster, compute_merkle_root};

fn sub(uid: u32, lat: i32, lon: i32, t: u64) -> CompactSubmission {
    CompactSubmission { uid, lat, lon, t }
}

#[test]
fn two_members_in_one_cell_elect_exactly_one_winner() {
    let subs = vec![
        sub(1, 10_000_000, 10_000_000, 0),
        sub(2, 10_000_100, 10_000_050, 0),
    ];
    let winners = select_cluster_winners(&subs);
    assert_eq!(winners.len(), 1);
    assert_eq!(winners[0].uid, 1);
    assert_eq!(winners[0].cluster_center, (10_000, 10_000));
    assert_eq!(winners[0].participants, 2);
}

#[test]
fn concrete_scenario_has_reproducible_root() {
    let subs = vec![
        sub(1, 10_000_000, 10_000_000, 0),
        sub(2, 10_000_100, 10_000_050, 0),
    ];
    let (winners, root) = cluster(&subs);
    assert_eq!(winners.len(), 1);
    assert_eq!(winners[0].participants, 2);
    assert_eq!(
        root,
        "1f8a27f69ea42f21a5b2598f3de4102f3fe2ea93efe7f50ec265a720b39b6d17"
    );
}

#[test]
fn out_of_bounds_latitude_is_excluded() {
    // 90_000_001 microdegrees is north of the pole: the pair would form a
    // cluster, but both members are rejected before clustering.
    let subs = vec![sub(1, 90_000_001, 0, 0), sub(2, 90_000_001, 0, 0)];
    let winners = select_cluster_winners(&subs);
    assert_eq!(winners.len(), 0);

    // At exactly 90_000_000 the pair is valid and elects one winner.
    let subs = vec![sub(1, 90_000_000, 0, 0), sub(2, 90_000_000, 0, 0)];
    let winners = select_cluster_winners(&subs);
    assert_eq!(winners.len(), 1);
}

#[test]
fn out_of_bounds_longitude_is_excluded() {
    let subs = vec![sub(1, 0, -180_000_001, 0), sub(2, 0, -180_000_001, 0)];
    assert_eq!(select_cluster_winners(&subs).len(), 0);
    let subs = vec![sub(1, 0, -180_000_000, 0), sub(2, 0, -180_000_000, 0)];
    assert_eq!(select_cluster_winners(&subs).len(), 1);
}

#[test]
fn single_member_cell_elects_no_winner() {
    let subs = vec![sub(1, 10_000_000, 10_000_000, 0)];
    let winners = select_cluster_winners(&subs);
    assert_eq!(winners.len(), 0);

    // A lone member far from a populated cell stays without a winner while
    // the populated cell elects one.
    let subs = vec![
        sub(1, 0, 0, 0),
        sub(2, 50, 70, 0),
        sub(3, 40_000_000, -3_000_000, 0),
    ];
    let winners = select_cluster_winners(&subs);
    assert_eq!(winners.len(), 1);
    assert_eq!(winners[0].cluster_center, (0, 0));
    assert_eq!(winners[0].participants, 2);
}

#[test]
fn clustering_is_permutation_invariant() {
    let base = vec![
        sub(7, 10_000_000, 10_000_000, 3),
        sub(1, 10_000_900, 10_000_900, 1),
        sub(9, -5_000_000, 2_000_000, 2),
        sub(4, -5_000_500, 2_000_500, 8),
        sub(2, 90_000_001, 0, 0),
        sub(5, 33_000_000, 33_000_000, 5),
    ];
    let (winners, root) = cluster(&base);

    let mut shuffled = vec![base[4], base[2], base[0], base[5], base[3], base[1]];
    let (w2, r2) = cluster(&shuffled);
    assert_eq!(winners, w2);
    assert_eq!(root, r2);

    shuffled.reverse();
    let (w3, r3) = cluster(&shuffled);
    assert_eq!(winners, w3);
    assert_eq!(root, r3);
}

#[test]
fn winners_are_capped_at_one_hundred() {
    // 150 qualifying cells of two members each.
    let mut subs = Vec::new();
    for i in 0..150i32 {
        subs.push(sub((i * 2) as u32, i * 1000, 0, 0));
        subs.push(sub((i * 2 + 1) as u32, i * 1000 + 500, 0, 0));
    }
    let winners = select_cluster_winners(&subs);
    assert_eq!(winners.len(), 100);
    // Cells are visited in cell order, so the first hundred cells win.
    for (k, w) in winners.iter().enumerate() {
        assert_eq!(w.cluster_center, (k as i32, 0));
        assert_eq!(w.participants, 2);
    }
}

#[test]
fn negative_coordinates_use_truncated_cells_and_euclidean_offsets() {
    // Both members land in cell (-1, 0); the winner offset is the
    // Euclidean remainder (-1 + 0) mod 2 == 1, the second member in
    // canonical (user id) order.
    let subs = vec![sub(1, -1500, 0, 0), sub(2, -1999, 0, 0)];
    let winners = select_cluster_winners(&subs);
    assert_eq!(winners.len(), 1);
    assert_eq!(winners[0].cluster_center, (-1, 0));
    assert_eq!(winners[0].uid, 2);
}

#[test]
fn empty_winner_list_gets_sentinel_root() {
    let (winners, root) = cluster(&Vec::new());
    assert_eq!(winners.len(), 0);
    assert_eq!(root, "empty");
}

#[test]
fn winner_serialisation_is_pinned() {
    let winners = vec![
        ClusterWinner {
            uid: 1,
            cluster_center: (10_000, 10_000),
            participants: 2,
        },
        ClusterWinner {
            uid: 3,
            cluster_center: (-5, 7),
            participants: 3,
        },
    ];
    assert_eq!(
        compute_merkle_root(&winners),
        "737267b796bf06af2a5652dde0371f13e0e10a95d1b8fffd5bbaab899e5c2d9c"
    );
}
