use bikera_core::cluster::ClusterWinner;
use bikera_core::rewards::{calculate_reward, RewardError, RewardStore};

fn winner(uid: u32, participants: u8) -> ClusterWinner {
    ClusterWinner {
        uid,
        cluster_center: (0, 0),
        participants,
    }
}

#[test]
fn reward_tiers_are_exact() {
    assert_eq!(calculate_reward(2), 100);
    assert_eq!(calculate_reward(5), 100);
    assert_eq!(calculate_reward(6), 200);
    assert_eq!(calculate_reward(10), 200);
    assert_eq!(calculate_reward(11), 500);
    assert_eq!(calculate_reward(20), 500);
    assert_eq!(calculate_reward(21), 1000);
    assert_eq!(calculate_reward(255), 1000);
    assert_eq!(calculate_reward(0), 1000);
    assert_eq!(calculate_reward(1), 1000);
}

#[test]
fn distribution_accrues_per_user() {
    let mut store = RewardStore::new();
    let winners = vec![winner(1, 2), winner(1, 6), winner(2, 21)];
    let updated = store.distribute_rewards(7, &winners);
    assert_eq!(updated, 3);

    let u1 = store.get_user_rewards(1).unwrap();
    assert_eq!(u1.total_rewards, 300);
    assert_eq!(u1.pending_rewards, 300);
    assert_eq!(u1.last_claim, 0);
    assert!(u1.principal.is_none());

    let u2 = store.get_user_rewards(2).unwrap();
    assert_eq!(u2.total_rewards, 1000);

    assert!(store.get_user_rewards(9).is_none());
    assert_eq!(store.get_total_rewards(), 1300);
}

#[test]
fn update_user_rewards_upserts() {
    let mut store = RewardStore::new();
    store.update_user_rewards(5, 10);
    store.update_user_rewards(5, 32);
    let u = store.get_user_rewards(5).unwrap();
    assert_eq!(u.total_rewards, 42);
    assert_eq!(u.pending_rewards, 42);
}

#[test]
fn balances_saturate_instead_of_wrapping() {
    let mut store = RewardStore::new();
    store.update_user_rewards(1, u64::MAX - 5);
    store.update_user_rewards(1, 100);
    let u = store.get_user_rewards(1).unwrap();
    assert_eq!(u.total_rewards, u64::MAX);
    assert_eq!(u.pending_rewards, u64::MAX);
}

#[test]
fn claim_pays_out_and_links_the_principal() {
    let mut store = RewardStore::new();
    store.distribute_rewards(7, &vec![winner(1, 2), winner(1, 6)]);

    let alice = "alice".to_string();
    let amount = store.claim_rewards(1, &alice, 42).unwrap();
    assert_eq!(amount, 300);

    let u = store.get_user_rewards(1).unwrap();
    assert_eq!(u.pending_rewards, 0);
    assert_eq!(u.total_rewards, 300);
    assert_eq!(u.last_claim, 42);
    assert_eq!(u.principal.as_deref(), Some("alice"));
}

#[test]
fn claim_errors_are_precise() {
    let mut store = RewardStore::new();
    let alice = "alice".to_string();
    let bob = "bob".to_string();

    // Unknown user.
    assert_eq!(
        store.claim_rewards(1, &alice, 1),
        Err(RewardError::UserNotFound)
    );

    store.distribute_rewards(7, &vec![winner(1, 2)]);
    assert_eq!(store.claim_rewards(1, &alice, 2), Ok(100));

    // Nothing pending after a successful claim.
    assert_eq!(
        store.claim_rewards(1, &alice, 3),
        Err(RewardError::NoPendingRewards)
    );

    // New rewards arrive, but a different principal may not claim them.
    store.distribute_rewards(8, &vec![winner(1, 2)]);
    assert_eq!(
        store.claim_rewards(1, &bob, 4),
        Err(RewardError::PrincipalMismatch)
    );
    assert_eq!(store.claim_rewards(1, &alice, 5), Ok(100));
}
