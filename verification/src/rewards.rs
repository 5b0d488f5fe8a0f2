//! The reward store: accrual for cluster winners and claims by users.
//!
//! Every finalized winner earns a reward that grows with the cluster's
//! member count.  Rewards accrue per user id; a user claims the pending
//! amount under a caller principal that is linked on first claim and must
//! match afterwards.  All balance arithmetic saturates at the type's
//! maximum instead of wrapping.

use vstd::prelude::*;

use crate::cluster::ClusterWinner;

verus! {

/// One user's reward account.
pub struct UserRewards {
    pub user_id: u32,
    pub total_rewards: u64,
    pub pending_rewards: u64,
    pub last_claim: u64,
    pub principal: Option<String>,
}

impl Clone for UserRewards {
    fn clone(&self) -> (r: UserRewards)
        ensures
            r == *self,
    {
        UserRewards {
            user_id: self.user_id,
            total_rewards: self.total_rewards,
            pending_rewards: self.pending_rewards,
            last_claim: self.last_claim,
            principal: match &self.principal {
                Some(p) => Some(p.clone()),
                None => None,
            },
        }
    }
}

/// Why a claim failed.
#[derive(PartialEq, Eq, Structural, Debug)]
pub enum RewardError {
    /// No account exists for the user id.
    UserNotFound,
    /// The account is linked to a different principal.
    PrincipalMismatch,
    /// The account has nothing to pay out.
    NoPendingRewards,
}

/// The reward that one cluster win earns: larger clusters earn more.
pub open spec fn reward_of(participants: u8) -> u64 {
    if 2 <= participants <= 5 {
        100u64
    } else if 6 <= participants <= 10 {
        200u64
    } else if 11 <= participants <= 20 {
        500u64
    } else {
        1000u64
    }
}

/// Computes the reward for a cluster win.
pub fn calculate_reward(participants: u8) -> (r: u64)
    ensures
        r == reward_of(participants),
{
    if 2 <= participants && participants <= 5 {
        100
    } else if 6 <= participants && participants <= 10 {
        200
    } else if 11 <= participants && participants <= 20 {
        500
    } else {
        1000
    }
}

/// Addition clamped at the largest representable balance.
pub open spec fn sat_add(a: u64, b: u64) -> u64 {
    if a + b > u64::MAX {
        u64::MAX
    } else {
        (a + b) as u64
    }
}

/// The first account of the given user, or -1.
pub open spec fn find_user(users: Seq<UserRewards>, user_id: u32) -> int
    decreases users.len(),
{
    if users.len() == 0 {
        -1
    } else if users[0].user_id == user_id {
        0
    } else {
        let rest = find_user(users.drop_first(), user_id);
        if rest == -1 {
            -1
        } else {
            rest + 1
        }
    }
}

/// What [`find_user`] finds: the first index that carries the user id, or
/// -1 when no index does.
pub proof fn lemma_find_user(users: Seq<UserRewards>, user_id: u32)
    ensures
        -1 <= find_user(users, user_id) < users.len(),
        find_user(users, user_id) >= 0 ==> (#[trigger] users[find_user(users, user_id)]).user_id
            == user_id,
        find_user(users, user_id) >= 0 ==> forall|m: int|
            0 <= m < find_user(users, user_id) ==> (#[trigger] users[m]).user_id != user_id,
        find_user(users, user_id) == -1 ==> forall|m: int|
            0 <= m < users.len() ==> (#[trigger] users[m]).user_id != user_id,
    decreases users.len(),
{
    if users.len() > 0 && users[0].user_id != user_id {
        lemma_find_user(users.drop_first(), user_id);
        assert forall|m: int| 1 <= m < users.len() implies users.drop_first()[m - 1] == users[m]
        by {}
    }
}

/// The store after one reward is granted to one user: the first matching
/// account grows by the reward, a missing account is created with it.
pub open spec fn apply_reward(users: Seq<UserRewards>, user_id: u32, reward: u64) -> Seq<
    UserRewards,
> {
    let idx = find_user(users, user_id);
    if idx >= 0 {
        users.update(
            idx,
            UserRewards {
                user_id: users[idx].user_id,
                total_rewards: sat_add(users[idx].total_rewards, reward),
                pending_rewards: sat_add(users[idx].pending_rewards, reward),
                last_claim: users[idx].last_claim,
                principal: users[idx].principal,
            },
        )
    } else {
        users.push(
            UserRewards {
                user_id,
                total_rewards: reward,
                pending_rewards: reward,
                last_claim: 0,
                principal: None,
            },
        )
    }
}

/// The store after every winner of a list is granted its reward, in list
/// order.
pub open spec fn distribute_spec(users: Seq<UserRewards>, winners: Seq<ClusterWinner>) -> Seq<
    UserRewards,
>
    decreases winners.len(),
{
    if winners.len() == 0 {
        users
    } else {
        apply_reward(
            distribute_spec(users, winners.drop_last()),
            winners.last().uid,
            reward_of(winners.last().participants),
        )
    }
}

/// The sum of all accrued rewards.
pub open spec fn sum_total(users: Seq<UserRewards>) -> int
    decreases users.len(),
{
    if users.len() == 0 {
        0
    } else {
        sum_total(users.drop_last()) + users.last().total_rewards
    }
}

/// The reward accounts, at most one per user id.
pub struct RewardStore {
    users: Vec<UserRewards>,
}

impl View for RewardStore {
    type V = Seq<UserRewards>;

    closed spec fn view(&self) -> Seq<UserRewards> {
        self.users@
    }
}

impl RewardStore {
    /// Every user id has at most one account.
    pub open spec fn wf(&self) -> bool {
        forall|a: int, b: int|
            0 <= a < b < self@.len() ==> (#[trigger] self@[a]).user_id != (
            #[trigger] self@[b]).user_id
    }

    /// An empty store.
    pub fn new() -> (r: RewardStore)
        ensures
            r@ == Seq::<UserRewards>::empty(),
            r.wf(),
    {
        let r = RewardStore { users: Vec::new() };
        proof {
            assert(r@ =~= Seq::<UserRewards>::empty());
        }
        r
    }

    /// The first position of the user's account, if one exists.
    fn find_index(&self, user_id: u32) -> (r: Option<usize>)
        ensures
            match r {
                Some(idx) => idx as int == find_user(self@, user_id),
                None => find_user(self@, user_id) == -1,
            },
    {
        proof {
            lemma_find_user(self@, user_id);
        }
        let mut k: usize = 0;
        while k < self.users.len()
            invariant
                k <= self@.len(),
                forall|m: int| 0 <= m < k ==> (#[trigger] self@[m]).user_id != user_id,
            decreases self@.len() - k,
        {
            if self.users[k].user_id == user_id {
                proof {
                    lemma_find_user_at(self@, user_id, k as int);
                }
                return Some(k);
            }
            k += 1;
        }
        proof {
            if find_user(self@, user_id) >= 0 {
                assert(self@[find_user(self@, user_id)].user_id == user_id);
            }
        }
        None
    }

    /// Grants one reward to one user: the existing account grows by the
    /// reward, saturating at the maximum; a missing account is created
    /// holding exactly the reward.
    pub fn update_user_rewards(&mut self, user_id: u32, reward: u64)
        requires
            old(self).wf(),
        ensures
            final(self).wf(),
            final(self)@ == apply_reward(old(self)@, user_id, reward),
    {
        proof {
            lemma_find_user(self@, user_id);
        }
        let found = self.find_index(user_id);
        match found {
            Some(idx) => {
                let old_user = self.users.remove(idx);
                let updated = UserRewards {
                    user_id: old_user.user_id,
                    total_rewards: old_user.total_rewards.saturating_add(reward),
                    pending_rewards: old_user.pending_rewards.saturating_add(reward),
                    last_claim: old_user.last_claim,
                    principal: old_user.principal,
                };
                self.users.insert(idx, updated);
                proof {
                    assert(self@ =~= apply_reward(old(self)@, user_id, reward));
                }
            },
            None => {
                let created = UserRewards {
                    user_id,
                    total_rewards: reward,
                    pending_rewards: reward,
                    last_claim: 0,
                    principal: None,
                };
                self.users.push(created);
                proof {
                    assert(self@ =~= apply_reward(old(self)@, user_id, reward));
                    assert forall|a: int, b: int| 0 <= a < b < self@.len() implies (
                    #[trigger] self@[a]).user_id != (#[trigger] self@[b]).user_id by {
                        if b == self@.len() - 1 {
                            assert(old(self)@[a].user_id != user_id);
                        }
                    }
                }
            },
        }
    }

    /// Grants every winner of a finalized interval its reward, in list
    /// order, and reports how many winners were processed.
    pub fn distribute_rewards(&mut self, interval_id: u64, winners: &Vec<ClusterWinner>) -> (updated:
        u64)
        requires
            old(self).wf(),
        ensures
            final(self).wf(),
            final(self)@ == distribute_spec(old(self)@, winners@),
            updated == winners@.len(),
    {
        let mut i: usize = 0;
        proof {
            assert(distribute_spec(old(self)@, winners@.take(0int)) == old(self)@) by {
                assert(winners@.take(0int) =~= Seq::<ClusterWinner>::empty());
            }
        }
        while i < winners.len()
            invariant
                i <= winners@.len(),
                self.wf(),
                self@ == distribute_spec(old(self)@, winners@.take(i as int)),
            decreases winners@.len() - i,
        {
            let w = winners[i];
            let reward = calculate_reward(w.participants);
            self.update_user_rewards(w.uid, reward);
            proof {
                assert(winners@.take(i as int + 1).drop_last() =~= winners@.take(i as int));
                assert(winners@.take(i as int + 1).last() == w);
            }
            i += 1;
        }
        proof {
            assert(winners@.take(winners@.len() as int) =~= winners@);
        }
        winners.len() as u64
    }

    /// Pays out a user's pending rewards.  The first successful claim
    /// links the caller's principal to the account; later claims must come
    /// from the same principal.  On an error nothing changes.
    pub fn claim_rewards(&mut self, user_id: u32, caller: &String, now: u64) -> (r: Result<
        u64,
        RewardError,
    >)
        requires
            old(self).wf(),
        ensures
            final(self).wf(),
            ({
                let idx = find_user(old(self)@, user_id);
                match r {
                    Err(RewardError::UserNotFound) => {
                        &&& idx == -1
                        &&& final(self)@ == old(self)@
                    },
                    Err(RewardError::PrincipalMismatch) => {
                        &&& idx >= 0
                        &&& old(self)@[idx].principal matches Some(p) && p@ != caller@
                        &&& final(self)@ == old(self)@
                    },
                    Err(RewardError::NoPendingRewards) => {
                        &&& idx >= 0
                        &&& (old(self)@[idx].principal matches Some(p) ==> p@ == caller@)
                        &&& old(self)@[idx].pending_rewards == 0
                        &&& final(self)@ == old(self)@
                    },
                    Ok(amount) => {
                        let u = old(self)@[idx];
                        let v = final(self)@[idx];
                        &&& idx >= 0
                        &&& (u.principal matches Some(p) ==> p@ == caller@)
                        &&& u.pending_rewards > 0
                        &&& amount == u.pending_rewards
                        &&& final(self)@ == old(self)@.update(idx, v)
                        &&& v.user_id == u.user_id
                        &&& v.total_rewards == u.total_rewards
                        &&& v.pending_rewards == 0
                        &&& v.last_claim == now
                        &&& (v.principal matches Some(p) && p@ == caller@)
                    },
                }
            }),
    {
        proof {
            lemma_find_user(self@, user_id);
        }
        let found = self.find_index(user_id);
        let idx = match found {
            Some(idx) => idx,
            None => {
                return Err(RewardError::UserNotFound);
            },
        };
        let linked = match &self.users[idx].principal {
            Some(p) => {
                if !(*p == *caller) {
                    return Err(RewardError::PrincipalMismatch);
                }
                true
            },
            None => false,
        };
        if self.users[idx].pending_rewards == 0 {
            return Err(RewardError::NoPendingRewards);
        }
        let old_user = self.users.remove(idx);
        let amount = old_user.pending_rewards;
        let principal = if linked {
            old_user.principal
        } else {
            Some(caller.clone())
        };
        let updated = UserRewards {
            user_id: old_user.user_id,
            total_rewards: old_user.total_rewards,
            pending_rewards: 0,
            last_claim: now,
            principal,
        };
        self.users.insert(idx, updated);
        proof {
            assert(self@ =~= old(self)@.update(idx as int, self@[idx as int]));
        }
        Ok(amount)
    }

    /// A copy of the user's account, if one exists.
    pub fn get_user_rewards(&self, user_id: u32) -> (r: Option<UserRewards>)
        ensures
            match r {
                Some(u) => {
                    &&& find_user(self@, user_id) >= 0
                    &&& u == self@[find_user(self@, user_id)]
                },
                None => find_user(self@, user_id) == -1,
            },
    {
        proof {
            lemma_find_user(self@, user_id);
        }
        match self.find_index(user_id) {
            Some(idx) => Some(self.users[idx].clone()),
            None => None,
        }
    }

    /// The sum of every account's accrued total, clamped at the largest
    /// representable amount.
    pub fn get_total_rewards(&self) -> (r: u64)
        ensures
            r as int == vstd::math::min(sum_total(self@), u64::MAX as int),
    {
        let mut acc: u64 = 0;
        let mut i: usize = 0;
        proof {
            assert(self@.take(0int) =~= Seq::<UserRewards>::empty());
        }
        while i < self.users.len()
            invariant
                i <= self@.len(),
                acc as int == vstd::math::min(sum_total(self@.take(i as int)), u64::MAX as int),
            decreases self@.len() - i,
        {
            let t = self.users[i].total_rewards;
            acc = acc.saturating_add(t);
            proof {
                assert(self@.take(i as int + 1).drop_last() =~= self@.take(i as int));
                assert(self@.take(i as int + 1).last() == self@[i as int]);
                lemma_sum_total_nonneg(self@.take(i as int));
            }
            i += 1;
        }
        proof {
            assert(self@.take(self@.len() as int) =~= self@);
        }
        acc
    }
}

/// A scan that found the user id at `k`, after misses everywhere before
/// `k`, has found [`find_user`]'s answer.
proof fn lemma_find_user_at(users: Seq<UserRewards>, user_id: u32, k: int)
    requires
        0 <= k < users.len(),
        users[k].user_id == user_id,
        forall|m: int| 0 <= m < k ==> (#[trigger] users[m]).user_id != user_id,
    ensures
        find_user(users, user_id) == k,
    decreases k,
{
    if k > 0 {
        assert forall|m: int| 0 <= m < k - 1 implies (#[trigger] users.drop_first()[m]).user_id
            != user_id by {
            assert(users.drop_first()[m] == users[m + 1]);
        }
        assert(users.drop_first()[k - 1] == users[k]);
        lemma_find_user_at(users.drop_first(), user_id, k - 1);
    }
}

/// Accrued totals are never negative.
proof fn lemma_sum_total_nonneg(users: Seq<UserRewards>)
    ensures
        sum_total(users) >= 0,
    decreases users.len(),
{
    if users.len() > 0 {
        lemma_sum_total_nonneg(users.drop_last());
    }
}

} // verus!
