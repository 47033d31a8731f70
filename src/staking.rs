//! The delegation ledger: stakes and rewards per delegator and validator, and the
//! undelegations that wait to mature.
use vstd::prelude::*;
use crate::bank::{credit_denom, BalanceKey};
use crate::revertable::{lookup, Revertable, StoreValue};
use crate::types::{Coin, StdError};

verus! {

/// A validator that accepts delegations.
#[derive(Debug, PartialEq, Eq)]
pub struct Validator {
    pub address: String,
}

/// A delegation: who delegates how much to whom.
#[derive(Debug, PartialEq, Eq)]
pub struct Delegation {
    pub delegator: String,
    pub validator: String,
    pub amount: Coin,
}

/// A delegation with its rewards, and how much of it may be redelegated now.
#[derive(Debug, PartialEq, Eq)]
pub struct FullDelegation {
    pub delegator: String,
    pub validator: String,
    pub amount: Coin,
    pub can_redelegate: Coin,
    pub accumulated_rewards: Coin,
}

/// An undelegation that waits to mature.
#[derive(Debug, PartialEq, Eq)]
pub struct Unbonding {
    pub delegator: String,
    pub validator: String,
    pub amount: Coin,
}

/// A delegation operation as the engine reports it.
#[derive(Debug, PartialEq, Eq)]
pub enum StakingResponse {
    Delegate { delegator: String, validator: String, amount: Coin },
    Undelegate { delegator: String, validator: String, amount: Coin },
    Redelegate { delegator: String, src_validator: String, dst_validator: String, amount: Coin },
    Withdraw { delegator: String, validator: String },
}

/// The stake and the accumulated rewards of one delegation.
pub type Stake = (u128, u128);

/// `list` holds each pending undelegation of `m` exactly once, with its amount.
pub open spec fn unbondings_of(m: Map<BalanceKey, u128>, list: Seq<Unbonding>) -> bool {
    &&& forall|i: int, j: int|
        0 <= i < j < list.len() ==> (list[i].delegator@, list[i].validator@) != (
        list[j].delegator@,
        list[j].validator@,
    )
    &&& forall|i: int|
        #![trigger list[i]]
        0 <= i < list.len() ==> m.contains_key((list[i].delegator@, list[i].validator@))
            && m[(list[i].delegator@, list[i].validator@)] == list[i].amount.amount
    &&& forall|k: BalanceKey|
        #[trigger] m.contains_key(k) ==> exists|i: int|
            0 <= i < list.len() && (list[i].delegator@, list[i].validator@) == k
}

/// `m` after crediting each unbonding of `list` in turn to its delegator; `None` when a
/// balance would overflow.
pub open spec fn mature(m: Map<BalanceKey, u128>, list: Seq<Unbonding>) -> Option<
    Map<BalanceKey, u128>,
>
    decreases list.len(),
{
    if list.len() == 0 {
        Some(m)
    } else {
        match mature(m, list.drop_last()) {
            Some(m2) => credit_denom(
                m2,
                list.last().delegator@,
                list.last().amount.denom@,
                list.last().amount.amount,
            ),
            None => None,
        }
    }
}

/// Once maturing a prefix of `list` overflows, maturing all of it does.
pub proof fn lemma_mature_none_extends(m: Map<BalanceKey, u128>, list: Seq<Unbonding>, n: int)
    requires
        0 < n <= list.len(),
        mature(m, list.subrange(0, n)) is None,
    ensures
        mature(m, list) is None,
    decreases list.len() - n,
{
    if n < list.len() {
        assert(list.subrange(0, n + 1).drop_last() =~= list.subrange(0, n));
        lemma_mature_none_extends(m, list, n + 1);
    } else {
        assert(list.subrange(0, n) =~= list);
    }
}

/// Stakes, rewards and pending undelegations, checkpointed; and the validators.
pub struct Delegations {
    bonded_denom: String,
    validators: Vec<String>,
    stakes: Revertable<(String, String), (u128, u128)>,
    unbonding: Revertable<(String, String), u128>,
}

impl Delegations {
    pub closed spec fn wf(&self) -> bool {
        &&& self.stakes.wf()
        &&& self.unbonding.wf()
        &&& self.stakes.depth() == self.unbonding.depth()
    }

    /// The denomination that delegations are made in.
    pub closed spec fn denom(&self) -> Seq<char> {
        self.bonded_denom@
    }

    /// The registered validators.
    pub closed spec fn validators(&self) -> Seq<Seq<char>> {
        self.validators@.map_values(|v: String| v@)
    }

    /// Stake and rewards per (delegator, validator).
    pub closed spec fn stakes(&self) -> Map<BalanceKey, Stake> {
        self.stakes@
    }

    /// Pending undelegated amount per (delegator, validator).
    pub closed spec fn unbonding(&self) -> Map<BalanceKey, u128> {
        self.unbonding@
    }

    pub closed spec fn depth(&self) -> nat {
        self.stakes.depth()
    }

    /// What each live checkpoint captured: stakes and pending undelegations.
    pub closed spec fn saved(&self) -> Seq<(Map<BalanceKey, Stake>, Map<BalanceKey, u128>)> {
        Seq::new(self.depth(), |i: int| (self.stakes.saved()[i], self.unbonding.saved()[i]))
    }

    /// There is one saved snapshot per live checkpoint.
    pub proof fn lemma_saved_len(&self)
        ensures
            self.saved().len() == self.depth(),
    {
    }

    /// Whether `v` is a registered validator.
    pub open spec fn is_validator(&self, v: Seq<char>) -> bool {
        self.validators().contains(v)
    }

    /// An empty ledger that bonds `denom`.
    pub fn new(denom: &str) -> (r: Delegations)
        ensures
            r.wf(),
            r.denom() == denom@,
            r.validators() == Seq::<Seq<char>>::empty(),
            r.stakes() == Map::<BalanceKey, Stake>::empty(),
            r.unbonding() == Map::<BalanceKey, u128>::empty(),
            r.depth() == 0,
    {
        let r = Delegations {
            bonded_denom: denom.to_owned(),
            validators: Vec::new(),
            stakes: Revertable::new(),
            unbonding: Revertable::new(),
        };
        assert(r.validators() =~= Seq::<Seq<char>>::empty());
        r
    }

    fn has_validator(&self, v: &str) -> (r: bool)
        ensures
            r == self.is_validator(v@),
    {
        let who = v.to_owned();
        let mut i: usize = 0;
        while i < self.validators.len()
            invariant
                who@ == v@,
                i <= self.validators@.len(),
                forall|j: int| 0 <= j < i ==> self.validators@[j]@ != v@,
            decreases self.validators@.len() - i,
        {
            if self.validators[i] == who {
                assert(self.validators()[i as int] == v@);
                return true;
            }
            i = i + 1;
        }
        assert(!self.validators().contains(v@));
        false
    }

    /// Registers a validator; one already registered stays once.
    pub fn add_validator(&mut self, validator: Validator)
        requires
            old(self).wf(),
        ensures
            final(self).wf(),
            final(self).denom() == old(self).denom(),
            final(self).stakes() == old(self).stakes(),
            final(self).unbonding() == old(self).unbonding(),
            final(self).depth() == old(self).depth(),
            final(self).saved() == old(self).saved(),
            forall|v: Seq<char>|
                final(self).is_validator(v) <==> (old(self).is_validator(v) || v
                    == validator.address@),
    {
        if !self.has_validator(validator.address.as_str()) {
            let ghost before = self.validators();
            self.validators.push(validator.address);
            assert(self.validators() =~= before.push(validator.address@));
            assert forall|v: Seq<char>|
                self.is_validator(v) <==> (old(self).is_validator(v) || v
                    == validator.address@) by {
                if old(self).is_validator(v) {
                    let j = choose|j: int| 0 <= j < before.len() && before[j] == v;
                    assert(self.validators()[j] == v);
                }
                if self.is_validator(v) && v != validator.address@ {
                    let j = choose|j: int|
                        0 <= j < self.validators().len() && self.validators()[j] == v;
                    assert(j < before.len());
                    assert(before[j] == v);
                }
                if v == validator.address@ {
                    assert(self.validators()[before.len() as int] == v);
                }
            }
        }
    }

    /// Delegates `amount` from `delegator` to `validator`. The funds must already have
    /// left the delegator's balance.
    pub fn delegate(&mut self, delegator: &str, validator: &str, amount: &Coin) -> (r: Result<
        StakingResponse,
        StdError,
    >)
        requires
            old(self).wf(),
        ensures
            final(self).wf(),
            final(self).denom() == old(self).denom(),
            final(self).validators() == old(self).validators(),
            final(self).unbonding() == old(self).unbonding(),
            final(self).depth() == old(self).depth(),
            final(self).saved() == old(self).saved(),
            !old(self).is_validator(validator@) ==> r is Err && r->Err_0 is ValidatorNotFound,
            old(self).is_validator(validator@) && amount.denom@ != old(self).denom() ==> r is Err
                && r->Err_0 is InvalidDenom,
            r is Err ==> final(self).stakes() == old(self).stakes(),
            r is Ok <==> {
                &&& old(self).is_validator(validator@)
                &&& amount.denom@ == old(self).denom()
                &&& staked(old(self).stakes(), delegator@, validator@) + amount.amount <= u128::MAX
            },
            r is Ok ==> final(self).stakes() == old(self).stakes().insert(
                (delegator@, validator@),
                (
                    (staked(old(self).stakes(), delegator@, validator@) + amount.amount) as u128,
                    rewards(old(self).stakes(), delegator@, validator@),
                ),
            ),
    {
        if !self.has_validator(validator) {
            return Err(StdError::ValidatorNotFound { validator: validator.to_owned() });
        }
        if amount.denom != self.bonded_denom {
            return Err(StdError::InvalidDenom { denom: amount.denom.clone() });
        }
        let key = (delegator.to_owned(), validator.to_owned());
        let (now, reward) = self.stake_of(&key);
        match now.checked_add(amount.amount) {
            Some(sum) => {
                self.stakes.set(key, (sum, reward));
                Ok(
                    StakingResponse::Delegate {
                        delegator: delegator.to_owned(),
                        validator: validator.to_owned(),
                        amount: amount.duplicate(),
                    },
                )
            },
            None => Err(StdError::Overflow),
        }
    }

    fn stake_of(&self, key: &(String, String)) -> (r: Stake)
        requires
            self.wf(),
        ensures
            r.0 == staked(self.stakes(), key.0@, key.1@),
            r.1 == rewards(self.stakes(), key.0@, key.1@),
    {
        match self.stakes.get(key) {
            Some(s) => (s.0, s.1),
            None => (0, 0),
        }
    }

    fn pending_of(&self, key: &(String, String)) -> (r: u128)
        requires
            self.wf(),
        ensures
            r == pending(self.unbonding(), key.0@, key.1@),
    {
        match self.unbonding.get(key) {
            Some(s) => *s,
            None => 0,
        }
    }

    /// Takes `amount` out of the delegation of `delegator` to `validator` and queues it
    /// to mature.
    pub fn undelegate(&mut self, delegator: &str, validator: &str, amount: &Coin) -> (r: Result<
        StakingResponse,
        StdError,
    >)
        requires
            old(self).wf(),
        ensures
            final(self).wf(),
            final(self).denom() == old(self).denom(),
            final(self).validators() == old(self).validators(),
            final(self).depth() == old(self).depth(),
            final(self).saved() == old(self).saved(),
            r is Err ==> final(self).stakes() == old(self).stakes() && final(self).unbonding()
                == old(self).unbonding(),
            r is Ok <==> {
                &&& old(self).is_validator(validator@)
                &&& amount.denom@ == old(self).denom()
                &&& old(self).stakes().contains_key((delegator@, validator@))
                &&& amount.amount <= staked(old(self).stakes(), delegator@, validator@)
                &&& pending(old(self).unbonding(), delegator@, validator@) + amount.amount
                    <= u128::MAX
            },
            r is Ok ==> final(self).stakes() == old(self).stakes().insert(
                (delegator@, validator@),
                (
                    (staked(old(self).stakes(), delegator@, validator@) - amount.amount) as u128,
                    rewards(old(self).stakes(), delegator@, validator@),
                ),
            ) && final(self).unbonding() == old(self).unbonding().insert(
                (delegator@, validator@),
                (pending(old(self).unbonding(), delegator@, validator@) + amount.amount) as u128,
            ),
    {
        if !self.has_validator(validator) {
            return Err(StdError::ValidatorNotFound { validator: validator.to_owned() });
        }
        if amount.denom != self.bonded_denom {
            return Err(StdError::InvalidDenom { denom: amount.denom.clone() });
        }
        let key = (delegator.to_owned(), validator.to_owned());
        if self.stakes.get(&key).is_none() {
            return Err(StdError::DelegationNotFound);
        }
        let (now, reward) = self.stake_of(&key);
        if now < amount.amount {
            return Err(
                StdError::InsufficientFunds {
                    address: delegator.to_owned(),
                    denom: amount.denom.clone(),
                },
            );
        }
        let waiting = self.pending_of(&key);
        let total = match waiting.checked_add(amount.amount) {
            Some(t) => t,
            None => {
                return Err(StdError::Overflow);
            },
        };
        let key2 = (delegator.to_owned(), validator.to_owned());
        self.stakes.set(key, (now - amount.amount, reward));
        self.unbonding.set(key2, total);
        Ok(
            StakingResponse::Undelegate {
                delegator: delegator.to_owned(),
                validator: validator.to_owned(),
                amount: amount.duplicate(),
            },
        )
    }

    /// Moves `amount` of the delegation of `delegator` from `src` to `dst`. Refused while
    /// an undelegation from `src` waits.
    pub fn redelegate(&mut self, delegator: &str, src: &str, dst: &str, amount: &Coin) -> (r: Result<
        StakingResponse,
        StdError,
    >)
        requires
            old(self).wf(),
        ensures
            final(self).wf(),
            final(self).denom() == old(self).denom(),
            final(self).validators() == old(self).validators(),
            final(self).unbonding() == old(self).unbonding(),
            final(self).depth() == old(self).depth(),
            final(self).saved() == old(self).saved(),
            r is Err ==> final(self).stakes() == old(self).stakes(),
            old(self).is_validator(src@) && old(self).is_validator(dst@) && amount.denom@
                == old(self).denom() && old(self).stakes().contains_key((delegator@, src@))
                && old(self).unbonding().contains_key((delegator@, src@)) ==> r is Err
                && r->Err_0 is RedelegationLocked,
            r is Ok <==> {
                &&& old(self).is_validator(src@)
                &&& old(self).is_validator(dst@)
                &&& amount.denom@ == old(self).denom()
                &&& old(self).stakes().contains_key((delegator@, src@))
                &&& !old(self).unbonding().contains_key((delegator@, src@))
                &&& amount.amount <= staked(old(self).stakes(), delegator@, src@)
                &&& src@ != dst@ ==> staked(old(self).stakes(), delegator@, dst@) + amount.amount
                    <= u128::MAX
            },
            r is Ok && src@ != dst@ ==> final(self).stakes() == old(self).stakes().insert(
                (delegator@, src@),
                (
                    (staked(old(self).stakes(), delegator@, src@) - amount.amount) as u128,
                    rewards(old(self).stakes(), delegator@, src@),
                ),
            ).insert(
                (delegator@, dst@),
                (
                    (staked(old(self).stakes(), delegator@, dst@) + amount.amount) as u128,
                    rewards(old(self).stakes(), delegator@, dst@),
                ),
            ),
            r is Ok && src@ == dst@ ==> final(self).stakes() == old(self).stakes(),
    {
        if !self.has_validator(src) {
            return Err(StdError::ValidatorNotFound { validator: src.to_owned() });
        }
        if !self.has_validator(dst) {
            return Err(StdError::ValidatorNotFound { validator: dst.to_owned() });
        }
        if amount.denom != self.bonded_denom {
            return Err(StdError::InvalidDenom { denom: amount.denom.clone() });
        }
        let from = (delegator.to_owned(), src.to_owned());
        if self.stakes.get(&from).is_none() {
            return Err(StdError::DelegationNotFound);
        }
        if self.unbonding.get(&from).is_some() {
            return Err(StdError::RedelegationLocked);
        }
        let (now, reward) = self.stake_of(&from);
        if now < amount.amount {
            return Err(
                StdError::InsufficientFunds {
                    address: delegator.to_owned(),
                    denom: amount.denom.clone(),
                },
            );
        }
        let to = (delegator.to_owned(), dst.to_owned());
        if from.1 == to.1 {
            return Ok(
                StakingResponse::Redelegate {
                    delegator: delegator.to_owned(),
                    src_validator: src.to_owned(),
                    dst_validator: dst.to_owned(),
                    amount: amount.duplicate(),
                },
            );
        }
        let (there, there_reward) = self.stake_of(&to);
        let sum = match there.checked_add(amount.amount) {
            Some(s) => s,
            None => {
                return Err(StdError::Overflow);
            },
        };
        self.stakes.set(from, (now - amount.amount, reward));
        self.stakes.set(to, (sum, there_reward));
        Ok(
            StakingResponse::Redelegate {
                delegator: delegator.to_owned(),
                src_validator: src.to_owned(),
                dst_validator: dst.to_owned(),
                amount: amount.duplicate(),
            },
        )
    }

    /// Pays out the rewards of the delegation of `delegator` to `validator`: returns
    /// them, and sets them to zero.
    pub fn withdraw(&mut self, delegator: &str, validator: &str) -> (r: Result<Coin, StdError>)
        requires
            old(self).wf(),
        ensures
            final(self).wf(),
            final(self).denom() == old(self).denom(),
            final(self).validators() == old(self).validators(),
            final(self).unbonding() == old(self).unbonding(),
            final(self).depth() == old(self).depth(),
            final(self).saved() == old(self).saved(),
            r is Ok <==> old(self).stakes().contains_key((delegator@, validator@)),
            r is Err ==> r->Err_0 is DelegationNotFound && final(self).stakes() == old(self).stakes(),
            r is Ok ==> r->Ok_0.amount == rewards(old(self).stakes(), delegator@, validator@)
                && r->Ok_0.denom@ == old(self).denom() && final(self).stakes()
                == old(self).stakes().insert(
                (delegator@, validator@),
                (staked(old(self).stakes(), delegator@, validator@), 0),
            ),
    {
        let key = (delegator.to_owned(), validator.to_owned());
        if self.stakes.get(&key).is_none() {
            return Err(StdError::DelegationNotFound);
        }
        let (now, reward) = self.stake_of(&key);
        self.stakes.set(key, (now, 0));
        Ok(Coin { denom: self.bonded_denom.clone(), amount: reward })
    }

    /// Adds `amount` to the rewards of every delegation; a reward that would exceed the
    /// largest amount stays at it.
    pub fn distribute_rewards(&mut self, amount: u128)
        requires
            old(self).wf(),
        ensures
            final(self).wf(),
            final(self).denom() == old(self).denom(),
            final(self).validators() == old(self).validators(),
            final(self).unbonding() == old(self).unbonding(),
            final(self).depth() == old(self).depth(),
            final(self).saved() == old(self).saved(),
            final(self).stakes().dom() == old(self).stakes().dom(),
            forall|k: BalanceKey| #[trigger]
                old(self).stakes().contains_key(k) ==> final(self).stakes()[k].0 == old(self).stakes()[k].0 && final(self).stakes()[k].1 == if old(self).stakes()[k].1
                    + amount <= u128::MAX {
                    (old(self).stakes()[k].1 + amount) as u128
                } else {
                    u128::MAX
                },
    {
        let keys = self.stakes.keys();
        let ghost start = self.stakes();
        let mut i: usize = 0;
        while i < keys.len()
            invariant
                self.wf(),
                self.denom() == old(self).denom(),
                self.validators() == old(self).validators(),
                self.unbonding() == old(self).unbonding(),
                self.depth() == old(self).depth(),
                self.saved() == old(self).saved(),
                start == old(self).stakes(),
                i <= keys@.len(),
                forall|j: int| 0 <= j < keys@.len() ==> #[trigger] start.contains_key(keys@[j].model()),
                forall|k: BalanceKey| #[trigger] start.contains_key(k) ==> exists|j: int|
                    0 <= j < keys@.len() && keys@[j].model() == k,
                forall|a: int, b: int| 0 <= a < b < keys@.len() ==> keys@[a].model() != keys@[b].model(),
                self.stakes().dom() == start.dom(),
                forall|k: BalanceKey| #[trigger]
                    start.contains_key(k) ==> self.stakes()[k].0 == start[k].0 && self.stakes()[k].1
                        == if (exists|j: int| 0 <= j < i && keys@[j].model() == k) {
                        if start[k].1 + amount <= u128::MAX {
                            (start[k].1 + amount) as u128
                        } else {
                            u128::MAX
                        }
                    } else {
                        start[k].1
                    },
            decreases keys@.len() - i,
        {
            let key = keys[i].duplicate();
            let ghost km = keys@[i as int].model();
            assert(start.contains_key(km));
            let (now, reward) = self.stake_of(&key);
            self.stakes.set(key, (now, reward.saturating_add(amount)));
            proof {
                assert forall|k: BalanceKey| #[trigger] start.contains_key(k) implies self.stakes()[k].0 == start[k].0 && self.stakes()[k].1
                        == if (exists|j: int| 0 <= j < i + 1 && keys@[j].model() == k) {
                        if start[k].1 + amount <= u128::MAX {
                            (start[k].1 + amount) as u128
                        } else {
                            u128::MAX
                        }
                    } else {
                        start[k].1
                    } by {
                    if k == km {
                        assert(keys@[i as int].model() == k);
                        assert(!exists|j: int| 0 <= j < i && keys@[j].model() == k);
                    } else {
                        if exists|j: int| 0 <= j < i + 1 && keys@[j].model() == k {
                            let j = choose|j: int| 0 <= j < i + 1 && keys@[j].model() == k;
                            assert(j < i);
                        }
                    }
                }
                assert(self.stakes().dom() =~= start.dom());
            }
            i = i + 1;
        }
        assert forall|k: BalanceKey| #[trigger] start.contains_key(k) implies exists|j: int|
            0 <= j < i && keys@[j].model() == k by {}
    }

    /// Matures every pending undelegation: returns them, and empties the queue.
    pub fn fast_forward_waits(&mut self) -> (r: Vec<Unbonding>)
        requires
            old(self).wf(),
        ensures
            final(self).wf(),
            final(self).denom() == old(self).denom(),
            final(self).validators() == old(self).validators(),
            final(self).stakes() == old(self).stakes(),
            final(self).unbonding() == Map::<BalanceKey, u128>::empty(),
            final(self).depth() == old(self).depth(),
            final(self).saved() == old(self).saved(),
            unbondings_of(old(self).unbonding(), r@),
            forall|i: int| 0 <= i < r@.len() ==> (#[trigger] r@[i]).amount.denom@ == old(self).denom(),
    {
        let keys = self.unbonding.keys();
        let mut out: Vec<Unbonding> = Vec::new();
        let ghost start = self.unbonding();
        let mut i: usize = 0;
        while i < keys.len()
            invariant
                self.wf(),
                self.denom() == old(self).denom(),
                self.validators() == old(self).validators(),
                self.stakes() == old(self).stakes(),
                self.depth() == old(self).depth(),
                self.saved() == old(self).saved(),
                start == old(self).unbonding(),
                self.unbonding() == start,
                i <= keys@.len(),
                out@.len() == i,
                forall|j: int| 0 <= j < keys@.len() ==> #[trigger] start.contains_key(keys@[j].model()),
                forall|k: BalanceKey| #[trigger] start.contains_key(k) ==> exists|j: int|
                    0 <= j < keys@.len() && keys@[j].model() == k,
                forall|j: int|
                    #![trigger out@[j]]
                    0 <= j < i ==> (out@[j].delegator@, out@[j].validator@) == keys@[j].model()
                        && out@[j].amount.amount == start[keys@[j].model()]
                        && out@[j].amount.denom@ == old(self).denom(),
            decreases keys@.len() - i,
        {
            let key = &keys[i];
            assert(start.contains_key(keys@[i as int].model()));
            let amount = self.pending_of(key);
            out.push(
                Unbonding {
                    delegator: key.0.clone(),
                    validator: key.1.clone(),
                    amount: Coin { denom: self.bonded_denom.clone(), amount },
                },
            );
            i = i + 1;
        }
        let mut n: usize = 0;
        while n < keys.len()
            invariant
                self.wf(),
                self.denom() == old(self).denom(),
                self.validators() == old(self).validators(),
                self.stakes() == old(self).stakes(),
                self.depth() == old(self).depth(),
                self.saved() == old(self).saved(),
                n <= keys@.len(),
                forall|k: BalanceKey| #[trigger]
                    self.unbonding().contains_key(k) ==> start.contains_key(k) && forall|j: int|
                        0 <= j < n ==> keys@[j].model() != k,
            decreases keys@.len() - n,
        {
            let ghost before = self.unbonding();
            let gone = keys[n].duplicate();
            self.unbonding.remove(gone);
            proof {
                assert forall|k: BalanceKey| #[trigger]
                    self.unbonding().contains_key(k) implies start.contains_key(k) && forall|j: int|
                        0 <= j < n + 1 ==> keys@[j].model() != k by {
                    assert(before.contains_key(k));
                }
            }
            n = n + 1;
        }
        proof {
            assert forall|k: BalanceKey| !#[trigger] self.unbonding().contains_key(k) by {
                if self.unbonding().contains_key(k) {
                    let j = choose|j: int| 0 <= j < keys@.len() && keys@[j].model() == k;
                }
            }
            assert(self.unbonding() =~= Map::<BalanceKey, u128>::empty());
        }
        proof {
            assert forall|j: int|
                #![trigger out@[j]]
                0 <= j < out@.len() implies start.contains_key((out@[j].delegator@, out@[j].validator@))
                    && start[(out@[j].delegator@, out@[j].validator@)] == out@[j].amount.amount by {
                assert(start.contains_key(keys@[j].model()));
            }
            assert forall|a: int, b: int| 0 <= a < b < out@.len() implies (
                out@[a].delegator@,
                out@[a].validator@,
            ) != (out@[b].delegator@, out@[b].validator@) by {
                assert(keys@[a].model() != keys@[b].model());
            }
            assert forall|k: BalanceKey| #[trigger] start.contains_key(k) implies exists|j: int|
                0 <= j < out@.len() && (out@[j].delegator@, out@[j].validator@) == k by {
                let j = choose|j: int| 0 <= j < keys@.len() && keys@[j].model() == k;
                assert((out@[j].delegator@, out@[j].validator@) == k);
            }
        }
        out
    }

    /// The delegations of `delegator`.
    pub fn all_delegations(&self, delegator: &str) -> (r: Vec<Delegation>)
        requires
            self.wf(),
        ensures
            forall|i: int|
                #![trigger r@[i]]
                0 <= i < r@.len() ==> r@[i].delegator@ == delegator@ && self.stakes().contains_key(
                    (delegator@, r@[i].validator@),
                ) && r@[i].amount.amount == self.stakes()[(delegator@, r@[i].validator@)].0
                    && r@[i].amount.denom@ == self.denom(),
            forall|v: Seq<char>| #[trigger]
                self.stakes().contains_key((delegator@, v)) ==> exists|i: int|
                    0 <= i < r@.len() && r@[i].validator@ == v,
    {
        let keys = self.stakes.keys();
        let who = delegator.to_owned();
        let mut out: Vec<Delegation> = Vec::new();
        let mut i: usize = 0;
        while i < keys.len()
            invariant
                self.wf(),
                who@ == delegator@,
                i <= keys@.len(),
                forall|j: int| 0 <= j < keys@.len() ==> #[trigger] self.stakes().contains_key(keys@[j].model()),
                forall|k: BalanceKey| #[trigger] self.stakes().contains_key(k) ==> exists|j: int|
                    0 <= j < keys@.len() && keys@[j].model() == k,
                forall|j: int|
                    #![trigger out@[j]]
                    0 <= j < out@.len() ==> out@[j].delegator@ == delegator@ && self.stakes().contains_key(
                        (delegator@, out@[j].validator@),
                    ) && out@[j].amount.amount == self.stakes()[(delegator@, out@[j].validator@)].0
                        && out@[j].amount.denom@ == self.denom(),
                forall|j: int|
                    0 <= j < i && (#[trigger] keys@[j]).0@ == delegator@ ==> exists|o: int|
                        0 <= o < out@.len() && out@[o].validator@ == keys@[j].1@,
            decreases keys@.len() - i,
        {
            let key = &keys[i];
            assert(self.stakes().contains_key(keys@[i as int].model()));
            if key.0 == who {
                let (amount, _) = self.stake_of(key);
                let ghost before = out@;
                out.push(
                    Delegation {
                        delegator: key.0.clone(),
                        validator: key.1.clone(),
                        amount: Coin { denom: self.bonded_denom.clone(), amount },
                    },
                );
                proof {
                    assert forall|j: int|
                        0 <= j < i + 1 && (#[trigger] keys@[j]).0@ == delegator@ implies exists|o: int|
                            0 <= o < out@.len() && out@[o].validator@ == keys@[j].1@ by {
                        if j < i {
                            let o = choose|o: int| 0 <= o < before.len() && before[o].validator@ == keys@[j].1@;
                            assert(out@[o] == before[o]);
                        } else {
                            assert(out@[before.len() as int].validator@ == keys@[j].1@);
                        }
                    }
                    assert forall|j: int|
                        #![trigger out@[j]]
                        0 <= j < out@.len() implies out@[j].delegator@ == delegator@ && self.stakes().contains_key(
                            (delegator@, out@[j].validator@),
                        ) && out@[j].amount.amount == self.stakes()[(delegator@, out@[j].validator@)].0
                            && out@[j].amount.denom@ == self.denom() by {
                        if j < before.len() {
                            assert(out@[j] == before[j]);
                        }
                    }
                }
            }
            i = i + 1;
        }
        assert forall|v: Seq<char>| #[trigger]
            self.stakes().contains_key((delegator@, v)) implies exists|o: int|
                0 <= o < out@.len() && out@[o].validator@ == v by {
            let j = choose|j: int| 0 <= j < keys@.len() && keys@[j].model() == (delegator@, v);
            assert(keys@[j].0@ == delegator@);
        }
        out
    }

    /// The delegation of `delegator` to `validator`, if there is one. What may be
    /// redelegated is nothing while an undelegation from the validator waits, else the
    /// whole stake.
    pub fn delegation(&self, delegator: &str, validator: &str) -> (r: Option<FullDelegation>)
        requires
            self.wf(),
        ensures
            r is Some <==> self.stakes().contains_key((delegator@, validator@)),
            r is Some ==> {
                let d = r->Some_0;
                let s = self.stakes()[(delegator@, validator@)];
                &&& d.delegator@ == delegator@
                &&& d.validator@ == validator@
                &&& d.amount.amount == s.0 && d.amount.denom@ == self.denom()
                &&& d.accumulated_rewards.amount == s.1 && d.accumulated_rewards.denom@
                    == self.denom()
                &&& d.can_redelegate.denom@ == self.denom()
                &&& d.can_redelegate.amount == if self.unbonding().contains_key(
                    (delegator@, validator@),
                ) {
                    0
                } else {
                    s.0
                }
            },
    {
        let key = (delegator.to_owned(), validator.to_owned());
        match self.stakes.get(&key) {
            None => None,
            Some(s) => {
                let locked = self.unbonding.get(&key).is_some();
                Some(
                    FullDelegation {
                        delegator: delegator.to_owned(),
                        validator: validator.to_owned(),
                        amount: Coin { denom: self.bonded_denom.clone(), amount: s.0 },
                        can_redelegate: Coin {
                            denom: self.bonded_denom.clone(),
                            amount: if locked {
                                0
                            } else {
                                s.0
                            },
                        },
                        accumulated_rewards: Coin { denom: self.bonded_denom.clone(), amount: s.1 },
                    },
                )
            },
        }
    }

    /// Opens a checkpoint.
    pub fn checkpoint(&mut self)
        requires
            old(self).wf(),
        ensures
            final(self).wf(),
            final(self).denom() == old(self).denom(),
            final(self).validators() == old(self).validators(),
            final(self).stakes() == old(self).stakes(),
            final(self).unbonding() == old(self).unbonding(),
            final(self).depth() == old(self).depth() + 1,
            final(self).saved() == old(self).saved().push((old(self).stakes(), old(self).unbonding())),
    {
        proof {
            self.stakes.lemma_saved_len();
            self.unbonding.lemma_saved_len();
        }
        self.stakes.checkpoint();
        self.unbonding.checkpoint();
        proof {
            self.stakes.lemma_saved_len();
            self.unbonding.lemma_saved_len();
        }
        assert(self.saved() =~= old(self).saved().push((old(self).stakes(), old(self).unbonding())));
    }

    /// Closes the innermost checkpoint, keeping what was written since.
    pub fn commit(&mut self)
        requires
            old(self).wf(),
            old(self).depth() > 0,
        ensures
            final(self).wf(),
            final(self).denom() == old(self).denom(),
            final(self).validators() == old(self).validators(),
            final(self).stakes() == old(self).stakes(),
            final(self).unbonding() == old(self).unbonding(),
            final(self).depth() == old(self).depth() - 1,
            final(self).saved() == old(self).saved().drop_last(),
    {
        proof {
            self.stakes.lemma_saved_len();
            self.unbonding.lemma_saved_len();
        }
        self.stakes.commit();
        self.unbonding.commit();
        proof {
            self.stakes.lemma_saved_len();
            self.unbonding.lemma_saved_len();
        }
        assert(self.saved() =~= old(self).saved().drop_last());
    }

    /// Restores what the innermost checkpoint captured, and closes it.
    pub fn revert(&mut self)
        requires
            old(self).wf(),
            old(self).depth() > 0,
        ensures
            final(self).wf(),
            final(self).denom() == old(self).denom(),
            final(self).validators() == old(self).validators(),
            (final(self).stakes(), final(self).unbonding()) == old(self).saved().last(),
            final(self).depth() == old(self).depth() - 1,
            final(self).saved() == old(self).saved().drop_last(),
    {
        proof {
            self.stakes.lemma_saved_len();
            self.unbonding.lemma_saved_len();
        }
        self.stakes.revert();
        self.unbonding.revert();
        proof {
            self.stakes.lemma_saved_len();
            self.unbonding.lemma_saved_len();
        }
        assert(self.saved() =~= old(self).saved().drop_last());
    }
}

/// The stake of `d` with `v` in `m`; zero when there is no delegation.
pub open spec fn staked(m: Map<BalanceKey, Stake>, d: Seq<char>, v: Seq<char>) -> u128 {
    match lookup(m, (d, v)) {
        Some(s) => s.0,
        None => 0,
    }
}

/// The accumulated rewards of `d` with `v` in `m`; zero when there is no delegation.
pub open spec fn rewards(m: Map<BalanceKey, Stake>, d: Seq<char>, v: Seq<char>) -> u128 {
    match lookup(m, (d, v)) {
        Some(s) => s.1,
        None => 0,
    }
}

/// The pending undelegated amount of `d` from `v` in `m`.
pub open spec fn pending(m: Map<BalanceKey, u128>, d: Seq<char>, v: Seq<char>) -> u128 {
    match lookup(m, (d, v)) {
        Some(s) => s,
        None => 0,
    }
}

} // verus!
