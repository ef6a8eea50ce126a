//! The vault itself: the three tables, the authorization gate in front
//! of the self-service operations, and the pure signal classifier.

use vstd::prelude::*;

use crate::table::keys_unique;
use crate::table::table_get;
use crate::table::balance_in;
use crate::table::sum_values;
use crate::table::lemma_table_get_present;
use crate::table::lemma_table_get_absent;
use crate::table::lemma_table_update_entry;
use crate::table::lemma_table_push_entry;
use crate::table::lemma_sum_update;
use crate::table::lemma_sum_push;
use crate::table::lemma_sum_take_step;

verus! {

/// An externally authenticated principal, reduced to the token the
/// ledger actually reads: an opaque number, compared only for equality.
#[derive(Clone, Copy, PartialEq, Eq, Structural, Debug)]
pub struct Identity {
    pub id: u64,
}

/// The opaque token under which one arbitrage observation is filed.
#[derive(Clone, Copy, PartialEq, Eq, Structural, Debug)]
pub struct ObservationId {
    pub id: u64,
}

/// A risk tier an identity can be classified into. Absence of a choice
/// is `Option::<StrategyTier>::None` at the table, not a tier of its own.
#[derive(Clone, Copy, PartialEq, Eq, Structural, Debug)]
pub enum StrategyTier {
    Conservative,
    Balanced,
    Aggressive,
}

/// The two ways a gated call can fail. Every other operation is total.
#[derive(Clone, Copy, PartialEq, Eq, Structural, Debug)]
pub enum VaultError {
    Unauthorized,
    InsufficientBalance,
}

/// One logged market observation: a spread percentage and a profit.
#[derive(Clone, Copy, PartialEq, Eq, Structural, Debug)]
pub struct ArbitrageLog {
    pub spread_percentage: i128,
    pub profit: i128,
}

/// The vault's whole state: balances, chosen strategies and the
/// observation log, each an association table with unique keys.
pub struct YieldVault {
    balances: Vec<(Identity, i128)>,
    strategies: Vec<(Identity, StrategyTier)>,
    arb_logs: Vec<(ObservationId, ArbitrageLog)>,
}

impl YieldVault {
    /// The balance table, as the sequence of its entries.
    pub closed spec fn balances_view(&self) -> Seq<(Identity, i128)> {
        self.balances@
    }

    /// The strategy table, as the sequence of its entries.
    pub closed spec fn strategies_view(&self) -> Seq<(Identity, StrategyTier)> {
        self.strategies@
    }

    /// The observation log, as the sequence of its entries.
    pub closed spec fn logs_view(&self) -> Seq<(ObservationId, ArbitrageLog)> {
        self.arb_logs@
    }

    /// Well-formedness: no identity or observation id is filed twice.
    pub open spec fn wf(&self) -> bool {
        keys_unique(self.balances_view()) && keys_unique(self.strategies_view())
            && keys_unique(self.logs_view())
    }

    /// An empty vault: no balances, no strategies, no observations.
    pub fn new() -> (v: YieldVault)
        ensures
            v.wf(),
            v.balances_view().len() == 0,
            v.strategies_view().len() == 0,
            v.logs_view().len() == 0,
            sum_values(v.balances_view()) == 0,
    {
        YieldVault { balances: Vec::new(), strategies: Vec::new(), arb_logs: Vec::new() }
    }

    /// Position of `user`'s balance entry, if one exists.
    fn find_balance(&self, user: Identity) -> (r: Option<usize>)
        ensures
            match r {
                Some(i) => i < self.balances_view().len() && self.balances_view()[i as int].0
                    == user,
                None => forall|j: int|
                    0 <= j < self.balances_view().len() ==> self.balances_view()[j].0 != user,
            },
    {
        let mut i: usize = 0;
        while i < self.balances.len()
            invariant
                i <= self.balances.len(),
                forall|j: int| 0 <= j < i ==> self.balances@[j].0 != user,
            decreases self.balances.len() - i,
        {
            if self.balances[i].0 == user {
                return Some(i);
            }
            i = i + 1;
        }
        None
    }

    /// The committed balance of `user`; an identity never seen holds 0.
    pub fn balance_of(&self, user: Identity) -> (r: i128)
        requires
            self.wf(),
        ensures
            r as int == balance_in(self.balances_view(), user),
    {
        match self.find_balance(user) {
            Some(i) => {
                proof {
                    lemma_table_get_present(self.balances@, user, i as int);
                }
                self.balances[i].1
            },
            None => {
                proof {
                    lemma_table_get_absent::<Identity, i128>(self.balances@, user);
                }
                0
            },
        }
    }

    /// Commit `value` as `user`'s balance, creating the entry on first
    /// reference; every other entry and both other tables are untouched.
    fn set_balance(&mut self, user: Identity, value: i128)
        requires
            old(self).wf(),
        ensures
            final(self).wf(),
            table_get(final(self).balances_view(), user) == Some(value),
            forall|k: Identity|
                k != user ==> table_get(final(self).balances_view(), k) == table_get(
                    old(self).balances_view(),
                    k,
                ),
            sum_values(final(self).balances_view()) == sum_values(old(self).balances_view())
                - balance_in(old(self).balances_view(), user) + value,
            final(self).strategies_view() == old(self).strategies_view(),
            final(self).logs_view() == old(self).logs_view(),
    {
        let ghost s = self.balances@;
        match self.find_balance(user) {
            Some(i) => {
                proof {
                    lemma_table_get_present(s, user, i as int);
                    lemma_table_update_entry(s, i as int, value);
                    lemma_sum_update(s, i as int, (user, value));
                }
                self.balances[i] = (user, value);
            },
            None => {
                proof {
                    lemma_table_get_absent::<Identity, i128>(s, user);
                    lemma_table_push_entry(s, user, value);
                    lemma_sum_push(s, (user, value));
                }
                self.balances.push((user, value));
            },
        }
    }

    /// Credit `amount` (of either sign — the design accepts zero and
    /// negative deposits and merely adds them) to `user`'s balance,
    /// provided the caller proved to be `user`; otherwise fail with
    /// `Unauthorized` and change nothing.
    pub fn deposit(&mut self, caller: Identity, user: Identity, amount: i128) -> (r: Result<
        (),
        VaultError,
    >)
        requires
            old(self).wf(),
            caller == user ==> i128::MIN <= balance_in(old(self).balances_view(), user) + amount
                <= i128::MAX,
        ensures
            final(self).wf(),
            caller != user ==> r == Err::<(), VaultError>(VaultError::Unauthorized) && *final(self)
                == *old(self),
            caller == user ==> {
                &&& r == Ok::<(), VaultError>(())
                &&& balance_in(final(self).balances_view(), user) == balance_in(
                    old(self).balances_view(),
                    user,
                ) + amount
                &&& forall|k: Identity|
                    k != user ==> balance_in(final(self).balances_view(), k) == balance_in(
                        old(self).balances_view(),
                        k,
                    )
                &&& sum_values(final(self).balances_view()) == sum_values(
                    old(self).balances_view(),
                ) + amount
                &&& final(self).strategies_view() == old(self).strategies_view()
                &&& final(self).logs_view() == old(self).logs_view()
            },
    {
        if caller != user {
            return Err(VaultError::Unauthorized);
        }
        let current = self.balance_of(user);
        self.set_balance(user, current + amount);
        Ok(())
    }

    /// Debit `amount` from `user`'s balance, provided the caller proved
    /// to be `user` and the balance covers it; an uncovered request
    /// fails with `InsufficientBalance`, an unproved caller with
    /// `Unauthorized`, and either failure leaves every table unchanged.
    /// A successful withdrawal never leaves the balance negative.
    pub fn withdraw(&mut self, caller: Identity, user: Identity, amount: i128) -> (r: Result<
        (),
        VaultError,
    >)
        requires
            old(self).wf(),
            caller == user && balance_in(old(self).balances_view(), user) >= amount ==> balance_in(
                old(self).balances_view(),
                user,
            ) - amount <= i128::MAX,
        ensures
            final(self).wf(),
            caller != user ==> r == Err::<(), VaultError>(VaultError::Unauthorized) && *final(self)
                == *old(self),
            caller == user && balance_in(old(self).balances_view(), user) < amount ==> r == Err::<
                (),
                VaultError,
            >(VaultError::InsufficientBalance) && *final(self) == *old(self),
            caller == user && balance_in(old(self).balances_view(), user) >= amount ==> {
                &&& r == Ok::<(), VaultError>(())
                &&& balance_in(final(self).balances_view(), user) == balance_in(
                    old(self).balances_view(),
                    user,
                ) - amount
                &&& balance_in(final(self).balances_view(), user) >= 0
                &&& forall|k: Identity|
                    k != user ==> balance_in(final(self).balances_view(), k) == balance_in(
                        old(self).balances_view(),
                        k,
                    )
                &&& sum_values(final(self).balances_view()) == sum_values(
                    old(self).balances_view(),
                ) - amount
                &&& final(self).strategies_view() == old(self).strategies_view()
                &&& final(self).logs_view() == old(self).logs_view()
            },
    {
        if caller != user {
            return Err(VaultError::Unauthorized);
        }
        let current = self.balance_of(user);
        if current < amount {
            return Err(VaultError::InsufficientBalance);
        }
        self.set_balance(user, current - amount);
        Ok(())
    }

    /// Credit `reward_amount` to `user`'s balance with no authorization
    /// check at all: the design keeps this path open for a privileged
    /// off-chain process, and this library preserves that gap as
    /// specified rather than inventing a gate the design does not have.
    pub fn reward_user(&mut self, user: Identity, reward_amount: i128)
        requires
            old(self).wf(),
            i128::MIN <= balance_in(old(self).balances_view(), user) + reward_amount <= i128::MAX,
        ensures
            final(self).wf(),
            balance_in(final(self).balances_view(), user) == balance_in(
                old(self).balances_view(),
                user,
            ) + reward_amount,
            forall|k: Identity|
                k != user ==> balance_in(final(self).balances_view(), k) == balance_in(
                    old(self).balances_view(),
                    k,
                ),
            sum_values(final(self).balances_view()) == sum_values(old(self).balances_view())
                + reward_amount,
            final(self).strategies_view() == old(self).strategies_view(),
            final(self).logs_view() == old(self).logs_view(),
    {
        let current = self.balance_of(user);
        self.set_balance(user, current + reward_amount);
    }

    /// The sum over all committed balances, recomputed by a full
    /// traversal of the table. The bound asks only what the machine
    /// forces: every partial sum the traversal forms must fit in an
    /// `i128`.
    pub fn total_deposits(&self) -> (r: i128)
        requires
            self.wf(),
            forall|k: int|
                0 <= k <= self.balances_view().len() ==> i128::MIN <= sum_values(
                    #[trigger] self.balances_view().take(k),
                ) <= i128::MAX,
        ensures
            r as int == sum_values(self.balances_view()),
    {
        proof {
            assert(self.balances@.take(0) =~= Seq::<(Identity, i128)>::empty());
        }
        let mut total: i128 = 0;
        let mut i: usize = 0;
        while i < self.balances.len()
            invariant
                i <= self.balances.len(),
                total as int == sum_values(self.balances@.take(i as int)),
                forall|k: int|
                    0 <= k <= self.balances@.len() ==> i128::MIN <= sum_values(
                        #[trigger] self.balances@.take(k),
                    ) <= i128::MAX,
            decreases self.balances.len() - i,
        {
            proof {
                lemma_sum_take_step(self.balances@, i as int);
            }
            total = total + self.balances[i].1;
            i = i + 1;
        }
        proof {
            assert(self.balances@.take(self.balances@.len() as int) =~= self.balances@);
        }
        total
    }

    /// The sum over all committed balances, with the traversal's
    /// overflow checked at run time instead of being demanded of the
    /// caller: `None` exactly when some partial sum of the traversal
    /// falls outside `i128`.
    pub fn try_total_deposits(&self) -> (r: Option<i128>)
        requires
            self.wf(),
        ensures
            match r {
                Some(t) => t as int == sum_values(self.balances_view()) && forall|k: int|
                    0 <= k <= self.balances_view().len() ==> i128::MIN <= sum_values(
                        #[trigger] self.balances_view().take(k),
                    ) <= i128::MAX,
                None => exists|k: int|
                    0 <= k <= self.balances_view().len() && !(i128::MIN <= sum_values(
                        #[trigger] self.balances_view().take(k),
                    ) <= i128::MAX),
            },
    {
        proof {
            assert(self.balances@.take(0) =~= Seq::<(Identity, i128)>::empty());
        }
        let mut total: i128 = 0;
        let mut i: usize = 0;
        while i < self.balances.len()
            invariant
                i <= self.balances.len(),
                total as int == sum_values(self.balances@.take(i as int)),
                forall|k: int|
                    0 <= k <= i ==> i128::MIN <= sum_values(#[trigger] self.balances@.take(k))
                        <= i128::MAX,
            decreases self.balances.len() - i,
        {
            proof {
                lemma_sum_take_step(self.balances@, i as int);
            }
            match total.checked_add(self.balances[i].1) {
                Some(t) => {
                    total = t;
                },
                None => {
                    proof {
                        assert(!(i128::MIN <= sum_values(
                            self.balances_view().take(i as int + 1),
                        ) <= i128::MAX));
                    }
                    return None;
                },
            }
            i = i + 1;
        }
        proof {
            assert(self.balances@.take(self.balances@.len() as int) =~= self.balances@);
        }
        Some(total)
    }

    /// Position of `user`'s strategy entry, if one exists.
    fn find_strategy(&self, user: Identity) -> (r: Option<usize>)
        ensures
            match r {
                Some(i) => i < self.strategies_view().len() && self.strategies_view()[i as int].0
                    == user,
                None => forall|j: int|
                    0 <= j < self.strategies_view().len() ==> self.strategies_view()[j].0 != user,
            },
    {
        let mut i: usize = 0;
        while i < self.strategies.len()
            invariant
                i <= self.strategies.len(),
                forall|j: int| 0 <= j < i ==> self.strategies@[j].0 != user,
            decreases self.strategies.len() - i,
        {
            if self.strategies[i].0 == user {
                return Some(i);
            }
            i = i + 1;
        }
        None
    }

    /// Overwrite `user`'s chosen tier, provided the caller proved to be
    /// `user`; otherwise fail with `Unauthorized` and change nothing.
    /// Any tier is accepted — the table never validates a choice
    /// against a signal.
    pub fn set_strategy(&mut self, caller: Identity, user: Identity, strategy: StrategyTier) -> (r:
        Result<(), VaultError>)
        requires
            old(self).wf(),
        ensures
            final(self).wf(),
            caller != user ==> r == Err::<(), VaultError>(VaultError::Unauthorized) && *final(self)
                == *old(self),
            caller == user ==> {
                &&& r == Ok::<(), VaultError>(())
                &&& table_get(final(self).strategies_view(), user) == Some(strategy)
                &&& forall|k: Identity|
                    k != user ==> table_get(final(self).strategies_view(), k) == table_get(
                        old(self).strategies_view(),
                        k,
                    )
                &&& final(self).balances_view() == old(self).balances_view()
                &&& final(self).logs_view() == old(self).logs_view()
            },
    {
        if caller != user {
            return Err(VaultError::Unauthorized);
        }
        let ghost s = self.strategies@;
        match self.find_strategy(user) {
            Some(i) => {
                proof {
                    lemma_table_update_entry(s, i as int, strategy);
                }
                self.strategies[i] = (user, strategy);
            },
            None => {
                proof {
                    lemma_table_push_entry(s, user, strategy);
                }
                self.strategies.push((user, strategy));
            },
        }
        Ok(())
    }

    /// The tier `user` chose, or `None` for an identity that never had
    /// one committed.
    pub fn get_strategy(&self, user: Identity) -> (r: Option<StrategyTier>)
        requires
            self.wf(),
        ensures
            r == table_get(self.strategies_view(), user),
    {
        match self.find_strategy(user) {
            Some(i) => {
                proof {
                    lemma_table_get_present(self.strategies@, user, i as int);
                }
                Some(self.strategies[i].1)
            },
            None => {
                proof {
                    lemma_table_get_absent::<Identity, StrategyTier>(self.strategies@, user);
                }
                None
            },
        }
    }

    /// Position of the observation filed under `id`, if one exists.
    fn find_log(&self, id: ObservationId) -> (r: Option<usize>)
        ensures
            match r {
                Some(i) => i < self.logs_view().len() && self.logs_view()[i as int].0 == id,
                None => forall|j: int|
                    0 <= j < self.logs_view().len() ==> self.logs_view()[j].0 != id,
            },
    {
        let mut i: usize = 0;
        while i < self.arb_logs.len()
            invariant
                i <= self.arb_logs.len(),
                forall|j: int| 0 <= j < i ==> self.arb_logs@[j].0 != id,
            decreases self.arb_logs.len() - i,
        {
            if self.arb_logs[i].0 == id {
                return Some(i);
            }
            i = i + 1;
        }
        None
    }

    /// File the observation `(spread_percentage, profit)` under `id`,
    /// silently overwriting whatever was filed there before — the log
    /// keeps no history. Open to any caller.
    pub fn log_arbitrage_opportunity(
        &mut self,
        id: ObservationId,
        spread_percentage: i128,
        profit: i128,
    )
        requires
            old(self).wf(),
        ensures
            final(self).wf(),
            table_get(final(self).logs_view(), id) == Some(
                ArbitrageLog { spread_percentage, profit },
            ),
            forall|k: ObservationId|
                k != id ==> table_get(final(self).logs_view(), k) == table_get(
                    old(self).logs_view(),
                    k,
                ),
            final(self).balances_view() == old(self).balances_view(),
            final(self).strategies_view() == old(self).strategies_view(),
    {
        let entry = ArbitrageLog { spread_percentage, profit };
        let ghost s = self.arb_logs@;
        match self.find_log(id) {
            Some(i) => {
                proof {
                    lemma_table_update_entry(s, i as int, entry);
                }
                self.arb_logs[i] = (id, entry);
            },
            None => {
                proof {
                    lemma_table_push_entry(s, id, entry);
                }
                self.arb_logs.push((id, entry));
            },
        }
    }

    /// The observation filed under `id`, or the ambiguous default
    /// `(0, 0)` for an id never filed — the design keeps that collision
    /// with a real zero-spread, zero-profit record.
    pub fn get_arbitrage_log(&self, id: ObservationId) -> (r: (i128, i128))
        requires
            self.wf(),
        ensures
            match table_get(self.logs_view(), id) {
                Some(entry) => r == (entry.spread_percentage, entry.profit),
                None => r == (0i128, 0i128),
            },
    {
        match self.find_log(id) {
            Some(i) => {
                proof {
                    lemma_table_get_present(self.arb_logs@, id, i as int);
                }
                let entry = self.arb_logs[i].1;
                (entry.spread_percentage, entry.profit)
            },
            None => {
                proof {
                    lemma_table_get_absent::<ObservationId, ArbitrageLog>(self.arb_logs@, id);
                }
                (0, 0)
            },
        }
    }

    /// The whole balance table, for a harness that persists it as one
    /// value — the store holds tables whole and rewrites them whole.
    pub fn balance_entries(&self) -> (r: &Vec<(Identity, i128)>)
        ensures
            r@ == self.balances_view(),
    {
        &self.balances
    }

    /// The whole strategy table, for a harness that persists it as one
    /// value.
    pub fn strategy_entries(&self) -> (r: &Vec<(Identity, StrategyTier)>)
        ensures
            r@ == self.strategies_view(),
    {
        &self.strategies
    }

    /// The whole observation log, for a harness that persists it as one
    /// value.
    pub fn log_entries(&self) -> (r: &Vec<(ObservationId, ArbitrageLog)>)
        ensures
            r@ == self.logs_view(),
    {
        &self.arb_logs
    }

    /// The pure classifier from an observed spread signal to a tier:
    /// below 20 conservative, from 20 below 50 balanced, from 50 up
    /// aggressive.
    pub fn select_strategy(spread_percentage: i128) -> (r: StrategyTier)
        ensures
            spread_percentage < 20 ==> r == StrategyTier::Conservative,
            20 <= spread_percentage < 50 ==> r == StrategyTier::Balanced,
            spread_percentage >= 50 ==> r == StrategyTier::Aggressive,
    {
        if spread_percentage < 20 {
            StrategyTier::Conservative
        } else if spread_percentage < 50 {
            StrategyTier::Balanced
        } else {
            StrategyTier::Aggressive
        }
    }
}

} // verus!
