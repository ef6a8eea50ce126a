//! The library's laws: statements that relate several operations, or a
//! whole history of calls, proved once and for all over the same spec
//! functions the operations' contracts use.

use vstd::prelude::*;

use crate::table::balance_in;
use crate::table::keys_unique;
use crate::table::sum_values;
use crate::table::table_get;
use crate::table::lemma_table_get_present;
use crate::vault::Identity;
use crate::vault::StrategyTier;
use crate::vault::YieldVault;

verus! {

/// One ledger movement on a single identity, by its signed delta.
pub enum LedgerOp {
    Deposit { amount: i128 },
    Withdraw { amount: i128 },
}

/// How one movement relates the balance before it to the balance after
/// it when it does not fail: exactly what `deposit` and a successful
/// `withdraw` ensure of `balance_in` for the moved identity.
pub open spec fn ledger_step(before: int, op: LedgerOp, after: int) -> bool {
    match op {
        LedgerOp::Deposit { amount } => after == before + amount,
        LedgerOp::Withdraw { amount } => before >= amount && after == before - amount,
    }
}

/// The net sum of signed deltas of a sequence of movements.
pub open spec fn net_delta(ops: Seq<LedgerOp>) -> int
    decreases ops.len(),
{
    if ops.len() == 0 {
        0
    } else {
        net_delta(ops.drop_last()) + match ops.last() {
            LedgerOp::Deposit { amount } => amount as int,
            LedgerOp::Withdraw { amount } => -(amount as int),
        }
    }
}

/// Law: over any sequence of deposits and withdrawals on one identity
/// in which no call fails, the balance read at the end equals the
/// balance at the start plus the net sum of the signed deltas applied.
/// `balances[i]` is the identity's balance before the `i`-th movement.
pub proof fn lemma_balance_is_net_of_deltas(balances: Seq<int>, ops: Seq<LedgerOp>)
    requires
        balances.len() == ops.len() + 1,
        forall|i: int|
            0 <= i < ops.len() ==> #[trigger] ledger_step(balances[i], ops[i], balances[i + 1]),
    ensures
        balances.last() == balances[0] + net_delta(ops),
    decreases ops.len(),
{
    if ops.len() > 0 {
        lemma_balance_is_net_of_deltas(balances.drop_last(), ops.drop_last());
        assert(ledger_step(balances[ops.len() - 1], ops[ops.len() - 1], balances[ops.len() as int]));
    }
}

/// The keys of a table, in entry order.
pub open spec fn keys_of<K, V>(s: Seq<(K, V)>) -> Seq<K> {
    s.map_values(|p: (K, V)| p.0)
}

/// The sum of the balances read for each listed identity.
pub open spec fn sum_balances_of<K>(ids: Seq<K>, s: Seq<(K, i128)>) -> int
    decreases ids.len(),
{
    if ids.len() == 0 {
        0
    } else {
        sum_balances_of(ids.drop_last(), s) + balance_in(s, ids.last())
    }
}

proof fn lemma_sum_balances_skip_last<K>(ids: Seq<K>, s: Seq<(K, i128)>)
    requires
        s.len() > 0,
        forall|j: int| 0 <= j < ids.len() ==> ids[j] != s.last().0,
    ensures
        sum_balances_of(ids, s) == sum_balances_of(ids, s.drop_last()),
    decreases ids.len(),
{
    if ids.len() > 0 {
        lemma_sum_balances_skip_last(ids.drop_last(), s);
    }
}

/// Law, table form: in a table with unique keys, summing the balance
/// read for each key gives the sum of all stored values.
pub proof fn lemma_sum_over_keys<K>(s: Seq<(K, i128)>)
    requires
        keys_unique(s),
    ensures
        sum_balances_of(keys_of(s), s) == sum_values(s),
    decreases s.len(),
{
    if s.len() > 0 {
        let ids = keys_of(s);
        assert(ids.drop_last() =~= keys_of(s.drop_last()));
        lemma_table_get_present(s, s.last().0, s.len() - 1);
        lemma_sum_balances_skip_last(keys_of(s.drop_last()), s);
        lemma_sum_over_keys(s.drop_last());
    }
}

/// Law: what `total_deposits` returns always equals the sum of
/// `balance_of` over every identity ever touched — the identities in
/// the balance table; an identity never touched reads 0 and moves no
/// sum.
pub proof fn lemma_total_deposits_is_sum_of_balances(v: YieldVault)
    requires
        v.wf(),
    ensures
        sum_values(v.balances_view()) == sum_balances_of(
            keys_of(v.balances_view()),
            v.balances_view(),
        ),
{
    lemma_sum_over_keys(v.balances_view());
}

/// When every balance read is nonnegative, every stored value is too:
/// each entry is exactly what its key reads back.
pub proof fn lemma_entries_nonneg<K>(s: Seq<(K, i128)>)
    requires
        keys_unique(s),
        forall|k: K| #[trigger] balance_in(s, k) >= 0,
    ensures
        forall|i: int| 0 <= i < s.len() ==> #[trigger] s[i].1 >= 0,
{
    assert forall|i: int| 0 <= i < s.len() implies #[trigger] s[i].1 >= 0 by {
        lemma_table_get_present(s, s[i].0, i);
        assert(balance_in(s, s[i].0) >= 0);
    }
}

/// In the regime the design intends — no committed balance negative —
/// every partial sum of the balance traversal sits between 0 and the
/// grand total, so `total_deposits` meets its machine bound whenever
/// the grand total itself fits.
pub proof fn lemma_prefix_sums_bounded<K>(s: Seq<(K, i128)>, k: int)
    requires
        forall|i: int| 0 <= i < s.len() ==> #[trigger] s[i].1 >= 0,
        0 <= k <= s.len(),
    ensures
        0 <= sum_values(s.take(k)) <= sum_values(s),
    decreases s.len(),
{
    if s.len() == 0 {
        assert(s.take(k) =~= s);
    } else if k == s.len() {
        assert(s.take(k) =~= s);
        lemma_prefix_sums_bounded(s.drop_last(), s.len() - 1);
        assert(s.drop_last().take(s.len() - 1) =~= s.drop_last());
    } else {
        assert(s.take(k) =~= s.drop_last().take(k));
        lemma_prefix_sums_bounded(s.drop_last(), k);
    }
}

/// Law: an identity that never had a strategy committed reads `None`.
/// `history[0]` is the strategy table of a fresh vault — empty — and
/// every later table follows by one operation that leaves the
/// identity's lookup as it was, which is what each operation other than
/// `set_strategy` for that identity ensures.
pub proof fn lemma_never_set_strategy_reads_none(
    history: Seq<Seq<(Identity, StrategyTier)>>,
    user: Identity,
)
    requires
        history.len() > 0,
        history[0].len() == 0,
        forall|i: int|
            0 <= i < history.len() - 1 ==> #[trigger] table_get(history[i + 1], user) == table_get(
                history[i],
                user,
            ),
    ensures
        table_get(history.last(), user) == None::<StrategyTier>,
    decreases history.len(),
{
    if history.len() > 1 {
        let prev = history.drop_last();
        assert forall|i: int|
            0 <= i < prev.len() - 1 implies #[trigger] table_get(prev[i + 1], user) == table_get(
            prev[i],
            user,
        ) by {
            assert(table_get(history[i + 1], user) == table_get(history[i], user));
        }
        lemma_never_set_strategy_reads_none(prev, user);
        let n = history.len() - 2;
        assert(table_get(history[n + 1], user) == table_get(history[n], user));
    }
}

} // verus!
