use yield_vault::ArbitrageLog;
use yield_vault::Identity;
use yield_vault::ObservationId;
use yield_vault::StrategyTier;
use yield_vault::VaultError;
use yield_vault::YieldVault;

fn user(n: u64) -> Identity {
    Identity { id: n }
}

#[test]
fn test_deposit_and_balance() {
    let mut vault = YieldVault::new();
    let a = user(1);
    vault.deposit(a, a, 600).unwrap();
    let balance = vault.balance_of(a);
    assert_eq!(balance, 600);
}

#[test]
fn test_multiple_deposits() {
    let mut vault = YieldVault::new();
    let a = user(1);
    vault.deposit(a, a, 300).unwrap();
    vault.deposit(a, a, 200).unwrap();
    let balance = vault.balance_of(a);
    assert_eq!(balance, 500);
}

#[test]
fn test_empty_balance() {
    let vault = YieldVault::new();
    let a = user(1);
    let balance = vault.balance_of(a);
    assert_eq!(balance, 0);
}

#[test]
fn test_withdraw_success() {
    let mut vault = YieldVault::new();
    let a = user(1);
    vault.deposit(a, a, 600).unwrap();
    vault.withdraw(a, a, 250).unwrap();
    assert_eq!(vault.balance_of(a), 350);
}

#[test]
fn test_withdraw_insufficient_balance() {
    let mut vault = YieldVault::new();
    let a = user(1);
    vault.deposit(a, a, 100).unwrap();
    let r = vault.withdraw(a, a, 150);
    assert_eq!(r, Err(VaultError::InsufficientBalance));
    assert_eq!(vault.balance_of(a), 100);
}

#[test]
fn test_withdraw_from_empty_fails() {
    let mut vault = YieldVault::new();
    let a = user(1);
    let r = vault.withdraw(a, a, 1);
    assert_eq!(r, Err(VaultError::InsufficientBalance));
    assert_eq!(vault.balance_of(a), 0);
}

#[test]
fn test_withdraw_whole_balance_leaves_zero() {
    let mut vault = YieldVault::new();
    let a = user(1);
    vault.deposit(a, a, 75).unwrap();
    vault.withdraw(a, a, 75).unwrap();
    assert_eq!(vault.balance_of(a), 0);
}

#[test]
fn test_deposit_unauthorized() {
    let mut vault = YieldVault::new();
    let a = user(1);
    let intruder = user(2);
    let r = vault.deposit(intruder, a, 600);
    assert_eq!(r, Err(VaultError::Unauthorized));
    assert_eq!(vault.balance_of(a), 0);
    assert_eq!(vault.balance_of(intruder), 0);
}

#[test]
fn test_withdraw_unauthorized() {
    let mut vault = YieldVault::new();
    let a = user(1);
    let intruder = user(2);
    vault.deposit(a, a, 500).unwrap();
    let r = vault.withdraw(intruder, a, 100);
    assert_eq!(r, Err(VaultError::Unauthorized));
    assert_eq!(vault.balance_of(a), 500);
}

#[test]
fn test_set_strategy_unauthorized() {
    let mut vault = YieldVault::new();
    let a = user(1);
    let intruder = user(2);
    let r = vault.set_strategy(intruder, a, StrategyTier::Aggressive);
    assert_eq!(r, Err(VaultError::Unauthorized));
    assert_eq!(vault.get_strategy(a), None);
}

#[test]
fn test_reward_needs_no_authorization() {
    let mut vault = YieldVault::new();
    let a = user(1);
    vault.reward_user(a, 50);
    assert_eq!(vault.balance_of(a), 50);
}

#[test]
fn test_negative_deposit_is_accepted() {
    // The design does not enforce a positive amount: a negative
    // deposit merely adds to the stored balance.
    let mut vault = YieldVault::new();
    let a = user(1);
    vault.deposit(a, a, -50).unwrap();
    assert_eq!(vault.balance_of(a), -50);
}

#[test]
fn test_total_deposits_over_several_identities() {
    let mut vault = YieldVault::new();
    let a = user(1);
    let b = user(2);
    let c = user(3);
    vault.deposit(a, a, 300).unwrap();
    vault.deposit(b, b, 200).unwrap();
    vault.reward_user(c, 25);
    vault.withdraw(a, a, 100).unwrap();
    assert_eq!(vault.total_deposits(), 425);
    assert_eq!(vault.try_total_deposits(), Some(425));
}

#[test]
fn test_total_deposits_empty() {
    let vault = YieldVault::new();
    assert_eq!(vault.total_deposits(), 0);
}

#[test]
fn test_select_strategy_bands() {
    assert_eq!(YieldVault::select_strategy(19), StrategyTier::Conservative);
    assert_eq!(YieldVault::select_strategy(20), StrategyTier::Balanced);
    assert_eq!(YieldVault::select_strategy(49), StrategyTier::Balanced);
    assert_eq!(YieldVault::select_strategy(50), StrategyTier::Aggressive);
    assert_eq!(YieldVault::select_strategy(-7), StrategyTier::Conservative);
    assert_eq!(YieldVault::select_strategy(i128::MAX), StrategyTier::Aggressive);
}

#[test]
fn test_get_strategy_defaults_to_none() {
    let vault = YieldVault::new();
    assert_eq!(vault.get_strategy(user(1)), None);
}

#[test]
fn test_set_and_get_strategy() {
    let mut vault = YieldVault::new();
    let a = user(1);
    let b = user(2);
    vault.set_strategy(a, a, StrategyTier::Balanced).unwrap();
    assert_eq!(vault.get_strategy(a), Some(StrategyTier::Balanced));
    assert_eq!(vault.get_strategy(b), None);
    vault.set_strategy(a, a, StrategyTier::Aggressive).unwrap();
    assert_eq!(vault.get_strategy(a), Some(StrategyTier::Aggressive));
}

#[test]
fn test_arbitrage_log_overwrites() {
    let mut vault = YieldVault::new();
    let id = ObservationId { id: 9 };
    assert_eq!(vault.get_arbitrage_log(id), (0, 0));
    vault.log_arbitrage_opportunity(id, 30, 7);
    assert_eq!(vault.get_arbitrage_log(id), (30, 7));
    vault.log_arbitrage_opportunity(id, 10, 2);
    assert_eq!(vault.get_arbitrage_log(id), (10, 2));
}

#[test]
fn test_arbitrage_log_keeps_other_ids() {
    let mut vault = YieldVault::new();
    let first = ObservationId { id: 1 };
    let second = ObservationId { id: 2 };
    vault.log_arbitrage_opportunity(first, 30, 7);
    vault.log_arbitrage_opportunity(second, 55, 40);
    assert_eq!(vault.get_arbitrage_log(first), (30, 7));
    assert_eq!(vault.get_arbitrage_log(second), (55, 40));
}

#[test]
fn test_operations_touch_only_their_table() {
    let mut vault = YieldVault::new();
    let a = user(1);
    let id = ObservationId { id: 3 };
    vault.deposit(a, a, 40).unwrap();
    vault.set_strategy(a, a, StrategyTier::Conservative).unwrap();
    vault.log_arbitrage_opportunity(id, 21, 4);
    assert_eq!(vault.balance_of(a), 40);
    assert_eq!(vault.get_strategy(a), Some(StrategyTier::Conservative));
    assert_eq!(vault.get_arbitrage_log(id), (21, 4));
}

#[test]
fn test_entry_accessors_expose_whole_tables() {
    let mut vault = YieldVault::new();
    let a = user(1);
    let id = ObservationId { id: 6 };
    vault.deposit(a, a, 11).unwrap();
    vault.set_strategy(a, a, StrategyTier::Balanced).unwrap();
    vault.log_arbitrage_opportunity(id, 33, 5);
    assert_eq!(vault.balance_entries().as_slice(), &[(a, 11)]);
    assert_eq!(vault.strategy_entries().as_slice(), &[(a, StrategyTier::Balanced)]);
    assert_eq!(
        vault.log_entries().as_slice(),
        &[(id, ArbitrageLog { spread_percentage: 33, profit: 5 })]
    );
}
