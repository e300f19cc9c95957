use candid::{Nat, Principal};
use kongbot::common_types::TradeError;
use kongbot::wallet::{
    balance_of, credit, debit, deposit, get_balance, get_wallet, init_wallet, withdraw, Ledger,
};

fn owner(tag: u8) -> Principal {
    Principal::from_slice(&[tag])
}

fn units(value: u64) -> Nat {
    Nat::from(value)
}

#[test]
fn balance_of_unknown_owner_is_zero() {
    let ledger = Ledger::new();
    assert_eq!(get_balance(&ledger, owner(1), "usd"), units(0));
}

#[test]
fn balance_of_unknown_token_is_zero() {
    let mut ledger = Ledger::new();
    deposit(&mut ledger, owner(1), "usd".to_string(), units(10), 1);
    assert_eq!(get_balance(&ledger, owner(1), "btc"), units(0));
}

#[test]
fn deposit_shows_in_balance_exactly_once() {
    let mut ledger = Ledger::new();
    let first = deposit(&mut ledger, owner(1), "usd".to_string(), units(10), 1);
    assert_eq!(first, units(10));
    assert_eq!(get_balance(&ledger, owner(1), "usd"), units(10));
    let second = deposit(&mut ledger, owner(1), "usd".to_string(), units(5), 2);
    assert_eq!(second, units(15));
    assert_eq!(get_balance(&ledger, owner(1), "usd"), units(15));
}

#[test]
fn deposit_of_zero_keeps_the_balance() {
    let mut ledger = Ledger::new();
    deposit(&mut ledger, owner(1), "usd".to_string(), units(7), 1);
    let after = deposit(&mut ledger, owner(1), "usd".to_string(), units(0), 2);
    assert_eq!(after, units(7));
    assert_eq!(get_balance(&ledger, owner(1), "usd"), units(7));
}

#[test]
fn deposit_touches_one_owner_and_one_token() {
    let mut ledger = Ledger::new();
    deposit(&mut ledger, owner(1), "usd".to_string(), units(10), 1);
    deposit(&mut ledger, owner(2), "usd".to_string(), units(3), 1);
    deposit(&mut ledger, owner(1), "btc".to_string(), units(4), 1);
    assert_eq!(get_balance(&ledger, owner(1), "usd"), units(10));
    assert_eq!(get_balance(&ledger, owner(2), "usd"), units(3));
    assert_eq!(get_balance(&ledger, owner(1), "btc"), units(4));
    assert_eq!(get_balance(&ledger, owner(2), "btc"), units(0));
}

#[test]
fn deposit_beyond_sixty_four_bits() {
    let mut ledger = Ledger::new();
    deposit(&mut ledger, owner(1), "usd".to_string(), Nat::from(u128::MAX), 1);
    let after = deposit(&mut ledger, owner(1), "usd".to_string(), Nat::from(u128::MAX), 2);
    assert_eq!(after, Nat::from(u128::MAX) + Nat::from(u128::MAX));
    assert_eq!(get_balance(&ledger, owner(1), "usd"), Nat::from(u128::MAX) + Nat::from(u128::MAX));
}

#[test]
fn withdraw_then_overdraw() {
    let mut ledger = Ledger::new();
    let a = owner(1);
    deposit(&mut ledger, a, "usd".to_string(), units(10), 1);
    assert_eq!(withdraw(&mut ledger, a, "usd".to_string(), units(5), 2), Ok(units(5)));
    assert_eq!(get_balance(&ledger, a, "usd"), units(5));
    assert_eq!(
        withdraw(&mut ledger, a, "usd".to_string(), units(6), 3),
        Err(TradeError::InsufficientBalance)
    );
    assert_eq!(get_balance(&ledger, a, "usd"), units(5));
}

#[test]
fn withdraw_of_the_whole_balance() {
    let mut ledger = Ledger::new();
    deposit(&mut ledger, owner(1), "usd".to_string(), units(10), 1);
    assert_eq!(withdraw(&mut ledger, owner(1), "usd".to_string(), units(10), 2), Ok(units(0)));
    assert_eq!(get_balance(&ledger, owner(1), "usd"), units(0));
}

#[test]
fn withdraw_of_zero_from_nothing() {
    let mut ledger = Ledger::new();
    assert_eq!(withdraw(&mut ledger, owner(1), "usd".to_string(), units(0), 2), Ok(units(0)));
}

#[test]
fn withdraw_from_unknown_owner_fails() {
    let mut ledger = Ledger::new();
    assert_eq!(
        withdraw(&mut ledger, owner(9), "usd".to_string(), units(1), 4),
        Err(TradeError::InsufficientBalance)
    );
    assert_eq!(get_balance(&ledger, owner(9), "usd"), units(0));
}

#[test]
fn refused_withdrawal_creates_the_wallet_and_lists_the_token() {
    let mut ledger = Ledger::new();
    let _ = withdraw(&mut ledger, owner(9), "USD".to_string(), units(1), 4);
    let wallet = get_wallet(&mut ledger, owner(9), 8);
    assert_eq!(wallet.owner, owner(9));
    assert_eq!(wallet.last_updated, 4);
    assert_eq!(wallet.balances.len(), 1);
    assert_eq!(wallet.balances[0].token, "usd");
    assert_eq!(wallet.balances[0].amount, units(0));
}

#[test]
fn refused_withdrawal_keeps_the_time_of_an_existing_wallet() {
    let mut ledger = Ledger::new();
    deposit(&mut ledger, owner(1), "usd".to_string(), units(2), 5);
    let _ = withdraw(&mut ledger, owner(1), "usd".to_string(), units(3), 9);
    assert_eq!(get_wallet(&mut ledger, owner(1), 10).last_updated, 5);
}

#[test]
fn token_symbols_ignore_case() {
    let mut ledger = Ledger::new();
    deposit(&mut ledger, owner(1), "USD".to_string(), units(10), 1);
    deposit(&mut ledger, owner(1), "Usd".to_string(), units(1), 2);
    assert_eq!(get_balance(&ledger, owner(1), "usd"), units(11));
    assert_eq!(get_balance(&ledger, owner(1), "uSD"), units(11));
    assert_eq!(balance_of(&ledger, owner(1), &"usd".to_string()), units(11));
    assert_eq!(balance_of(&ledger, owner(1), &"USD".to_string()), units(0));
    assert_eq!(withdraw(&mut ledger, owner(1), "USD".to_string(), units(11), 3), Ok(units(0)));
}

#[test]
fn credit_and_debit_take_the_key_as_given() {
    let mut ledger = Ledger::new();
    assert_eq!(credit(&mut ledger, owner(1), "USD".to_string(), &units(4), 1), units(4));
    assert_eq!(get_balance(&ledger, owner(1), "usd"), units(0));
    assert_eq!(balance_of(&ledger, owner(1), &"USD".to_string()), units(4));
    assert_eq!(debit(&mut ledger, owner(1), "USD".to_string(), &units(3), 2), Ok(units(1)));
    assert_eq!(
        debit(&mut ledger, owner(1), "USD".to_string(), &units(2), 3),
        Err(TradeError::InsufficientBalance)
    );
    assert_eq!(balance_of(&ledger, owner(1), &"USD".to_string()), units(1));
}

#[test]
fn deposit_and_withdraw_stamp_the_wallet() {
    let mut ledger = Ledger::new();
    deposit(&mut ledger, owner(1), "usd".to_string(), units(10), 100);
    assert_eq!(get_wallet(&mut ledger, owner(1), 150).last_updated, 100);
    let _ = withdraw(&mut ledger, owner(1), "usd".to_string(), units(1), 200);
    assert_eq!(get_wallet(&mut ledger, owner(1), 250).last_updated, 200);
}

#[test]
fn get_wallet_creates_an_empty_wallet() {
    let mut ledger = Ledger::new();
    let wallet = get_wallet(&mut ledger, owner(3), 42);
    assert_eq!(wallet.owner, owner(3));
    assert_eq!(wallet.last_updated, 42);
    assert!(wallet.balances.is_empty());
    let again = get_wallet(&mut ledger, owner(3), 77);
    assert_eq!(again.last_updated, 42);
}

#[test]
fn get_wallet_lists_the_balances() {
    let mut ledger = Ledger::new();
    deposit(&mut ledger, owner(1), "usd".to_string(), units(10), 1);
    deposit(&mut ledger, owner(1), "btc".to_string(), units(2), 2);
    let wallet = get_wallet(&mut ledger, owner(1), 3);
    assert_eq!(wallet.balances.len(), 2);
    assert_eq!(wallet.balances[0].token, "usd");
    assert_eq!(wallet.balances[0].amount, units(10));
    assert_eq!(wallet.balances[1].token, "btc");
    assert_eq!(wallet.balances[1].amount, units(2));
    assert_eq!(wallet.last_updated, 2);
}

#[test]
fn init_wallet_starts_over() {
    let mut ledger = Ledger::new();
    deposit(&mut ledger, owner(1), "usd".to_string(), units(10), 1);
    deposit(&mut ledger, owner(2), "usd".to_string(), units(6), 1);
    let wallet = init_wallet(&mut ledger, owner(1), 9);
    assert_eq!(wallet.owner, owner(1));
    assert_eq!(wallet.last_updated, 9);
    assert!(wallet.balances.is_empty());
    assert_eq!(get_balance(&ledger, owner(1), "usd"), units(0));
    assert_eq!(get_balance(&ledger, owner(2), "usd"), units(6));
}
