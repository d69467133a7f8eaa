use prediction_market::engine::{accept_stake, declare, designate, known, register, settle};
use prediction_market::error::MarketError;
use prediction_market::prediction::Prediction;
use soroban_sdk::testutils::EnvTestConfig;
use soroban_sdk::{Env, IntoVal, TryFromVal, Val};

fn bare_env() -> Env {
    Env::new_with_config(EnvTestConfig { capture_snapshot_at_drop: false })
}

fn open_with(yes_amount: i128, no_amount: i128) -> Prediction {
    Prediction { id: 3, yes_amount, no_amount, resolved: false, result: false }
}

#[test]
fn designate_once() {
    assert_eq!(designate(false), Ok(()));
    assert_eq!(designate(true), Err(MarketError::AlreadyInitialized));
}

#[test]
fn register_decides_by_what_is_stored() {
    assert_eq!(register(true, None, 3), Ok(open_with(0, 0)));
    assert_eq!(register(false, None, 3), Err(MarketError::Unauthorized));
    assert_eq!(register(true, Some(open_with(5, 0)), 3), Err(MarketError::AlreadyExists));
    assert_eq!(register(false, Some(open_with(5, 0)), 3), Err(MarketError::Unauthorized));
}

#[test]
fn accept_stake_updates_pool_and_history_together() {
    let env = bare_env();
    let mut bets: soroban_sdk::Vec<(bool, i128)> = soroban_sdk::Vec::new(&env);
    let first = accept_stake(true, Some(open_with(0, 0)), &mut bets, true, 50).unwrap();
    assert_eq!(first, open_with(50, 0));
    let second = accept_stake(true, Some(first), &mut bets, true, 70).unwrap();
    assert_eq!(second, open_with(120, 0));
    let third = accept_stake(true, Some(second), &mut bets, false, 9).unwrap();
    assert_eq!(third, open_with(120, 9));
    assert_eq!(bets.len(), 3);
    assert_eq!(bets.get(0), Some((true, 50)));
    assert_eq!(bets.get(1), Some((true, 70)));
    assert_eq!(bets.get(2), Some((false, 9)));
}

#[test]
fn accept_stake_refusals_leave_the_history() {
    let env = bare_env();
    let mut bets: soroban_sdk::Vec<(bool, i128)> = soroban_sdk::Vec::new(&env);
    let open = open_with(i128::MAX - 10, 4);
    let closed = Prediction { resolved: true, ..open };
    let b = &mut bets;
    assert_eq!(accept_stake(false, Some(open), b, true, 5), Err(MarketError::Unauthorized));
    assert_eq!(accept_stake(true, None, b, true, 5), Err(MarketError::NotFound));
    assert_eq!(accept_stake(true, Some(closed), b, true, 5), Err(MarketError::MarketClosed));
    assert_eq!(accept_stake(true, Some(closed), b, true, 0), Err(MarketError::MarketClosed));
    assert_eq!(accept_stake(true, Some(open), b, true, 0), Err(MarketError::InvalidAmount));
    assert_eq!(accept_stake(true, Some(open), b, false, -1), Err(MarketError::InvalidAmount));
    assert_eq!(accept_stake(true, Some(open), b, true, 11), Err(MarketError::Overflow));
    assert_eq!(bets.len(), 0);
    assert_eq!(accept_stake(true, Some(open), &mut bets, true, 10), Ok(open_with(i128::MAX, 4)));
    assert_eq!(bets.len(), 1);
}

#[test]
fn declare_decides_by_what_is_stored() {
    let open = open_with(100, 300);
    let yes = Prediction { resolved: true, result: true, ..open };
    let no = Prediction { resolved: true, result: false, ..open };
    assert_eq!(declare(true, Some(open), true), Ok(yes));
    assert_eq!(declare(true, Some(open), false), Ok(no));
    assert_eq!(declare(false, Some(open), true), Err(MarketError::Unauthorized));
    assert_eq!(declare(true, None, true), Err(MarketError::NotFound));
    assert_eq!(declare(true, Some(yes), false), Err(MarketError::AlreadyResolved));
    assert_eq!(declare(true, Some(no), false), Err(MarketError::AlreadyResolved));
}

#[test]
fn settle_computes_the_share() {
    let env = bare_env();
    let mut bets: soroban_sdk::Vec<(bool, i128)> = soroban_sdk::Vec::new(&env);
    let resolved = Prediction { resolved: true, result: true, ..open_with(100, 300) };
    assert_eq!(settle(Some(resolved), &bets), Ok(0));
    bets.push_back((true, 100));
    assert_eq!(settle(Some(resolved), &bets), Ok(400));
    assert_eq!(settle(None, &bets), Err(MarketError::NotFound));
}

#[test]
fn settle_refuses_a_history_with_a_triple() {
    let env = bare_env();
    let mut raw: soroban_sdk::Vec<Val> = soroban_sdk::Vec::new(&env);
    raw.push_back((true, 100i128).into_val(&env));
    raw.push_back((true, 5i128, 1u32).into_val(&env));
    let bets = soroban_sdk::Vec::<(bool, i128)>::try_from_val(&env, &raw.to_val()).unwrap();
    let resolved = Prediction { resolved: true, result: true, ..open_with(100, 300) };
    assert_eq!(settle(Some(resolved), &bets), Err(MarketError::InvalidAmount));
    let refund = Prediction { resolved: true, result: false, ..open_with(100, 0) };
    assert_eq!(settle(Some(refund), &bets), Err(MarketError::InvalidAmount));
}

#[test]
fn known_is_what_the_store_holds() {
    assert_eq!(known(Some(open_with(1, 2))), Ok(open_with(1, 2)));
    assert_eq!(known(None), Err(MarketError::NotFound));
}
