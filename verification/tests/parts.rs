use prediction_market::amount::{add, mul_div};
use prediction_market::error::MarketError;
use prediction_market::prediction::Prediction;
use prediction_market::stakes::{append_bet, read_stake, side_sum};
use soroban_sdk::testutils::EnvTestConfig;
use soroban_sdk::{Env, IntoVal, TryFromVal, Val};

fn plain_env() -> Env {
    Env::new_with_config(EnvTestConfig { capture_snapshot_at_drop: false })
}

fn history(env: &Env, stakes: &[(bool, i128)]) -> soroban_sdk::Vec<(bool, i128)> {
    let mut bets: soroban_sdk::Vec<(bool, i128)> = soroban_sdk::Vec::new(env);
    for (side, amount) in stakes {
        assert_eq!(append_bet(&mut bets, *side, *amount), Ok(()));
    }
    bets
}

/// A history with a stake, then `odd`, then another stake.
fn history_around(env: &Env, odd: Val) -> soroban_sdk::Vec<(bool, i128)> {
    let mut raw: soroban_sdk::Vec<Val> = soroban_sdk::Vec::new(env);
    raw.push_back((true, 5i128).into_val(env));
    raw.push_back(odd);
    raw.push_back((false, 9i128).into_val(env));
    soroban_sdk::Vec::<(bool, i128)>::try_from_val(env, &raw.to_val()).unwrap()
}

/// A history whose second item is a number where a stake should be.
fn damaged_history(env: &Env) -> soroban_sdk::Vec<(bool, i128)> {
    history_around(env, 7u32.into_val(env))
}

/// Values that are no stake: of another type, vectors of another length, and
/// pairs with a field of another type.
fn odd_values(env: &Env) -> [Val; 8] {
    let empty: soroban_sdk::Vec<Val> = soroban_sdk::Vec::new(env);
    [
        7u32.into_val(env),
        true.into_val(env),
        5i128.into_val(env),
        empty.to_val(),
        (true,).into_val(env),
        (true, 5i128, 1u32).into_val(env),
        (5i128, true).into_val(env),
        (true, 5u64).into_val(env),
    ]
}

#[test]
fn add_sums_amounts() {
    assert_eq!(add(0, 0), Ok(0));
    assert_eq!(add(100, 300), Ok(400));
    assert_eq!(add(i128::MAX - 1, 1), Ok(i128::MAX));
    assert_eq!(add(i128::MAX, 0), Ok(i128::MAX));
}

#[test]
fn add_refuses_overflow_and_negatives() {
    assert_eq!(add(i128::MAX, 1), Err(MarketError::Overflow));
    assert_eq!(add(i128::MAX, i128::MAX), Err(MarketError::Overflow));
    assert_eq!(add(-1, 5), Err(MarketError::InvalidAmount));
    assert_eq!(add(5, -1), Err(MarketError::InvalidAmount));
    assert_eq!(add(i128::MIN, i128::MAX), Err(MarketError::InvalidAmount));
}

#[test]
fn mul_div_small_values() {
    assert_eq!(mul_div(100, 400, 100), Some(400));
    assert_eq!(mul_div(0, 400, 100), Some(0));
    assert_eq!(mul_div(7, 0, 3), Some(0));
    assert_eq!(mul_div(2, 11, 7), Some(3));
    assert_eq!(mul_div(5, 11, 7), Some(7));
    assert_eq!(mul_div(1, 1, 2), Some(0));
    assert_eq!(mul_div(3, 5, 1), Some(15));
    assert_eq!(mul_div(10, 10, 3), Some(33));
}

#[test]
fn mul_div_large_values() {
    let big: u128 = 1 << 100;
    assert_eq!(mul_div(big, big, big), Some(big));
    assert_eq!(mul_div(u128::MAX, u128::MAX, u128::MAX), Some(u128::MAX));
    assert_eq!(mul_div(u128::MAX, 2, 2), Some(u128::MAX));
    assert_eq!(mul_div(u128::MAX, 3, 4), Some(255211775190703847597530955573826158591));
    assert_eq!(mul_div(u128::MAX - 1, u128::MAX - 2, u128::MAX), Some(u128::MAX - 3));
    assert_eq!(
        mul_div(123456789012345678901234567890, 987654321098765432109876543210, 1000000007),
        None
    );
    assert_eq!(
        mul_div(
            123456789012345678901234567890,
            987654321098765432109876543210,
            1000000000000000000000000000000
        ),
        Some(121932631137021795226185032733)
    );
}

#[test]
fn mul_div_quotient_out_of_range() {
    assert_eq!(mul_div(u128::MAX, 2, 1), None);
    assert_eq!(mul_div(u128::MAX, u128::MAX, 1), None);
    assert_eq!(mul_div(1 << 127, 2, 1), None);
    assert_eq!(mul_div(1 << 127, 4, 2), None);
    assert_eq!(mul_div(1 << 64, 1 << 64, 1), None);
    assert_eq!(mul_div((1 << 64) - 1, (1 << 64) + 1, 1), Some(u128::MAX));
}

#[test]
fn append_bet_keeps_earlier_stakes() {
    let env = plain_env();
    let mut bets: soroban_sdk::Vec<(bool, i128)> = soroban_sdk::Vec::new(&env);
    assert_eq!(append_bet(&mut bets, true, 50), Ok(()));
    assert_eq!(append_bet(&mut bets, false, 70), Ok(()));
    assert_eq!(append_bet(&mut bets, true, 0), Err(MarketError::InvalidAmount));
    assert_eq!(append_bet(&mut bets, true, -3), Err(MarketError::InvalidAmount));
    assert_eq!(bets.len(), 2);
    assert_eq!(bets.get(0), Some((true, 50)));
    assert_eq!(bets.get(1), Some((false, 70)));
}

#[test]
fn side_sum_adds_one_side() {
    let env = plain_env();
    let bets = history(&env, &[(true, 50), (false, 7), (true, 70), (false, 1)]);
    assert_eq!(side_sum(&bets, true), Ok(120));
    assert_eq!(side_sum(&bets, false), Ok(8));
    let empty = history(&env, &[]);
    assert_eq!(side_sum(&empty, true), Ok(0));
    assert_eq!(side_sum(&empty, false), Ok(0));
}

#[test]
fn side_sum_refuses_overflow() {
    let env = plain_env();
    let bets = history(&env, &[(true, i128::MAX), (false, 3), (true, 1)]);
    assert_eq!(side_sum(&bets, true), Err(MarketError::Overflow));
    assert_eq!(side_sum(&bets, false), Ok(3));
}

#[test]
fn side_sum_refuses_a_damaged_history() {
    let env = plain_env();
    let bets = damaged_history(&env);
    assert_eq!(bets.len(), 3);
    assert_eq!(side_sum(&bets, true), Err(MarketError::InvalidAmount));
    assert_eq!(side_sum(&bets, false), Err(MarketError::InvalidAmount));
}

#[test]
fn side_sum_refuses_every_item_that_is_no_stake() {
    let env = plain_env();
    for odd in odd_values(&env) {
        let bets = history_around(&env, odd);
        assert_eq!(bets.len(), 3);
        assert_eq!(side_sum(&bets, true), Err(MarketError::InvalidAmount));
        assert_eq!(side_sum(&bets, false), Err(MarketError::InvalidAmount));
    }
}

#[test]
fn read_stake_reads_pairs_only() {
    let env = plain_env();
    let big: i128 = i128::MAX - 3;
    let mut raw: soroban_sdk::Vec<Val> = soroban_sdk::Vec::new(&env);
    raw.push_back((true, 5i128).into_val(&env));
    raw.push_back((false, big).into_val(&env));
    raw.push_back((false, -2i128).into_val(&env));
    raw.push_back((true, i128::MIN).into_val(&env));
    assert_eq!(read_stake(&raw, 0), Some((true, 5)));
    assert_eq!(read_stake(&raw, 1), Some((false, big)));
    assert_eq!(read_stake(&raw, 2), Some((false, -2)));
    assert_eq!(read_stake(&raw, 3), Some((true, i128::MIN)));
    assert_eq!(read_stake(&raw, 4), None);
    assert_eq!(read_stake(&raw, u32::MAX), None);
    let mut odd: soroban_sdk::Vec<Val> = soroban_sdk::Vec::new(&env);
    for value in odd_values(&env) {
        odd.push_back(value);
    }
    for i in 0..odd.len() {
        assert_eq!(read_stake(&odd, i), None);
    }
}

#[test]
fn side_sum_refuses_an_amount_that_is_not_positive() {
    let env = plain_env();
    let mut bets: soroban_sdk::Vec<(bool, i128)> = soroban_sdk::Vec::new(&env);
    bets.push_back((true, 5));
    bets.push_back((false, 0));
    assert_eq!(side_sum(&bets, true), Err(MarketError::InvalidAmount));
    let mut negative: soroban_sdk::Vec<(bool, i128)> = soroban_sdk::Vec::new(&env);
    negative.push_back((true, i128::MAX));
    negative.push_back((true, 1));
    negative.push_back((false, -1));
    // a malformed stake outweighs the overflow before it
    assert_eq!(side_sum(&negative, true), Err(MarketError::InvalidAmount));
}

#[test]
fn prediction_starts_open_and_empty() {
    let p = Prediction::new(7);
    let fresh = Prediction { id: 7, yes_amount: 0, no_amount: 0, resolved: false, result: false };
    assert_eq!(p, fresh);
    assert!(p.is_well_formed());
    let broken = Prediction { id: 7, yes_amount: -1, no_amount: 0, resolved: false, result: false };
    assert!(!broken.is_well_formed());
}

#[test]
fn prediction_stake_fills_the_pool_of_its_side() {
    let mut p = Prediction::new(7);
    assert_eq!(p.stake(true, 100), Ok(()));
    assert_eq!(p.stake(false, 300), Ok(()));
    assert_eq!(p.stake(true, 20), Ok(()));
    assert_eq!(p.yes_amount, 120);
    assert_eq!(p.no_amount, 300);
    assert_eq!(p.stake(true, 0), Err(MarketError::InvalidAmount));
    assert_eq!(p.stake(false, -1), Err(MarketError::InvalidAmount));
    assert_eq!(p.stake(true, i128::MAX - 119), Err(MarketError::Overflow));
    assert_eq!(p.stake(true, i128::MAX - 120), Ok(()));
    assert_eq!(p.yes_amount, i128::MAX);
    assert_eq!(p.no_amount, 300);
    assert!(!p.resolved);
}

#[test]
fn prediction_resolves_once() {
    let mut p = Prediction::new(7);
    assert_eq!(p.stake(true, 100), Ok(()));
    assert_eq!(p.resolve(false), Ok(()));
    assert!(p.resolved);
    assert!(!p.result);
    assert_eq!(p.resolve(true), Err(MarketError::AlreadyResolved));
    assert!(!p.result);
    assert_eq!(p.stake(true, 1), Err(MarketError::MarketClosed));
    assert_eq!(p.stake(true, 0), Err(MarketError::MarketClosed));
    assert_eq!(p.yes_amount, 100);
}

#[test]
fn prediction_payout_shares_the_pool() {
    let env = plain_env();
    let p = Prediction { id: 7, yes_amount: 100, no_amount: 300, resolved: true, result: true };
    assert_eq!(p.compute_payout(&history(&env, &[(true, 100)])), Ok(400));
    assert_eq!(p.compute_payout(&history(&env, &[(false, 300)])), Ok(0));
    assert_eq!(p.compute_payout(&history(&env, &[(true, 30), (false, 300), (true, 3)])), Ok(132));
    assert_eq!(p.compute_payout(&history(&env, &[])), Ok(0));
    let q = Prediction { id: 7, yes_amount: 100, no_amount: 300, resolved: true, result: false };
    assert_eq!(q.compute_payout(&history(&env, &[(false, 299)])), Ok(398));
    assert_eq!(q.compute_payout(&history(&env, &[(false, 1)])), Ok(1));
}

#[test]
fn prediction_payout_refunds_without_a_winner() {
    let env = plain_env();
    let p = Prediction { id: 7, yes_amount: 0, no_amount: 300, resolved: true, result: true };
    assert_eq!(p.compute_payout(&history(&env, &[(false, 100), (false, 50)])), Ok(150));
    assert_eq!(p.compute_payout(&history(&env, &[])), Ok(0));
    assert_eq!(
        p.compute_payout(&history(&env, &[(false, i128::MAX), (true, 1)])),
        Err(MarketError::Overflow)
    );
}

#[test]
fn prediction_payout_refuses_a_damaged_history() {
    let env = plain_env();
    let p = Prediction { id: 7, yes_amount: 100, no_amount: 300, resolved: true, result: true };
    assert_eq!(p.compute_payout(&damaged_history(&env)), Err(MarketError::InvalidAmount));
    let refund = Prediction { id: 7, yes_amount: 0, no_amount: 300, resolved: true, result: true };
    assert_eq!(refund.compute_payout(&damaged_history(&env)), Err(MarketError::InvalidAmount));
    for odd in odd_values(&env) {
        let bets = history_around(&env, odd);
        assert_eq!(p.compute_payout(&bets), Err(MarketError::InvalidAmount));
        assert_eq!(refund.compute_payout(&bets), Err(MarketError::InvalidAmount));
    }
}

#[test]
fn prediction_payout_beyond_the_largest_amount() {
    let env = plain_env();
    let p = Prediction {
        id: 7,
        yes_amount: i128::MAX,
        no_amount: i128::MAX,
        resolved: true,
        result: true,
    };
    assert_eq!(p.compute_payout(&history(&env, &[(true, i128::MAX)])), Err(MarketError::Overflow));
    // half of the winning pool is owed half of both pools
    let half = i128::MAX / 2;
    assert_eq!(p.compute_payout(&history(&env, &[(true, half)])), Ok(2 * half));
    assert_eq!(
        p.compute_payout(&history(&env, &[(true, i128::MAX), (true, 1)])),
        Err(MarketError::Overflow)
    );
}
