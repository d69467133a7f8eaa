use prediction_market::error::MarketError;
use prediction_market::ledger::Bet;
use prediction_market::market::PredictionMarket;
use soroban_sdk::testutils::Address as _;
use soroban_sdk::testutils::EnvTestConfig;
use soroban_sdk::{Address, Env};

fn silent_env() -> Env {
    Env::new_with_config(EnvTestConfig { capture_snapshot_at_drop: false })
}

fn ready_market() -> PredictionMarket {
    let env = silent_env();
    let token = Address::generate(&env);
    let admin = Address::generate(&env);
    let mut market = PredictionMarket::new(env);
    assert_eq!(market.initialize(token, admin), Ok(()));
    market
}

#[test]
fn initialize_happens_once() {
    let env = silent_env();
    let token = Address::generate(&env);
    let admin = Address::generate(&env);
    let other = Address::generate(&env);
    let mut market = PredictionMarket::new(env);
    assert!(market.settings().is_none());
    assert_eq!(market.initialize(token.clone(), admin.clone()), Ok(()));
    assert_eq!(
        market.initialize(other.clone(), other.clone()),
        Err(MarketError::AlreadyInitialized)
    );
    let settings = market.settings().unwrap();
    assert_eq!(settings.token, token);
    assert_eq!(settings.admin, admin);
    assert_ne!(settings.admin, other);
}

#[test]
fn create_is_for_the_operator() {
    let mut market = ready_market();
    assert_eq!(market.create_prediction(false, 1), Err(MarketError::Unauthorized));
    assert_eq!(market.get_prediction(1), Err(MarketError::NotFound));
    assert_eq!(market.create_prediction(true, 1), Ok(()));
    let p = market.get_prediction(1).unwrap();
    assert_eq!(p.id, 1);
    assert_eq!(p.yes_amount, 0);
    assert_eq!(p.no_amount, 0);
    assert!(!p.resolved);
}

#[test]
fn create_refuses_a_used_id() {
    let mut market = ready_market();
    assert_eq!(market.create_prediction(true, 1), Ok(()));
    assert_eq!(market.place_bet(true, 1, 10, 5, true), Ok(()));
    assert_eq!(market.create_prediction(true, 1), Err(MarketError::AlreadyExists));
    // the registered proposition keeps its pools
    assert_eq!(market.get_prediction(1).unwrap().yes_amount, 5);
    assert_eq!(market.create_prediction(false, 1), Err(MarketError::Unauthorized));
}

#[test]
fn place_bet_error_for_each_refusal() {
    let mut market = ready_market();
    assert_eq!(market.create_prediction(true, 1), Ok(()));
    assert_eq!(market.place_bet(false, 1, 10, 5, true), Err(MarketError::Unauthorized));
    assert_eq!(market.place_bet(true, 2, 10, 5, true), Err(MarketError::NotFound));
    assert_eq!(market.place_bet(true, 1, 10, 0, true), Err(MarketError::InvalidAmount));
    assert_eq!(market.place_bet(true, 1, 10, -5, false), Err(MarketError::InvalidAmount));
    assert_eq!(market.place_bet(true, 1, 10, i128::MAX, true), Ok(()));
    assert_eq!(market.place_bet(true, 1, 11, 1, true), Err(MarketError::Overflow));
    assert_eq!(market.place_bet(true, 1, 11, 1, false), Ok(()));
    assert_eq!(market.resolve_prediction(true, 1, true), Ok(()));
    assert_eq!(market.place_bet(true, 1, 10, 5, true), Err(MarketError::MarketClosed));
    let p = market.get_prediction(1).unwrap();
    assert_eq!(p.yes_amount, i128::MAX);
    assert_eq!(p.no_amount, 1);
    assert_eq!(market.get_user_bets(1, 10).unwrap().len(), 1);
    assert_eq!(market.get_user_bets(1, 11).unwrap().len(), 1);
}

#[test]
fn place_takes_the_stake_as_a_record() {
    let mut market = ready_market();
    assert_eq!(market.create_prediction(true, 4), Ok(()));
    let bet = Bet { bettor: 10, amount: 15, prediction: false, prediction_id: 4 };
    assert_eq!(market.place(true, bet), Ok(()));
    assert_eq!(market.place(false, bet), Err(MarketError::Unauthorized));
    assert_eq!(market.get_prediction(4).unwrap().no_amount, 15);
    assert_eq!(market.get_user_bets(4, 10).unwrap().get(0), Some((false, 15)));
}

#[test]
fn resolve_error_for_each_refusal() {
    let mut market = ready_market();
    assert_eq!(market.create_prediction(true, 1), Ok(()));
    assert_eq!(market.resolve_prediction(false, 1, true), Err(MarketError::Unauthorized));
    assert_eq!(market.resolve_prediction(true, 2, true), Err(MarketError::NotFound));
    assert!(!market.get_prediction(1).unwrap().resolved);
    assert_eq!(market.resolve_prediction(true, 1, true), Ok(()));
    assert_eq!(market.resolve_prediction(true, 1, true), Err(MarketError::AlreadyResolved));
    assert_eq!(market.resolve_prediction(false, 1, true), Err(MarketError::Unauthorized));
}

#[test]
fn get_user_bets_of_a_stranger_is_empty() {
    let mut market = ready_market();
    assert_eq!(market.create_prediction(true, 1), Ok(()));
    assert_eq!(market.place_bet(true, 1, 10, 5, true), Ok(()));
    let none = market.get_user_bets(1, 99).unwrap();
    assert_eq!(none.len(), 0);
    assert!(none.is_empty());
    assert!(matches!(market.get_user_bets(2, 10), Err(MarketError::NotFound)));
    assert!(matches!(market.get_user_bets(2, 99), Err(MarketError::NotFound)));
}

#[test]
fn compute_payout_of_an_unknown_proposition() {
    let mut market = ready_market();
    assert_eq!(market.create_prediction(true, 1), Ok(()));
    assert_eq!(market.resolve_prediction(true, 1, true), Ok(()));
    assert_eq!(market.compute_payout(2, 10), Err(MarketError::NotFound));
    // resolved with nothing staked: nothing is owed
    assert_eq!(market.compute_payout(1, 10), Ok(0));
}

#[test]
fn compute_payout_beyond_the_largest_amount() {
    let mut market = ready_market();
    assert_eq!(market.create_prediction(true, 1), Ok(()));
    assert_eq!(market.place_bet(true, 1, 10, i128::MAX, true), Ok(()));
    assert_eq!(market.place_bet(true, 1, 11, i128::MAX, false), Ok(()));
    assert_eq!(market.resolve_prediction(true, 1, true), Ok(()));
    // the winner is owed both pools, twice the largest amount
    assert_eq!(market.compute_payout(1, 10), Err(MarketError::Overflow));
    assert_eq!(market.compute_payout(1, 11), Ok(0));
}
