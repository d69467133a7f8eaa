//! A binary-outcome wagering ledger: propositions with two competing stake
//! pools, an append-only stake history per participant, a one-way resolution
//! step and pari-mutuel payout shares.

pub mod amount;
pub mod engine;
pub mod error;
pub mod host;
pub mod laws;
pub mod ledger;
pub mod market;
pub mod prediction;
pub mod stakes;

pub use error::MarketError;
pub use ledger::Bet;
pub use market::PredictionMarket;
pub use prediction::Prediction;
