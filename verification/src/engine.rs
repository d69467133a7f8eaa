use vstd::prelude::*;
use crate::amount::max_amount;
use crate::error::MarketError;
use crate::prediction::Prediction;
use crate::stakes::{append_bet, bet_items, entries, well_formed};

verus! {

/// Why a proposition cannot be registered, if it cannot: only the operator
/// registers, and an id is used once.
pub open spec fn register_refusal(authorized: bool, existing: Option<Prediction>) -> Option<
    MarketError,
> {
    if !authorized {
        Some(MarketError::Unauthorized)
    } else if existing is Some {
        Some(MarketError::AlreadyExists)
    } else {
        None
    }
}

/// Why a stake cannot be accepted, if it cannot. `recorded` is the number of
/// stakes that the participant's history holds already; it has room for
/// `u32::MAX`.
pub open spec fn stake_refusal(
    authorized: bool,
    found: Option<Prediction>,
    recorded: nat,
    side: bool,
    amount: i128,
) -> Option<MarketError> {
    if !authorized {
        Some(MarketError::Unauthorized)
    } else if found is None {
        Some(MarketError::NotFound)
    } else if found->0.resolved {
        Some(MarketError::MarketClosed)
    } else if amount <= 0 {
        Some(MarketError::InvalidAmount)
    } else if found->0.pool(side) + amount > max_amount() || recorded >= u32::MAX {
        Some(MarketError::Overflow)
    } else {
        None
    }
}

/// Why an outcome cannot be declared, if it cannot: only the operator
/// declares, and only once.
pub open spec fn declare_refusal(authorized: bool, found: Option<Prediction>) -> Option<
    MarketError,
> {
    if !authorized {
        Some(MarketError::Unauthorized)
    } else if found is None {
        Some(MarketError::NotFound)
    } else if found->0.resolved {
        Some(MarketError::AlreadyResolved)
    } else {
        None
    }
}

/// Decides the designation of currency and operator, given whether they
/// were designated before: it happens once.
pub fn designate(configured: bool) -> (r: Result<(), MarketError>)
    ensures
        r == if configured {
            Err::<(), MarketError>(MarketError::AlreadyInitialized)
        } else {
            Ok::<(), MarketError>(())
        },
{
    if configured {
        Err(MarketError::AlreadyInitialized)
    } else {
        Ok(())
    }
}

/// Decides the registration of a proposition under `id`, given what the
/// store holds under that id, and returns the record to be stored.
pub fn register(authorized: bool, existing: Option<Prediction>, id: u32) -> (r: Result<
    Prediction,
    MarketError,
>)
    ensures
        match r {
            Ok(record) => register_refusal(authorized, existing) is None && record
                == Prediction::fresh(id),
            Err(e) => register_refusal(authorized, existing) == Some(e),
        },
{
    if !authorized {
        return Err(MarketError::Unauthorized);
    }
    match existing {
        Some(_) => Err(MarketError::AlreadyExists),
        None => Ok(Prediction::new(id)),
    }
}

/// The proposition that a read asks for, given what the store holds: only an
/// unknown proposition is an error.
pub fn known(found: Option<Prediction>) -> (r: Result<Prediction, MarketError>)
    ensures
        r == match found {
            Some(record) => Ok::<Prediction, MarketError>(record),
            None => Err::<Prediction, MarketError>(MarketError::NotFound),
        },
{
    match found {
        Some(record) => Ok(record),
        None => Err(MarketError::NotFound),
    }
}

/// Decides a stake, given the proposition that the store holds and the
/// history of the participant. Where the stake is accepted, it is appended to
/// the history and the record with the larger pool is returned, to be stored
/// with it; where it is refused, the history is as it was.
pub fn accept_stake(
    authorized: bool,
    found: Option<Prediction>,
    bets: &mut soroban_sdk::Vec<(bool, i128)>,
    side: bool,
    amount: i128,
) -> (r: Result<Prediction, MarketError>)
    requires
        found is Some ==> found->0.wf(),
    ensures
        match r {
            Ok(record) => stake_refusal(
                authorized,
                found,
                bet_items(*old(bets)).len(),
                side,
                amount,
            ) is None && record == found->0.staked(side, amount) && record.wf() && bet_items(
                *final(bets),
            ) == bet_items(*old(bets)).push(Some((side, amount))),
            Err(e) => stake_refusal(authorized, found, bet_items(*old(bets)).len(), side, amount)
                == Some(e) && *final(bets) == *old(bets),
        },
{
    if !authorized {
        return Err(MarketError::Unauthorized);
    }
    let mut record: Prediction = match found {
        Some(record) => record,
        None => {
            return Err(MarketError::NotFound);
        },
    };
    match record.stake(side, amount) {
        Ok(_) => {},
        Err(e) => {
            return Err(e);
        },
    }
    match append_bet(bets, side, amount) {
        Ok(_) => Ok(record),
        Err(e) => Err(e),
    }
}

/// Decides the declaration of an outcome, given the proposition that the
/// store holds, and returns the resolved record to be stored.
pub fn declare(authorized: bool, found: Option<Prediction>, result: bool) -> (r: Result<
    Prediction,
    MarketError,
>)
    ensures
        match r {
            Ok(record) => declare_refusal(authorized, found) is None && record
                == found->0.resolved_as(result),
            Err(e) => declare_refusal(authorized, found) == Some(e),
        },
{
    if !authorized {
        return Err(MarketError::Unauthorized);
    }
    let mut record: Prediction = match found {
        Some(record) => record,
        None => {
            return Err(MarketError::NotFound);
        },
    };
    match record.resolve(result) {
        Ok(_) => Ok(record),
        Err(e) => Err(e),
    }
}

/// What the holder of a history is owed from the proposition that the store
/// holds, which must be resolved. An unknown proposition is an error; so is
/// a malformed history, and a payout beyond the largest amount.
pub fn settle(found: Option<Prediction>, bets: &soroban_sdk::Vec<(bool, i128)>) -> (r: Result<
    i128,
    MarketError,
>)
    requires
        found is Some ==> found->0.wf() && found->0.resolved,
    ensures
        match r {
            Ok(owed) => found is Some && well_formed(bet_items(*bets)) && owed
                == found->0.payout(entries(bet_items(*bets))),
            Err(e) => if found is None {
                e == MarketError::NotFound
            } else if well_formed(bet_items(*bets)) {
                e == MarketError::Overflow && found->0.payout(entries(bet_items(*bets)))
                    > max_amount()
            } else {
                e == MarketError::InvalidAmount
            },
        },
{
    match found {
        Some(record) => record.compute_payout(bets),
        None => Err(MarketError::NotFound),
    }
}

} // verus!
