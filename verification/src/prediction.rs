use vstd::prelude::*;
use vstd::arithmetic::div_mod::{lemma_div_is_ordered, lemma_div_multiples_vanish};
use crate::amount::{max_amount, mul_div, mul_div_floor};
use crate::error::MarketError;
use crate::stakes::{
    all_positive, bet_items, entries, lemma_side_total_nonnegative, side_sum, side_total,
    well_formed,
};

verus! {

/// One yes/no proposition with its two stake pools.
#[derive(Clone, Copy, Debug, PartialEq, Eq, Structural)]
pub struct Prediction {
    /// The identifier under which the proposition is registered.
    pub id: u32,
    /// The sum of the stakes placed on "yes".
    pub yes_amount: i128,
    /// The sum of the stakes placed on "no".
    pub no_amount: i128,
    /// Whether the outcome was declared. Once set, it stays set.
    pub resolved: bool,
    /// The declared outcome: `true` if "yes" won. It means nothing before the
    /// proposition is resolved.
    pub result: bool,
}

/// A share of positive weight in a pool that is part of the total is worth at
/// least the weight itself.
proof fn lemma_share_at_least_stake(stake: int, total: int, winning: int)
    requires
        0 <= stake,
        0 < winning <= total,
    ensures
        mul_div_floor(stake, total, winning) >= stake,
{
    assert(stake * winning <= stake * total) by (nonlinear_arith)
        requires
            0 <= stake,
            0 < winning <= total,
    ;
    lemma_div_is_ordered(stake * winning, stake * total, winning);
    lemma_div_multiples_vanish(stake, winning);
    assert(stake * winning == winning * stake) by (nonlinear_arith);
}

impl Prediction {
    /// Neither pool is negative.
    pub open spec fn wf(self) -> bool {
        self.yes_amount >= 0 && self.no_amount >= 0
    }

    /// The proposition as it is registered: open, with empty pools.
    pub open spec fn fresh(id: u32) -> Prediction {
        Prediction { id, yes_amount: 0, no_amount: 0, resolved: false, result: false }
    }

    /// The pool of one side.
    pub open spec fn pool(self, side: bool) -> int {
        if side {
            self.yes_amount as int
        } else {
            self.no_amount as int
        }
    }

    /// Both pools together.
    pub open spec fn total_pool(self) -> int {
        self.yes_amount + self.no_amount
    }

    /// The pool of the side that the declared outcome names.
    pub open spec fn winning_pool(self) -> int {
        self.pool(self.result)
    }

    /// The proposition after `amount` was added to the pool of `side`.
    pub open spec fn staked(self, side: bool, amount: i128) -> Prediction {
        if side {
            Prediction { yes_amount: (self.yes_amount + amount) as i128, ..self }
        } else {
            Prediction { no_amount: (self.no_amount + amount) as i128, ..self }
        }
    }

    /// The proposition after the outcome was declared.
    pub open spec fn resolved_as(self, result: bool) -> Prediction {
        Prediction { resolved: true, result, ..self }
    }

    /// What a participant with the given stakes is owed. Where nobody staked
    /// the winning side, everything the participant staked comes back;
    /// otherwise the whole pool is shared among the winning stakes in
    /// proportion, rounded down.
    pub open spec fn payout(self, stakes: Seq<(bool, i128)>) -> int {
        if self.winning_pool() == 0 {
            side_total(stakes, true) + side_total(stakes, false)
        } else {
            mul_div_floor(side_total(stakes, self.result), self.total_pool(), self.winning_pool())
        }
    }

    /// Registers a proposition: open, with nothing staked.
    pub fn new(id: u32) -> (p: Prediction)
        ensures
            p == Prediction::fresh(id),
            p.wf(),
    {
        Prediction { id, yes_amount: 0, no_amount: 0, resolved: false, result: false }
    }

    /// Whether neither pool is negative.
    pub fn is_well_formed(&self) -> (ok: bool)
        ensures
            ok == self.wf(),
    {
        self.yes_amount >= 0 && self.no_amount >= 0
    }

    /// Adds a stake to the pool of its side. A resolved proposition takes no
    /// stake; an amount that is not positive is no stake; a pool that would
    /// pass the largest amount is left as it is.
    pub fn stake(&mut self, side: bool, amount: i128) -> (r: Result<(), MarketError>)
        requires
            old(self).wf(),
        ensures
            final(self).wf(),
            match r {
                Ok(_) => !old(self).resolved && amount > 0 && old(self).pool(side) + amount
                    <= max_amount() && *final(self) == old(self).staked(side, amount),
                Err(e) => *final(self) == *old(self) && if old(self).resolved {
                    e == MarketError::MarketClosed
                } else if amount <= 0 {
                    e == MarketError::InvalidAmount
                } else {
                    e == MarketError::Overflow && old(self).pool(side) + amount > max_amount()
                },
            },
    {
        if self.resolved {
            return Err(MarketError::MarketClosed);
        }
        if amount <= 0 {
            return Err(MarketError::InvalidAmount);
        }
        if side {
            let sum: i128 = crate::amount::add(self.yes_amount, amount)?;
            self.yes_amount = sum;
        } else {
            let sum: i128 = crate::amount::add(self.no_amount, amount)?;
            self.no_amount = sum;
        }
        Ok(())
    }

    /// Declares the outcome. This happens once: a second declaration is an
    /// error and changes nothing.
    pub fn resolve(&mut self, result: bool) -> (r: Result<(), MarketError>)
        ensures
            match r {
                Ok(_) => !old(self).resolved && *final(self) == old(self).resolved_as(result),
                Err(e) => old(self).resolved && e == MarketError::AlreadyResolved && *final(self)
                    == *old(self),
            },
    {
        if self.resolved {
            return Err(MarketError::AlreadyResolved);
        }
        self.resolved = true;
        self.result = result;
        Ok(())
    }

    /// What the holder of a stake history is owed once the outcome is
    /// declared. A malformed history is refused; a payout beyond the largest
    /// amount is an overflow, and every payout that fits is exact, however
    /// large the product behind it.
    pub fn compute_payout(&self, bets: &soroban_sdk::Vec<(bool, i128)>) -> (r: Result<
        i128,
        MarketError,
    >)
        requires
            self.wf(),
            self.resolved,
        ensures
            match r {
                Ok(owed) => well_formed(bet_items(*bets)) && owed == self.payout(
                    entries(bet_items(*bets)),
                ),
                Err(e) => if well_formed(bet_items(*bets)) {
                    e == MarketError::Overflow && self.payout(entries(bet_items(*bets)))
                        > max_amount()
                } else {
                    e == MarketError::InvalidAmount
                },
            },
    {
        let ghost stakes = entries(bet_items(*bets));
        proof {
            if well_formed(bet_items(*bets)) {
                assert(all_positive(stakes));
                lemma_side_total_nonnegative(stakes, true);
                lemma_side_total_nonnegative(stakes, false);
            }
        }
        let winning: i128 = if self.result {
            self.yes_amount
        } else {
            self.no_amount
        };
        if winning == 0 {
            let on_yes: i128 = side_sum(bets, true)?;
            let on_no: i128 = side_sum(bets, false)?;
            return crate::amount::add(on_yes, on_no);
        }
        let stake: i128 = match side_sum(bets, self.result) {
            Ok(sum) => sum,
            Err(e) => {
                proof {
                    if well_formed(bet_items(*bets)) {
                        lemma_share_at_least_stake(
                            side_total(stakes, self.result),
                            self.total_pool(),
                            self.winning_pool(),
                        );
                    }
                }
                return Err(e);
            },
        };
        let total: u128 = self.yes_amount as u128 + self.no_amount as u128;
        match mul_div(stake as u128, total, winning as u128) {
            Some(share) => {
                if share > i128::MAX as u128 {
                    Err(MarketError::Overflow)
                } else {
                    Ok(share as i128)
                }
            },
            None => Err(MarketError::Overflow),
        }
    }
}

} // verus!
