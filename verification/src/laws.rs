use vstd::prelude::*;
use vstd::arithmetic::div_mod::{lemma_fundamental_div_mod, lemma_mod_bound};
use crate::amount::mul_div_floor;
use crate::error::MarketError;
use crate::ledger::{
    all_owed, all_staked, lemma_pools_make_all_staked, pool_staked, Bet, MarketState, Settings,
    StakeAccount,
};
use crate::prediction::Prediction;
use crate::stakes::{
    all_positive, bet_items, lemma_entries_determine_items, lemma_side_total_nonnegative,
    lemma_sides_make_total, side_total, staked_total,
};

verus! {

/// `after` is the ledger `before` after one operation that was accepted:
/// the designation of currency and operator, the registration of a
/// proposition, a stake, or the declaration of an outcome.
pub open spec fn follows(before: MarketState, after: MarketState) -> bool {
    ||| exists|settings: Settings|
        !before.initialized() && after == #[trigger] before.configured(settings)
    ||| exists|id: u32|
        before.create_refusal(true, id) is None && after == #[trigger] before.created(id)
    ||| exists|bet: Bet|
        before.place_refusal(true, bet) is None && after == #[trigger] before.placed(bet)
    ||| exists|id: u32, result: bool|
        before.resolve_refusal(true, id) is None && after == #[trigger] before.resolved(
            id,
            result,
        )
}

/// The states of a ledger from its beginning, each one following from the
/// one before it by an accepted operation.
pub open spec fn is_history(trace: Seq<MarketState>) -> bool {
    &&& trace.len() > 0
    &&& trace[0] == MarketState::empty()
    &&& forall|i: int| 0 <= i < trace.len() - 1 ==> follows(#[trigger] trace[i], trace[i + 1])
}

/// An accepted operation keeps the ledger well-formed, and leaves a resolved
/// proposition exactly as it was.
pub proof fn lemma_step(before: MarketState, after: MarketState)
    requires
        before.wf(),
        follows(before, after),
    ensures
        after.wf(),
        forall|id: u32|
            before.has_prediction(id) && before.prediction(id).resolved ==> after.has_prediction(
                id,
            ) && after.prediction(id) == before.prediction(id),
{
    if exists|settings: Settings|
        !before.initialized() && after == #[trigger] before.configured(settings) {
        let settings = choose|settings: Settings|
            !before.initialized() && after == #[trigger] before.configured(settings);
        before.lemma_configured(settings);
    } else if exists|id: u32|
        before.create_refusal(true, id) is None && after == #[trigger] before.created(id) {
        let id = choose|id: u32|
            before.create_refusal(true, id) is None && after == #[trigger] before.created(id);
        before.lemma_created(id);
    } else if exists|bet: Bet|
        before.place_refusal(true, bet) is None && after == #[trigger] before.placed(bet) {
        let bet = choose|bet: Bet|
            before.place_refusal(true, bet) is None && after == #[trigger] before.placed(bet);
        before.lemma_placed(bet);
    } else {
        let (id, result) = choose|id: u32, result: bool|
            before.resolve_refusal(true, id) is None && after == #[trigger] before.resolved(
                id,
                result,
            );
        before.lemma_resolved(id, result);
    }
}

/// Every state that a ledger passes through is well-formed.
pub proof fn lemma_history_well_formed(trace: Seq<MarketState>, k: int)
    requires
        is_history(trace),
        0 <= k < trace.len(),
    ensures
        trace[k].wf(),
    decreases k,
{
    if k > 0 {
        lemma_history_well_formed(trace, k - 1);
        lemma_step(trace[k - 1], trace[k]);
    }
}

/// Pool conservation: at every point of a ledger's life, the two pools of a
/// proposition together hold exactly the stakes that were accepted for it.
pub proof fn pool_conservation(trace: Seq<MarketState>, k: int, id: u32)
    requires
        is_history(trace),
        0 <= k < trace.len(),
        trace[k].has_prediction(id),
    ensures
        trace[k].prediction(id).yes_amount + trace[k].prediction(id).no_amount == all_staked(
            trace[k].accounts,
            id,
        ),
{
    lemma_history_well_formed(trace, k);
    pools_hold_the_stakes(trace[k], id);
}

/// Pool conservation across a registration, in a ledger that may or may not
/// be initialized. Whether the registration of `id` is accepted or refused,
/// the pools of every registered proposition `other` are not negative and
/// together hold exactly the stakes accepted for it. Where it is accepted,
/// the new proposition has empty pools and nobody has a stake on it.
pub proof fn registration_conserves_pools(
    market: MarketState,
    authorized: bool,
    id: u32,
    other: u32,
    bettor: u64,
)
    requires
        market.wf(),
    ensures
        ({
            let accepted = market.create_refusal(authorized, id) is None;
            let after = if accepted {
                market.created(id)
            } else {
                market
            };
            &&& after.wf()
            &&& after.has_prediction(other) ==> {
                &&& after.prediction(other).yes_amount >= 0
                &&& after.prediction(other).no_amount >= 0
                &&& after.prediction(other).total_pool() == all_staked(after.accounts, other)
            }
            &&& accepted ==> {
                &&& after.has_prediction(id)
                &&& after.prediction(id).yes_amount == 0
                &&& after.prediction(id).no_amount == 0
                &&& after.stakes_of(id, bettor) == Seq::<(bool, i128)>::empty()
                &&& all_staked(after.accounts, id) == 0
            }
        }),
{
    let accepted = market.create_refusal(authorized, id) is None;
    let after = if accepted {
        market.created(id)
    } else {
        market
    };
    if accepted {
        market.lemma_created(id);
        if market.has_account(id, bettor) {
            let k = market.account_index(id, bettor);
            assert(market.is_account_at(k, id, bettor));
            assert(market.has_prediction(market.accounts[k].prediction_id));
        }
        pools_hold_the_stakes(after, id);
    }
    if after.has_prediction(other) {
        pools_hold_the_stakes(after, other);
        let at = after.prediction_index(other);
        assert(after.is_prediction_at(at, other));
        assert(after.predictions[at].wf());
    }
}

/// In a well-formed ledger each pool of a proposition is the sum of the
/// stakes recorded on its side, and both together are all its stakes.
pub proof fn pools_hold_the_stakes(market: MarketState, id: u32)
    requires
        market.wf(),
        market.has_prediction(id),
    ensures
        market.prediction(id).yes_amount == pool_staked(market.accounts, id, true),
        market.prediction(id).no_amount == pool_staked(market.accounts, id, false),
        market.prediction(id).total_pool() == all_staked(market.accounts, id),
{
    let at = market.prediction_index(id);
    assert(market.is_prediction_at(at, id));
    assert(market.predictions[at].wf());
    lemma_pools_make_all_staked(market.accounts, id);
}

/// Monotonic resolution: once the outcome of a proposition is declared, the
/// proposition stays as it is through everything that the ledger accepts
/// later, a second declaration is refused as `AlreadyResolved`, and every
/// stake on it is refused as `MarketClosed`.
pub proof fn resolution_is_final(trace: Seq<MarketState>, k: int, later: int, id: u32, bet: Bet)
    requires
        is_history(trace),
        0 <= k <= later < trace.len(),
        trace[k].has_prediction(id),
        trace[k].prediction(id).resolved,
        bet.prediction_id == id,
    ensures
        trace[later].has_prediction(id),
        trace[later].prediction(id) == trace[k].prediction(id),
        trace[later].resolve_refusal(true, id) == Some(MarketError::AlreadyResolved),
        trace[later].place_refusal(true, bet) == Some(MarketError::MarketClosed),
    decreases later - k,
{
    if later > k {
        resolution_is_final(trace, k, later - 1, id, bet);
        lemma_history_well_formed(trace, later - 1);
        lemma_step(trace[later - 1], trace[later]);
    }
}

/// A declaration that is accepted resolves the proposition with the declared
/// outcome and leaves its pools as they were.
pub proof fn resolve_resolves(market: MarketState, id: u32, result: bool)
    requires
        market.wf(),
        market.resolve_refusal(true, id) is None,
    ensures
        market.resolved(id, result).prediction(id).resolved,
        market.resolved(id, result).prediction(id).result == result,
        market.resolved(id, result).prediction(id).yes_amount == market.prediction(
            id,
        ).yes_amount,
        market.resolved(id, result).prediction(id).no_amount == market.prediction(id).no_amount,
{
    market.lemma_resolved(id, result);
}

/// Idempotent reads: what a read returns is determined by the ledger, which
/// a read leaves as it is. So two reads of a proposition with no operation
/// between them return the same record or the same error, and two reads of a
/// participant's stakes return histories with the same items.
pub proof fn reads_are_repeatable(
    market: MarketState,
    id: u32,
    bettor: u64,
    first: Result<Prediction, MarketError>,
    second: Result<Prediction, MarketError>,
    first_bets: Result<soroban_sdk::Vec<(bool, i128)>, MarketError>,
    second_bets: Result<soroban_sdk::Vec<(bool, i128)>, MarketError>,
)
    requires
        first == market.read_prediction(id),
        second == market.read_prediction(id),
        market.is_stakes_read(id, bettor, first_bets),
        market.is_stakes_read(id, bettor, second_bets),
    ensures
        first == second,
        match (first_bets, second_bets) {
            (Ok(a), Ok(b)) => bet_items(a) == bet_items(b),
            (Err(a), Err(b)) => a == b,
            _ => false,
        },
{
    if let (Ok(a), Ok(b)) = (first_bets, second_bets) {
        lemma_entries_determine_items(bet_items(a), bet_items(b));
    }
}

/// A share times the winning pool is at most the stake times the whole pool:
/// rounding down never gives more than the exact proportion.
proof fn lemma_share_within(stake: int, total: int, winning: int)
    requires
        0 < winning,
    ensures
        mul_div_floor(stake, total, winning) * winning <= stake * total,
{
    let product = stake * total;
    lemma_fundamental_div_mod(product, winning);
    lemma_mod_bound(product, winning);
    assert((product / winning) * winning == winning * (product / winning)) by (nonlinear_arith);
}

/// What the accounts are owed, times the winning pool, is at most what they
/// staked on the winning side, times the whole pool.
proof fn lemma_owed_within(accounts: Seq<StakeAccount>, p: Prediction)
    requires
        p.winning_pool() > 0,
    ensures
        all_owed(accounts, p) * p.winning_pool() <= pool_staked(accounts, p.id, p.result)
            * p.total_pool(),
    decreases accounts.len(),
{
    let winning = p.winning_pool();
    let total = p.total_pool();
    if accounts.len() == 0 {
        assert(0 * winning <= 0 * total) by (nonlinear_arith);
    } else {
        let rest = accounts.drop_last();
        let last = accounts.last();
        lemma_owed_within(rest, p);
        let owed_rest = all_owed(rest, p);
        let staked_rest = pool_staked(rest, p.id, p.result);
        let owed = last.owed(p);
        let staked = last.on_pool(p.id, p.result);
        if last.prediction_id == p.id {
            lemma_share_within(side_total(last.stakes, p.result), total, winning);
        } else {
            assert(0 * winning <= 0 * total) by (nonlinear_arith);
        }
        assert((owed_rest + owed) * winning <= (staked_rest + staked) * total)
            by (nonlinear_arith)
            requires
                owed_rest * winning <= staked_rest * total,
                owed * winning <= staked * total,
        ;
    }
}

/// Payout bound: where somebody staked the winning side of a resolved
/// proposition, what all participants together are owed is at most the whole
/// pool. Rounding leaves dust behind; it never pays out more than was staked.
pub proof fn payout_bound(market: MarketState, id: u32)
    requires
        market.wf(),
        market.has_prediction(id),
        market.prediction(id).resolved,
        market.prediction(id).winning_pool() > 0,
    ensures
        all_owed(market.accounts, market.prediction(id)) <= market.prediction(id).total_pool(),
{
    let p = market.prediction(id);
    let at = market.prediction_index(id);
    assert(market.is_prediction_at(at, id));
    assert(market.predictions[at].wf());
    lemma_owed_within(market.accounts, p);
    let owed = all_owed(market.accounts, p);
    let winning = p.winning_pool();
    let total = p.total_pool();
    assert(pool_staked(market.accounts, p.id, p.result) == winning);
    assert(owed <= total) by (nonlinear_arith)
        requires
            owed * winning <= winning * total,
            winning > 0,
    ;
}

/// No-contest refund: where nobody staked the winning side, a participant is
/// owed exactly what the participant staked, on whichever side.
pub proof fn no_contest_refund(p: Prediction, stakes: Seq<(bool, i128)>)
    requires
        p.winning_pool() == 0,
    ensures
        p.payout(stakes) == staked_total(stakes),
{
    lemma_sides_make_total(stakes);
}

/// A participant with nothing on the winning side is owed nothing where
/// somebody else won, and no participant is owed a negative amount.
pub proof fn payout_of_losers(p: Prediction, stakes: Seq<(bool, i128)>)
    requires
        p.wf(),
        all_positive(stakes),
    ensures
        p.payout(stakes) >= 0,
        p.winning_pool() > 0 && side_total(stakes, p.result) == 0 ==> p.payout(stakes) == 0,
{
    lemma_side_total_nonnegative(stakes, true);
    lemma_side_total_nonnegative(stakes, false);
    if p.winning_pool() > 0 {
        let stake = side_total(stakes, p.result);
        let total = p.total_pool();
        let winning = p.winning_pool();
        assert(stake * total >= 0) by (nonlinear_arith)
            requires
                stake >= 0,
                total >= 0,
        ;
        vstd::arithmetic::div_mod::lemma_div_pos_is_pos(stake * total, winning);
        if stake == 0 {
            assert(stake * total == 0) by (nonlinear_arith)
                requires
                    stake == 0,
            ;
        }
    }
}

} // verus!
