use vstd::prelude::*;
use crate::engine::{declare_refusal, register_refusal, stake_refusal};
use crate::error::MarketError;
use crate::prediction::Prediction;
use crate::stakes::{
    all_positive, bet_items, entries, lemma_side_total_push, on_side, side_total, staked_total,
    well_formed,
};

verus! {

/// One stake as it is offered: who stakes how much on which side of which
/// proposition.
#[derive(Clone, Copy, Debug, PartialEq, Eq, Structural)]
pub struct Bet {
    /// The participant who stakes.
    pub bettor: u64,
    /// The amount staked.
    pub amount: i128,
    /// The side: `true` for "yes".
    pub prediction: bool,
    /// The proposition that the stake is placed on.
    pub prediction_id: u32,
}

/// What is designated once, before the ledger is used.
pub struct Settings {
    /// The currency in which stakes are held and payouts are made.
    pub token: soroban_sdk::Address,
    /// The operator, who registers propositions and declares outcomes.
    pub admin: soroban_sdk::Address,
}

/// The stakes of one participant on one proposition, oldest first.
pub struct StakeAccount {
    /// The proposition that the stakes are placed on.
    pub prediction_id: u32,
    /// The participant who placed them.
    pub bettor: u64,
    /// Side and amount of each stake.
    pub stakes: Seq<(bool, i128)>,
}

impl StakeAccount {
    /// What the account adds to one pool of the proposition `id`.
    pub open spec fn on_pool(self, id: u32, side: bool) -> int {
        if self.prediction_id == id {
            side_total(self.stakes, side)
        } else {
            0
        }
    }

    /// Everything that the account staked on the proposition `id`.
    pub open spec fn staked_on(self, id: u32) -> int {
        if self.prediction_id == id {
            staked_total(self.stakes)
        } else {
            0
        }
    }

    /// What the account is owed from the resolved proposition `p`.
    pub open spec fn owed(self, p: Prediction) -> int {
        if self.prediction_id == p.id {
            p.payout(self.stakes)
        } else {
            0
        }
    }

    /// The account after one more stake.
    pub open spec fn with_stake(self, side: bool, amount: i128) -> StakeAccount {
        StakeAccount { stakes: self.stakes.push((side, amount)), ..self }
    }
}

/// What all accounts together hold on one side of the proposition `id`.
pub open spec fn pool_staked(accounts: Seq<StakeAccount>, id: u32, side: bool) -> int
    decreases accounts.len(),
{
    if accounts.len() == 0 {
        0
    } else {
        pool_staked(accounts.drop_last(), id, side) + accounts.last().on_pool(id, side)
    }
}

/// The sum of all stakes that were accepted for the proposition `id`.
pub open spec fn all_staked(accounts: Seq<StakeAccount>, id: u32) -> int
    decreases accounts.len(),
{
    if accounts.len() == 0 {
        0
    } else {
        all_staked(accounts.drop_last(), id) + accounts.last().staked_on(id)
    }
}

/// The sum of what all participants are owed from the resolved proposition.
pub open spec fn all_owed(accounts: Seq<StakeAccount>, p: Prediction) -> int
    decreases accounts.len(),
{
    if accounts.len() == 0 {
        0
    } else {
        all_owed(accounts.drop_last(), p) + accounts.last().owed(p)
    }
}

/// The ledger as a mathematical value: the registered propositions in the
/// order of their creation, and the stake accounts in the order of their first
/// stake.
pub struct MarketState {
    /// The currency and the operator, once they are designated.
    pub settings: Option<Settings>,
    /// The registered propositions.
    pub predictions: Seq<Prediction>,
    /// The stake histories, one per proposition and participant.
    pub accounts: Seq<StakeAccount>,
}

impl MarketState {
    /// The ledger before anything happened.
    pub open spec fn empty() -> MarketState {
        MarketState { settings: None, predictions: Seq::empty(), accounts: Seq::empty() }
    }

    /// Whether the currency and the operator were designated.
    pub open spec fn initialized(self) -> bool {
        self.settings is Some
    }

    /// Whether the proposition at place `i` is the one registered under `id`.
    pub open spec fn is_prediction_at(self, i: int, id: u32) -> bool {
        0 <= i < self.predictions.len() && self.predictions[i].id == id
    }

    /// Whether a proposition is registered under `id`.
    pub open spec fn has_prediction(self, id: u32) -> bool {
        exists|i: int| self.is_prediction_at(i, id)
    }

    /// The place of the proposition registered under `id`.
    pub open spec fn prediction_index(self, id: u32) -> int {
        choose|i: int| self.is_prediction_at(i, id)
    }

    /// The proposition registered under `id`.
    pub open spec fn prediction(self, id: u32) -> Prediction {
        self.predictions[self.prediction_index(id)]
    }

    /// Whether the account at place `k` is that of the participant on the
    /// proposition.
    pub open spec fn is_account_at(self, k: int, id: u32, bettor: u64) -> bool {
        0 <= k < self.accounts.len() && self.accounts[k].prediction_id == id
            && self.accounts[k].bettor == bettor
    }

    /// Whether the participant has staked on the proposition.
    pub open spec fn has_account(self, id: u32, bettor: u64) -> bool {
        exists|k: int| self.is_account_at(k, id, bettor)
    }

    /// The place of the participant's account on the proposition.
    pub open spec fn account_index(self, id: u32, bettor: u64) -> int {
        choose|k: int| self.is_account_at(k, id, bettor)
    }

    /// The stakes of the participant on the proposition, oldest first; empty
    /// where there are none.
    pub open spec fn stakes_of(self, id: u32, bettor: u64) -> Seq<(bool, i128)> {
        if self.has_account(id, bettor) {
            self.accounts[self.account_index(id, bettor)].stakes
        } else {
            Seq::empty()
        }
    }

    /// What holds of every ledger: an id names one proposition, a participant
    /// has one account per proposition, every account belongs to a registered
    /// proposition and holds positive stakes, and each pool is the sum of the
    /// stakes recorded on its side.
    pub open spec fn wf(self) -> bool {
        &&& forall|i: int, j: int|
            0 <= i < j < self.predictions.len() ==> (#[trigger] self.predictions[i]).id != (
            #[trigger] self.predictions[j]).id
        &&& forall|k: int, l: int|
            0 <= k < l < self.accounts.len() ==> !((#[trigger] self.accounts[k]).prediction_id == (
            #[trigger] self.accounts[l]).prediction_id && self.accounts[k].bettor
                == self.accounts[l].bettor)
        &&& forall|k: int|
            0 <= k < self.accounts.len() ==> self.has_prediction(
                (#[trigger] self.accounts[k]).prediction_id,
            ) && all_positive(self.accounts[k].stakes)
        &&& forall|i: int|
            0 <= i < self.predictions.len() ==> (#[trigger] self.predictions[i]).wf()
                && self.predictions[i].yes_amount == pool_staked(
                self.accounts,
                self.predictions[i].id,
                true,
            ) && self.predictions[i].no_amount == pool_staked(
                self.accounts,
                self.predictions[i].id,
                false,
            )
    }

    /// The ledger after the currency and the operator were designated.
    pub open spec fn configured(self, settings: Settings) -> MarketState {
        MarketState { settings: Some(settings), ..self }
    }

    /// The ledger after a proposition was registered under `id`.
    pub open spec fn created(self, id: u32) -> MarketState {
        MarketState { predictions: self.predictions.push(Prediction::fresh(id)), ..self }
    }

    /// The accounts after a stake was recorded: appended to the account of its
    /// participant, or put into a new account behind the others.
    pub open spec fn credited(self, bet: Bet) -> Seq<StakeAccount> {
        if self.has_account(bet.prediction_id, bet.bettor) {
            let k = self.account_index(bet.prediction_id, bet.bettor);
            self.accounts.update(k, self.accounts[k].with_stake(bet.prediction, bet.amount))
        } else {
            self.accounts.push(
                StakeAccount {
                    prediction_id: bet.prediction_id,
                    bettor: bet.bettor,
                    stakes: seq![(bet.prediction, bet.amount)],
                },
            )
        }
    }

    /// The ledger after a stake was accepted: recorded in the history and
    /// added to the pool of its side.
    pub open spec fn placed(self, bet: Bet) -> MarketState {
        let i = self.prediction_index(bet.prediction_id);
        MarketState {
            predictions: self.predictions.update(
                i,
                self.predictions[i].staked(bet.prediction, bet.amount),
            ),
            accounts: self.credited(bet),
            ..self
        }
    }

    /// The ledger after the outcome of a proposition was declared.
    pub open spec fn resolved(self, id: u32, result: bool) -> MarketState {
        let i = self.prediction_index(id);
        MarketState {
            predictions: self.predictions.update(i, self.predictions[i].resolved_as(result)),
            ..self
        }
    }

    /// What the ledger holds under `id`, if anything.
    pub open spec fn lookup(self, id: u32) -> Option<Prediction> {
        if self.has_prediction(id) {
            Some(self.prediction(id))
        } else {
            None
        }
    }

    /// What reading the proposition `id` returns.
    pub open spec fn read_prediction(self, id: u32) -> Result<Prediction, MarketError> {
        match self.lookup(id) {
            Some(record) => Ok(record),
            None => Err(MarketError::NotFound),
        }
    }

    /// What reading the stakes of a participant on the proposition `id`
    /// returns: an unknown participant has no stakes, an unknown proposition
    /// is an error.
    pub open spec fn read_stakes(self, id: u32, bettor: u64) -> Result<
        Seq<(bool, i128)>,
        MarketError,
    > {
        if self.has_prediction(id) {
            Ok(self.stakes_of(id, bettor))
        } else {
            Err(MarketError::NotFound)
        }
    }

    /// Whether `read` is what reading the stakes of a participant returns: a
    /// well-formed history with exactly the recorded stakes, or the error.
    pub open spec fn is_stakes_read(
        self,
        id: u32,
        bettor: u64,
        read: Result<soroban_sdk::Vec<(bool, i128)>, MarketError>,
    ) -> bool {
        match read {
            Ok(bets) => well_formed(bet_items(bets)) && self.read_stakes(id, bettor) == Ok::<
                Seq<(bool, i128)>,
                MarketError,
            >(entries(bet_items(bets))),
            Err(e) => self.read_stakes(id, bettor) == Err::<Seq<(bool, i128)>, MarketError>(e),
        }
    }

    /// Why a proposition cannot be registered under `id`, if it cannot.
    pub open spec fn create_refusal(self, authorized: bool, id: u32) -> Option<MarketError> {
        register_refusal(authorized, self.lookup(id))
    }

    /// Why a stake cannot be accepted, if it cannot.
    pub open spec fn place_refusal(self, authorized: bool, bet: Bet) -> Option<MarketError> {
        stake_refusal(
            authorized,
            self.lookup(bet.prediction_id),
            self.stakes_of(bet.prediction_id, bet.bettor).len(),
            bet.prediction,
            bet.amount,
        )
    }

    /// Why the outcome of a proposition cannot be declared, if it cannot.
    pub open spec fn resolve_refusal(self, authorized: bool, id: u32) -> Option<MarketError> {
        declare_refusal(authorized, self.lookup(id))
    }
}

/// An account that is replaced changes a pool by the difference of what the
/// two accounts hold in it.
pub proof fn lemma_pool_staked_update(
    accounts: Seq<StakeAccount>,
    k: int,
    account: StakeAccount,
    id: u32,
    side: bool,
)
    requires
        0 <= k < accounts.len(),
    ensures
        pool_staked(accounts.update(k, account), id, side) == pool_staked(accounts, id, side)
            - accounts[k].on_pool(id, side) + account.on_pool(id, side),
    decreases accounts.len(),
{
    let changed = accounts.update(k, account);
    if k == accounts.len() - 1 {
        assert(changed.drop_last() =~= accounts.drop_last());
    } else {
        assert(changed.drop_last() =~= accounts.drop_last().update(k, account));
        lemma_pool_staked_update(accounts.drop_last(), k, account, id, side);
    }
}

/// A proposition on which no account staked has empty pools.
pub proof fn lemma_pool_staked_none(accounts: Seq<StakeAccount>, id: u32, side: bool)
    requires
        forall|k: int| 0 <= k < accounts.len() ==> (#[trigger] accounts[k]).prediction_id != id,
    ensures
        pool_staked(accounts, id, side) == 0,
    decreases accounts.len(),
{
    if accounts.len() > 0 {
        let rest = accounts.drop_last();
        assert forall|k: int| 0 <= k < rest.len() implies (#[trigger] rest[k]).prediction_id
            != id by {
            assert(rest[k] == accounts[k]);
        }
        lemma_pool_staked_none(rest, id, side);
    }
}

/// The stakes accepted for a proposition are those of its two pools.
pub proof fn lemma_pools_make_all_staked(accounts: Seq<StakeAccount>, id: u32)
    ensures
        all_staked(accounts, id) == pool_staked(accounts, id, true) + pool_staked(
            accounts,
            id,
            false,
        ),
    decreases accounts.len(),
{
    if accounts.len() > 0 {
        lemma_pools_make_all_staked(accounts.drop_last(), id);
        crate::stakes::lemma_sides_make_total(accounts.last().stakes);
    }
}

impl MarketState {
    /// In a well-formed ledger the place of a proposition is determined by
    /// its id.
    pub proof fn lemma_prediction_at(self, i: int, id: u32)
        requires
            self.wf(),
            self.is_prediction_at(i, id),
        ensures
            self.has_prediction(id),
            self.prediction_index(id) == i,
            self.prediction(id) == self.predictions[i],
    {
        let j = self.prediction_index(id);
        assert(self.is_prediction_at(j, id));
        if i < j {
            assert(self.predictions[i].id != self.predictions[j].id);
        } else if j < i {
            assert(self.predictions[j].id != self.predictions[i].id);
        }
    }

    /// In a well-formed ledger the place of an account is determined by its
    /// proposition and its participant.
    pub proof fn lemma_account_at(self, k: int, id: u32, bettor: u64)
        requires
            self.wf(),
            self.is_account_at(k, id, bettor),
        ensures
            self.has_account(id, bettor),
            self.account_index(id, bettor) == k,
            self.stakes_of(id, bettor) == self.accounts[k].stakes,
    {
        let l = self.account_index(id, bettor);
        assert(self.is_account_at(l, id, bettor));
        if k < l {
            assert(!(self.accounts[k].prediction_id == self.accounts[l].prediction_id
                && self.accounts[k].bettor == self.accounts[l].bettor));
        } else if l < k {
            assert(!(self.accounts[l].prediction_id == self.accounts[k].prediction_id
                && self.accounts[l].bettor == self.accounts[k].bettor));
        }
    }

    /// A stake that is recorded adds its amount to the pool of its side of its
    /// proposition, and nothing to any other pool.
    pub proof fn lemma_credited_pool(self, bet: Bet, id: u32, side: bool)
        requires
            self.wf(),
        ensures
            pool_staked(self.credited(bet), id, side) == pool_staked(self.accounts, id, side) + (
            if id == bet.prediction_id {
                on_side((bet.prediction, bet.amount), side)
            } else {
                0
            }),
    {
        let entry = (bet.prediction, bet.amount);
        if self.has_account(bet.prediction_id, bet.bettor) {
            let k = self.account_index(bet.prediction_id, bet.bettor);
            assert(self.is_account_at(k, bet.prediction_id, bet.bettor));
            lemma_pool_staked_update(
                self.accounts,
                k,
                self.accounts[k].with_stake(bet.prediction, bet.amount),
                id,
                side,
            );
            lemma_side_total_push(self.accounts[k].stakes, entry, side);
        } else {
            let fresh = StakeAccount {
                prediction_id: bet.prediction_id,
                bettor: bet.bettor,
                stakes: seq![entry],
            };
            assert(self.accounts.push(fresh).drop_last() =~= self.accounts);
            assert(seq![entry] =~= Seq::<(bool, i128)>::empty().push(entry));
            lemma_side_total_push(Seq::<(bool, i128)>::empty(), entry, side);
        }
    }

    /// Designating the currency and the operator keeps the ledger well-formed
    /// and touches neither propositions nor stakes.
    pub proof fn lemma_configured(self, settings: Settings)
        requires
            self.wf(),
        ensures
            self.configured(settings).wf(),
            forall|id: u32|
                self.configured(settings).has_prediction(id) == self.has_prediction(id),
            forall|id: u32|
                self.has_prediction(id) ==> self.configured(settings).prediction(id)
                    == self.prediction(id),
            forall|id: u32, bettor: u64|
                self.configured(settings).stakes_of(id, bettor) == self.stakes_of(id, bettor),
    {
        let next = self.configured(settings);
        self.lemma_same_ids(next);
        assert forall|id: u32| self.has_prediction(id) implies next.prediction(id)
            == self.prediction(id) by {
            let at = self.prediction_index(id);
            assert(self.is_prediction_at(at, id));
            assert(next.is_prediction_at(at, id));
            next.lemma_prediction_at(at, id);
        }
        self.lemma_same_accounts(next);
    }

    /// Registering a proposition under an unused id keeps the ledger
    /// well-formed, adds the fresh proposition and leaves the others and all
    /// stakes as they were.
    pub proof fn lemma_created(self, id: u32)
        requires
            self.wf(),
            !self.has_prediction(id),
        ensures
            self.created(id).wf(),
            self.created(id).has_prediction(id),
            self.created(id).prediction(id) == Prediction::fresh(id),
            forall|other: u32|
                other != id ==> self.created(id).has_prediction(other) == self.has_prediction(
                    other,
                ),
            forall|other: u32|
                self.has_prediction(other) ==> self.created(id).prediction(other)
                    == self.prediction(other),
            forall|other: u32, bettor: u64|
                self.created(id).stakes_of(other, bettor) == self.stakes_of(other, bettor),
    {
        let next = self.created(id);
        let n = self.predictions.len() as int;
        assert forall|i: int| 0 <= i < n implies (#[trigger] self.predictions[i]).id != id by {
            assert(!self.is_prediction_at(i, id));
        }
        assert forall|k: int| 0 <= k < next.accounts.len() implies next.has_prediction(
            (#[trigger] next.accounts[k]).prediction_id,
        ) && all_positive(next.accounts[k].stakes) by {
            let at = self.prediction_index(self.accounts[k].prediction_id);
            assert(self.is_prediction_at(at, self.accounts[k].prediction_id));
            assert(next.is_prediction_at(at, self.accounts[k].prediction_id));
        }
        assert forall|k: int| 0 <= k < self.accounts.len() implies (
        #[trigger] self.accounts[k]).prediction_id != id by {
            assert(self.has_prediction(self.accounts[k].prediction_id));
        }
        lemma_pool_staked_none(self.accounts, id, true);
        lemma_pool_staked_none(self.accounts, id, false);
        assert(next.wf());
        assert(next.is_prediction_at(n, id));
        next.lemma_prediction_at(n, id);
        assert forall|other: u32| other != id implies next.has_prediction(other)
            == self.has_prediction(other) by {
            if self.has_prediction(other) {
                let at = self.prediction_index(other);
                assert(self.is_prediction_at(at, other));
                assert(next.is_prediction_at(at, other));
            }
            if next.has_prediction(other) {
                let at = next.prediction_index(other);
                assert(next.is_prediction_at(at, other));
                assert(self.is_prediction_at(at, other));
            }
        }
        assert forall|other: u32| self.has_prediction(other) implies next.prediction(other)
            == self.prediction(other) by {
            let at = self.prediction_index(other);
            assert(self.is_prediction_at(at, other));
            assert(next.is_prediction_at(at, other));
            next.lemma_prediction_at(at, other);
        }
        self.lemma_same_accounts(next);
    }

    /// Declaring the outcome of a registered proposition keeps the ledger
    /// well-formed, changes that proposition alone and leaves all stakes as
    /// they were.
    pub proof fn lemma_resolved(self, id: u32, result: bool)
        requires
            self.wf(),
            self.has_prediction(id),
        ensures
            self.resolved(id, result).wf(),
            self.resolved(id, result).prediction(id) == self.prediction(id).resolved_as(result),
            forall|other: u32|
                self.resolved(id, result).has_prediction(other) == self.has_prediction(other),
            forall|other: u32|
                other != id && self.has_prediction(other) ==> self.resolved(id, result).prediction(
                    other,
                ) == self.prediction(other),
            forall|other: u32, bettor: u64|
                self.resolved(id, result).stakes_of(other, bettor) == self.stakes_of(
                    other,
                    bettor,
                ),
    {
        let next = self.resolved(id, result);
        let i = self.prediction_index(id);
        assert(self.is_prediction_at(i, id));
        self.lemma_same_ids(next);
        assert forall|j: int| 0 <= j < next.predictions.len() implies (
        #[trigger] next.predictions[j]).wf() && next.predictions[j].yes_amount == pool_staked(
            next.accounts,
            next.predictions[j].id,
            true,
        ) && next.predictions[j].no_amount == pool_staked(
            next.accounts,
            next.predictions[j].id,
            false,
        ) by {
            assert(self.predictions[j].wf());
        }
        assert(next.wf());
        assert(next.is_prediction_at(i, id));
        next.lemma_prediction_at(i, id);
        assert forall|other: u32| other != id && self.has_prediction(other) implies next.prediction(
            other,
        ) == self.prediction(other) by {
            let at = self.prediction_index(other);
            assert(self.is_prediction_at(at, other));
            assert(next.is_prediction_at(at, other));
            next.lemma_prediction_at(at, other);
        }
        self.lemma_same_accounts(next);
    }

    /// Two well-formed ledgers with the same accounts read the same
    /// histories.
    pub proof fn lemma_same_accounts(self, next: MarketState)
        requires
            self.wf(),
            next.wf(),
            next.accounts == self.accounts,
        ensures
            forall|id: u32, bettor: u64| next.stakes_of(id, bettor) == self.stakes_of(id, bettor),
    {
        assert forall|id: u32, bettor: u64| next.stakes_of(id, bettor) == self.stakes_of(
            id,
            bettor,
        ) by {
            if self.has_account(id, bettor) {
                let k = self.account_index(id, bettor);
                assert(self.is_account_at(k, id, bettor));
                assert(next.is_account_at(k, id, bettor));
                next.lemma_account_at(k, id, bettor);
            }
            if next.has_account(id, bettor) {
                let k = next.account_index(id, bettor);
                assert(next.is_account_at(k, id, bettor));
                assert(self.is_account_at(k, id, bettor));
                self.lemma_account_at(k, id, bettor);
            }
        }
    }

    /// Two ledgers whose propositions carry the same ids at the same places
    /// register the same ids.
    pub proof fn lemma_same_ids(self, next: MarketState)
        requires
            self.predictions.len() == next.predictions.len(),
            forall|i: int|
                0 <= i < self.predictions.len() ==> (#[trigger] self.predictions[i]).id
                    == next.predictions[i].id,
        ensures
            forall|id: u32| next.has_prediction(id) == self.has_prediction(id),
    {
        assert forall|id: u32| next.has_prediction(id) == self.has_prediction(id) by {
            if self.has_prediction(id) {
                let at = self.prediction_index(id);
                assert(self.is_prediction_at(at, id));
                assert(self.predictions[at].id == next.predictions[at].id);
                assert(next.is_prediction_at(at, id));
            }
            if next.has_prediction(id) {
                let at = next.prediction_index(id);
                assert(next.is_prediction_at(at, id));
                assert(self.predictions[at].id == next.predictions[at].id);
                assert(self.is_prediction_at(at, id));
            }
        }
    }

    /// Accepting a stake keeps the ledger well-formed, adds the amount to the
    /// pool of its side, appends the stake to the history of its participant
    /// and leaves every other proposition and history as it was.
    pub proof fn lemma_placed(self, bet: Bet)
        requires
            self.wf(),
            self.place_refusal(true, bet) is None,
        ensures
            self.placed(bet).wf(),
            forall|other: u32| self.placed(bet).has_prediction(other) == self.has_prediction(other),
            self.placed(bet).prediction(bet.prediction_id) == self.prediction(
                bet.prediction_id,
            ).staked(bet.prediction, bet.amount),
            forall|other: u32|
                other != bet.prediction_id && self.has_prediction(other) ==> self.placed(
                    bet,
                ).prediction(other) == self.prediction(other),
            self.placed(bet).stakes_of(bet.prediction_id, bet.bettor) == self.stakes_of(
                bet.prediction_id,
                bet.bettor,
            ).push((bet.prediction, bet.amount)),
            forall|id: u32, bettor: u64|
                !(id == bet.prediction_id && bettor == bet.bettor) ==> self.placed(bet).stakes_of(
                    id,
                    bettor,
                ) == self.stakes_of(id, bettor),
    {
        let next = self.placed(bet);
        let id = bet.prediction_id;
        let i = self.prediction_index(id);
        assert(self.is_prediction_at(i, id));
        self.lemma_same_ids(next);
        self.lemma_credited_keys(bet);
        assert forall|j: int| 0 <= j < next.predictions.len() implies (
        #[trigger] next.predictions[j]).wf() && next.predictions[j].yes_amount == pool_staked(
            next.accounts,
            next.predictions[j].id,
            true,
        ) && next.predictions[j].no_amount == pool_staked(
            next.accounts,
            next.predictions[j].id,
            false,
        ) by {
            assert(self.predictions[j].wf());
            self.lemma_credited_pool(bet, self.predictions[j].id, true);
            self.lemma_credited_pool(bet, self.predictions[j].id, false);
            if j != i {
                if j < i {
                    assert(self.predictions[j].id != self.predictions[i].id);
                } else {
                    assert(self.predictions[i].id != self.predictions[j].id);
                }
            }
        }
        assert(next.wf());
        assert(next.is_prediction_at(i, id));
        next.lemma_prediction_at(i, id);
        assert forall|other: u32| other != id && self.has_prediction(other) implies next.prediction(
            other,
        ) == self.prediction(other) by {
            let at = self.prediction_index(other);
            assert(self.is_prediction_at(at, other));
            assert(next.is_prediction_at(at, other));
            next.lemma_prediction_at(at, other);
        }
        self.lemma_credited_reads(bet, next);
    }

    /// Recording a stake keeps the keys of the accounts apart and their
    /// stakes positive.
    pub proof fn lemma_credited_keys(self, bet: Bet)
        requires
            self.wf(),
            bet.amount > 0,
        ensures
            forall|k: int, l: int|
                0 <= k < l < self.credited(bet).len() ==> !((#[trigger] self.credited(
                    bet,
                )[k]).prediction_id == (#[trigger] self.credited(bet)[l]).prediction_id
                    && self.credited(bet)[k].bettor == self.credited(bet)[l].bettor),
            forall|k: int|
                0 <= k < self.credited(bet).len() ==> all_positive(
                    (#[trigger] self.credited(bet)[k]).stakes,
                ) && (self.credited(bet)[k].prediction_id == bet.prediction_id || (k
                    < self.accounts.len() && self.credited(bet)[k].prediction_id
                    == self.accounts[k].prediction_id)),
    {
        let after = self.credited(bet);
        if self.has_account(bet.prediction_id, bet.bettor) {
            let at = self.account_index(bet.prediction_id, bet.bettor);
            assert(self.is_account_at(at, bet.prediction_id, bet.bettor));
            assert forall|k: int| 0 <= k < after.len() implies all_positive(
                (#[trigger] after[k]).stakes,
            ) && (after[k].prediction_id == bet.prediction_id || (k < self.accounts.len()
                && after[k].prediction_id == self.accounts[k].prediction_id)) by {
                assert(all_positive(self.accounts[k].stakes));
            }
            assert forall|k: int, l: int| 0 <= k < l < after.len() implies !((
            #[trigger] after[k]).prediction_id == (#[trigger] after[l]).prediction_id
                && after[k].bettor == after[l].bettor) by {
                assert(!(self.accounts[k].prediction_id == self.accounts[l].prediction_id
                    && self.accounts[k].bettor == self.accounts[l].bettor));
            }
        } else {
            assert forall|k: int| 0 <= k < after.len() implies all_positive(
                (#[trigger] after[k]).stakes,
            ) && (after[k].prediction_id == bet.prediction_id || (k < self.accounts.len()
                && after[k].prediction_id == self.accounts[k].prediction_id)) by {
                if k < self.accounts.len() {
                    assert(all_positive(self.accounts[k].stakes));
                }
            }
            assert forall|k: int, l: int| 0 <= k < l < after.len() implies !((
            #[trigger] after[k]).prediction_id == (#[trigger] after[l]).prediction_id
                && after[k].bettor == after[l].bettor) by {
                if l < self.accounts.len() {
                    assert(!(self.accounts[k].prediction_id == self.accounts[l].prediction_id
                        && self.accounts[k].bettor == self.accounts[l].bettor));
                } else {
                    assert(!self.is_account_at(k, bet.prediction_id, bet.bettor));
                }
            }
        }
    }

    /// What the histories read after a stake was recorded in a ledger `next`
    /// that is well-formed: the stake is the last of its own history, and the
    /// other histories are as before.
    pub proof fn lemma_credited_reads(self, bet: Bet, next: MarketState)
        requires
            self.wf(),
            next.wf(),
            next.accounts == self.credited(bet),
        ensures
            next.stakes_of(bet.prediction_id, bet.bettor) == self.stakes_of(
                bet.prediction_id,
                bet.bettor,
            ).push((bet.prediction, bet.amount)),
            forall|id: u32, bettor: u64|
                !(id == bet.prediction_id && bettor == bet.bettor) ==> next.stakes_of(id, bettor)
                    == self.stakes_of(id, bettor),
    {
        let entry = (bet.prediction, bet.amount);
        let n = self.accounts.len() as int;
        let own = self.has_account(bet.prediction_id, bet.bettor);
        let at = if own {
            self.account_index(bet.prediction_id, bet.bettor)
        } else {
            n
        };
        if own {
            assert(self.is_account_at(at, bet.prediction_id, bet.bettor));
        } else {
            assert(seq![entry] =~= Seq::<(bool, i128)>::empty().push(entry));
        }
        assert(next.is_account_at(at, bet.prediction_id, bet.bettor));
        next.lemma_account_at(at, bet.prediction_id, bet.bettor);
        assert forall|id: u32, bettor: u64|
            !(id == bet.prediction_id && bettor == bet.bettor) implies next.stakes_of(id, bettor)
                == self.stakes_of(id, bettor) by {
            if self.has_account(id, bettor) {
                let k = self.account_index(id, bettor);
                assert(self.is_account_at(k, id, bettor));
                assert(next.is_account_at(k, id, bettor));
                next.lemma_account_at(k, id, bettor);
            }
            if next.has_account(id, bettor) {
                let k = next.account_index(id, bettor);
                assert(next.is_account_at(k, id, bettor));
                assert(self.is_account_at(k, id, bettor));
                self.lemma_account_at(k, id, bettor);
            }
        }
    }
}

} // verus!
