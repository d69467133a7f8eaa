use vstd::prelude::*;
use crate::engine::{accept_stake, declare, designate, known, register, settle};
use crate::error::MarketError;
use crate::laws::follows;
use crate::ledger::{Bet, MarketState, Settings, StakeAccount};
use crate::prediction::Prediction;
use crate::host::{bets_clone, new_bets};
use crate::stakes::{bet_items, entries, well_formed};

verus! {

/// The stake history of one participant on one proposition.
struct Account {
    prediction_id: u32,
    bettor: u64,
    bets: soroban_sdk::Vec<(bool, i128)>,
}

impl Account {
    /// The account as a mathematical value.
    spec fn view(&self) -> StakeAccount {
        StakeAccount {
            prediction_id: self.prediction_id,
            bettor: self.bettor,
            stakes: entries(bet_items(self.bets)),
        }
    }
}

/// The wagering ledger: the registered propositions with their pools, and the
/// stake history of every participant, kept in memory.
pub struct PredictionMarket {
    env: soroban_sdk::Env,
    settings: Option<Settings>,
    predictions: Vec<Prediction>,
    accounts: Vec<Account>,
}

impl PredictionMarket {
    /// The ledger as a mathematical value.
    pub closed spec fn view(&self) -> MarketState {
        MarketState {
            settings: self.settings,
            predictions: self.predictions@,
            accounts: Seq::new(self.accounts@.len(), |k: int| self.accounts@[k]@),
        }
    }

    /// The ledger is consistent: its value is well-formed and every recorded
    /// stake is a pair of a side and an amount.
    pub closed spec fn wf(&self) -> bool {
        &&& self@.wf()
        &&& forall|k: int|
            0 <= k < self.accounts@.len() ==> well_formed(
                bet_items((#[trigger] self.accounts@[k]).bets),
            )
    }

    /// The value of a consistent ledger is well-formed, so that what holds of
    /// every well-formed value holds of the ledger.
    pub proof fn lemma_view_wf(&self)
        requires
            self.wf(),
        ensures
            self@.wf(),
    {
    }

    /// An empty ledger whose stake histories will live in `env`.
    pub fn new(env: soroban_sdk::Env) -> (market: PredictionMarket)
        ensures
            market.wf(),
            market@ == MarketState::empty(),
    {
        let market = PredictionMarket {
            env,
            settings: None,
            predictions: Vec::new(),
            accounts: Vec::new(),
        };
        assert(market@.accounts =~= Seq::empty());
        assert(market@.predictions =~= Seq::empty());
        market
    }

    /// Designates the settlement currency and the operator. This is done
    /// once.
    pub fn initialize(&mut self, token: soroban_sdk::Address, admin: soroban_sdk::Address) -> (r:
        Result<(), MarketError>)
        requires
            old(self).wf(),
        ensures
            final(self).wf(),
            r is Ok ==> follows(old(self)@, final(self)@),
            match r {
                Ok(_) => !old(self)@.initialized() && final(self)@ == old(self)@.configured(
                    (Settings { token, admin }),
                ),
                Err(e) => old(self)@.initialized() && e == MarketError::AlreadyInitialized
                    && *final(self) == *old(self),
            },
    {
        designate(self.settings.is_some())?;
        let ghost chosen = Settings { token, admin };
        self.settings = Some(Settings { token, admin });
        proof {
            assert(self@.accounts =~= old(self)@.accounts);
            assert(self@ == old(self)@.configured(chosen));
            old(self)@.lemma_configured(chosen);
        }
        Ok(())
    }

    /// What was designated, if anything was.
    pub fn settings(&self) -> (r: Option<&Settings>)
        ensures
            match r {
                Some(settings) => self@.settings == Some(*settings),
                None => self@.settings is None,
            },
    {
        self.settings.as_ref()
    }

    /// The place of the proposition registered under `id`, if there is one.
    fn find_prediction(&self, id: u32) -> (r: Option<usize>)
        ensures
            match r {
                Some(i) => self@.is_prediction_at(i as int, id),
                None => !self@.has_prediction(id),
            },
    {
        let mut i: usize = 0;
        while i < self.predictions.len()
            invariant
                i <= self.predictions@.len(),
                forall|j: int| 0 <= j < i ==> !self@.is_prediction_at(j, id),
            decreases self.predictions@.len() - i,
        {
            if self.predictions[i].id == id {
                return Some(i);
            }
            i = i + 1;
        }
        None
    }

    /// The place of the participant's account on the proposition, if there
    /// is one.
    fn find_account(&self, id: u32, bettor: u64) -> (r: Option<usize>)
        ensures
            match r {
                Some(k) => self@.is_account_at(k as int, id, bettor),
                None => !self@.has_account(id, bettor),
            },
    {
        let mut k: usize = 0;
        while k < self.accounts.len()
            invariant
                k <= self.accounts@.len(),
                forall|l: int| 0 <= l < k ==> !self@.is_account_at(l, id, bettor),
            decreases self.accounts@.len() - k,
        {
            if self.accounts[k].prediction_id == id && self.accounts[k].bettor == bettor {
                return Some(k);
            }
            k = k + 1;
        }
        None
    }

    /// The proposition registered under `id`, if there is one, with its place.
    fn lookup(&self, id: u32) -> (r: (Option<usize>, Option<Prediction>))
        requires
            self.wf(),
        ensures
            r.1 == self@.lookup(id),
            match r.0 {
                Some(i) => self@.is_prediction_at(i as int, id) && self@.prediction_index(id) == i,
                None => !self@.has_prediction(id),
            },
            r.1 is Some ==> r.1->0.wf(),
    {
        match self.find_prediction(id) {
            Some(i) => {
                proof {
                    self@.lemma_prediction_at(i as int, id);
                }
                (Some(i), Some(self.predictions[i]))
            },
            None => (None, None),
        }
    }

    /// The history of a participant on a proposition, empty where nothing
    /// was staked, with the place of the account if there is one.
    fn history(&self, id: u32, bettor: u64) -> (r: (
        Option<usize>,
        soroban_sdk::Vec<(bool, i128)>,
    ))
        requires
            self.wf(),
        ensures
            well_formed(bet_items(r.1)),
            entries(bet_items(r.1)) == self@.stakes_of(id, bettor),
            match r.0 {
                Some(k) => self@.is_account_at(k as int, id, bettor) && self@.account_index(
                    id,
                    bettor,
                ) == k,
                None => !self@.has_account(id, bettor),
            },
    {
        match self.find_account(id, bettor) {
            Some(k) => {
                proof {
                    self@.lemma_account_at(k as int, id, bettor);
                }
                (Some(k), bets_clone(&self.accounts[k].bets))
            },
            None => {
                let bets = new_bets(&self.env);
                assert(entries(bet_items(bets)) =~= Seq::<(bool, i128)>::empty());
                (None, bets)
            },
        }
    }

    /// Registers a proposition under `id`: open, with empty pools. Only the
    /// operator may do so, and an id is used once.
    pub fn create_prediction(&mut self, authorized: bool, id: u32) -> (r: Result<(), MarketError>)
        requires
            old(self).wf(),
            old(self)@.initialized(),
        ensures
            final(self).wf(),
            r is Ok ==> follows(old(self)@, final(self)@),
            match r {
                Ok(_) => old(self)@.create_refusal(authorized, id) is None && final(self)@ == old(
                    self,
                )@.created(id),
                Err(e) => old(self)@.create_refusal(authorized, id) == Some(e) && *final(self)
                    == *old(self),
            },
    {
        let (_, existing) = self.lookup(id);
        let record: Prediction = register(authorized, existing, id)?;
        self.predictions.push(record);
        proof {
            assert(self@.accounts =~= old(self)@.accounts);
            assert(self@ == old(self)@.created(id));
            old(self)@.lemma_created(id);
        }
        Ok(())
    }

    /// Accepts a stake: appends it to the history of its participant and adds
    /// its amount to the pool of its side, both or neither.
    pub fn place(&mut self, authorized: bool, bet: Bet) -> (r: Result<(), MarketError>)
        requires
            old(self).wf(),
            old(self)@.initialized(),
        ensures
            final(self).wf(),
            r is Ok ==> follows(old(self)@, final(self)@),
            match r {
                Ok(_) => old(self)@.place_refusal(authorized, bet) is None && final(self)@ == old(
                    self,
                )@.placed(bet),
                Err(e) => old(self)@.place_refusal(authorized, bet) == Some(e) && *final(self)
                    == *old(self),
            },
    {
        let (place, found) = self.lookup(bet.prediction_id);
        let (slot, mut bets) = self.history(bet.prediction_id, bet.bettor);
        let ghost before = entries(bet_items(bets));
        let record: Prediction = accept_stake(
            authorized,
            found,
            &mut bets,
            bet.prediction,
            bet.amount,
        )?;
        assert(entries(bet_items(bets)) =~= before.push((bet.prediction, bet.amount)));
        let account = Account { prediction_id: bet.prediction_id, bettor: bet.bettor, bets };
        let i: usize = match place {
            Some(i) => i,
            None => {
                return Err(MarketError::NotFound);
            },
        };
        self.predictions.set(i, record);
        match slot {
            Some(k) => {
                self.accounts.set(k, account);
            },
            None => {
                assert(account@.stakes =~= seq![(bet.prediction, bet.amount)]);
                self.accounts.push(account);
            },
        }
        proof {
            assert(self@.accounts =~= old(self)@.credited(bet));
            assert(self@ == old(self)@.placed(bet));
            old(self)@.lemma_placed(bet);
        }
        Ok(())
    }

    /// Accepts the stake of `amount` that `bettor` places on one side of the
    /// proposition `prediction_id`.
    pub fn place_bet(
        &mut self,
        authorized: bool,
        prediction_id: u32,
        bettor: u64,
        amount: i128,
        prediction: bool,
    ) -> (r: Result<(), MarketError>)
        requires
            old(self).wf(),
            old(self)@.initialized(),
        ensures
            final(self).wf(),
            r is Ok ==> follows(old(self)@, final(self)@),
            match r {
                Ok(_) => old(self)@.place_refusal(
                    authorized,
                    (Bet { bettor, amount, prediction, prediction_id }),
                ) is None && final(self)@ == old(self)@.placed(
                    (Bet { bettor, amount, prediction, prediction_id }),
                ),
                Err(e) => old(self)@.place_refusal(
                    authorized,
                    (Bet { bettor, amount, prediction, prediction_id }),
                ) == Some(e) && *final(self) == *old(self),
            },
    {
        self.place(authorized, Bet { bettor, amount, prediction, prediction_id })
    }

    /// Declares the outcome of a proposition. Only the operator may do so, and
    /// only once: the decision is final.
    pub fn resolve_prediction(&mut self, authorized: bool, prediction_id: u32, result: bool) -> (r:
        Result<(), MarketError>)
        requires
            old(self).wf(),
            old(self)@.initialized(),
        ensures
            final(self).wf(),
            r is Ok ==> follows(old(self)@, final(self)@),
            match r {
                Ok(_) => old(self)@.resolve_refusal(authorized, prediction_id) is None
                    && final(self)@ == old(self)@.resolved(prediction_id, result),
                Err(e) => old(self)@.resolve_refusal(authorized, prediction_id) == Some(e)
                    && *final(self) == *old(self),
            },
    {
        let (place, found) = self.lookup(prediction_id);
        let pool: Prediction = declare(authorized, found, result)?;
        let i: usize = match place {
            Some(i) => i,
            None => {
                return Err(MarketError::NotFound);
            },
        };
        self.predictions.set(i, pool);
        proof {
            assert(self@.accounts =~= old(self)@.accounts);
            assert(self@ == old(self)@.resolved(prediction_id, result));
            old(self)@.lemma_resolved(prediction_id, result);
        }
        Ok(())
    }

    /// The proposition registered under `prediction_id`.
    pub fn get_prediction(&self, prediction_id: u32) -> (r: Result<Prediction, MarketError>)
        requires
            self.wf(),
        ensures
            r == self@.read_prediction(prediction_id),
    {
        known(self.lookup(prediction_id).1)
    }

    /// The stakes of a participant on a proposition, oldest first, each one
    /// as it was placed. A participant who never staked has an empty history;
    /// only an unknown proposition is an error.
    pub fn get_user_bets(&self, prediction_id: u32, bettor: u64) -> (r: Result<
        soroban_sdk::Vec<(bool, i128)>,
        MarketError,
    >)
        requires
            self.wf(),
        ensures
            self@.is_stakes_read(prediction_id, bettor, r),
    {
        known(self.lookup(prediction_id).1)?;
        Ok(self.history(prediction_id, bettor).1)
    }

    /// What a participant is owed from a resolved proposition: the stake back
    /// where nobody staked the winning side, otherwise the share of the whole
    /// pool that falls to the participant's winning stakes, rounded down.
    pub fn compute_payout(&self, prediction_id: u32, bettor: u64) -> (r: Result<i128, MarketError>)
        requires
            self.wf(),
            self@.has_prediction(prediction_id) ==> self@.prediction(prediction_id).resolved,
        ensures
            match r {
                Ok(owed) => self@.has_prediction(prediction_id) && owed == self@.prediction(
                    prediction_id,
                ).payout(self@.stakes_of(prediction_id, bettor)),
                Err(e) => if self@.has_prediction(prediction_id) {
                    e == MarketError::Overflow && self@.prediction(prediction_id).payout(
                        self@.stakes_of(prediction_id, bettor),
                    ) > i128::MAX
                } else {
                    e == MarketError::NotFound
                },
            },
    {
        let (_, found) = self.lookup(prediction_id);
        let (_, bets) = self.history(prediction_id, bettor);
        settle(found, &bets)
    }
}

} // verus!
