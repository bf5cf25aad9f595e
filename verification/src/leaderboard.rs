//! The leaderboard service: anyone may read a score, only the owner may
//! write one, and every accepted write is reported as an event.

use vstd::prelude::*;
use vstd::std_specs::cmp::PartialEqSpecImpl;
use crate::account::AccountId;
use crate::store::{lemma_upsert_wf, ScoreStore, StoreView};

verus! {

/// Why a write was refused.
#[derive(Clone, Copy, Debug, PartialEq, Eq, Structural)]
pub enum Error {
    /// The caller of an owner-only operation is not the owner.
    CallerIsNotOwner,
}

impl Error {
    /// Returns the error's message.
    pub fn message(&self) -> (text: &'static str)
        ensures
            text@ == "Error: CallerIsNotOwner"@,
    {
        match self {
            Error::CallerIsNotOwner => "Error: CallerIsNotOwner",
        }
    }
}

/// The notification of an accepted write: `of` now has `score`.
#[derive(Clone, Copy, Debug, Eq)]
pub struct SetAccountScore {
    pub of: AccountId,
    pub score: u32,
}

impl PartialEq for SetAccountScore {
    fn eq(&self, other: &SetAccountScore) -> (same: bool) {
        self.of == other.of && self.score == other.score
    }
}

impl PartialEqSpecImpl for SetAccountScore {
    open spec fn obeys_eq_spec() -> bool {
        true
    }

    open spec fn eq_spec(&self, other: &SetAccountScore) -> bool {
        *self == *other
    }
}

/// What a leaderboard holds, as mathematics.
pub struct LeaderboardView {
    /// The only account that may write scores.
    pub owner: AccountId,
    /// The scores and the registry of scored accounts.
    pub store: StoreView,
}

impl LeaderboardView {
    /// The leaderboard as constructed by `owner`: the all-zero account is
    /// registered with score zero, and nothing else is.
    pub open spec fn initial(owner: AccountId) -> LeaderboardView {
        LeaderboardView { owner, store: StoreView::empty().upsert(AccountId::zero(), 0) }
    }

    /// The leaderboard after `caller` asks to set the score of `of`: an
    /// owner's write goes to the store, anyone else's changes nothing.
    pub open spec fn set_score(
        self,
        caller: AccountId,
        of: AccountId,
        score: u32,
    ) -> LeaderboardView {
        if caller == self.owner {
            LeaderboardView { owner: self.owner, store: self.store.upsert(of, score) }
        } else {
            self
        }
    }

    /// What `caller` is told on asking to set the score of `of`: the
    /// event to publish, or that the caller is not the owner.
    pub open spec fn set_score_outcome(
        self,
        caller: AccountId,
        of: AccountId,
        score: u32,
    ) -> Result<SetAccountScore, Error> {
        if caller == self.owner {
            Ok(SetAccountScore { of, score })
        } else {
            Err(Error::CallerIsNotOwner)
        }
    }
}

/// A new leaderboard belongs to its constructor, and its store is well
/// formed: it registers the all-zero account with score zero, once, and
/// nothing else.
pub proof fn lemma_initial(owner: AccountId)
    ensures
        LeaderboardView::initial(owner).owner == owner,
        LeaderboardView::initial(owner).store.wf(),
        LeaderboardView::initial(owner).store.known == seq![AccountId::zero()],
        LeaderboardView::initial(owner).store.scores == Map::<AccountId, u32>::empty().insert(
            AccountId::zero(),
            0,
        ),
{
    lemma_upsert_wf(StoreView::empty(), AccountId::zero(), 0);
    assert(LeaderboardView::initial(owner).store.known =~= seq![AccountId::zero()]);
}

/// A leaderboard: the owner fixed at construction, and the score store.
#[derive(Debug)]
pub struct Leaderboard {
    owner: AccountId,
    store: ScoreStore,
}

impl View for Leaderboard {
    type V = LeaderboardView;

    closed spec fn view(&self) -> LeaderboardView {
        LeaderboardView { owner: self.owner, store: self.store@ }
    }
}

impl Leaderboard {
    /// Creates the leaderboard owned by `caller`, with the all-zero
    /// account registered at score zero.
    pub fn new(caller: AccountId) -> (leaderboard: Leaderboard)
        ensures
            leaderboard@ == LeaderboardView::initial(caller),
            leaderboard@.store.wf(),
    {
        let mut store = ScoreStore::new();
        store.upsert(AccountId::zero(), 0);
        Leaderboard { owner: caller, store }
    }

    /// Puts a leaderboard back together from its owner and its store.
    pub fn from_parts(owner: AccountId, store: ScoreStore) -> (leaderboard: Leaderboard)
        ensures
            leaderboard@ == (LeaderboardView { owner, store: store@ }),
    {
        Leaderboard { owner, store }
    }

    /// The score store.
    pub fn store(&self) -> (store: &ScoreStore)
        ensures
            store@ == self@.store,
    {
        &self.store
    }

    /// Returns the score of `of`, or zero if it was never written.
    pub fn get_score_of_account(&self, of: AccountId) -> (score: u32)
        ensures
            score == self@.store.score_of(of),
    {
        self.account_score_or_zero(&of)
    }

    /// Returns the score of the caller, or zero if it was never written.
    pub fn get_score_of_sender(&self, caller: AccountId) -> (score: u32)
        ensures
            score == self@.store.score_of(caller),
    {
        self.account_score_or_zero(&caller)
    }

    /// Sets the score of `of` on behalf of `caller`. Only the owner may
    /// do so: for any other caller nothing changes. An accepted write
    /// replaces the account's score and returns the event to publish.
    pub fn set_score_of_account(
        &mut self,
        caller: AccountId,
        of: AccountId,
        score: u32,
    ) -> (outcome: Result<SetAccountScore, Error>)
        ensures
            final(self)@ == old(self)@.set_score(caller, of, score),
            outcome == old(self)@.set_score_outcome(caller, of, score),
            caller != old(self)@.owner ==> *final(self) == *old(self),
    {
        if caller != self.owner {
            return Err(Error::CallerIsNotOwner);
        }
        self.store.upsert(of, score);
        Ok(SetAccountScore { of, score })
    }

    /// Sets the caller's own score. Only the owner may do so: for any
    /// other caller nothing changes. An accepted write replaces the
    /// score and returns the event to publish.
    pub fn set_score_of_sender(
        &mut self,
        caller: AccountId,
        score: u32,
    ) -> (outcome: Result<SetAccountScore, Error>)
        ensures
            final(self)@ == old(self)@.set_score(caller, caller, score),
            outcome == old(self)@.set_score_outcome(caller, caller, score),
            caller != old(self)@.owner ==> *final(self) == *old(self),
    {
        if caller != self.owner {
            return Err(Error::CallerIsNotOwner);
        }
        self.store.upsert(caller, score);
        Ok(SetAccountScore { of: caller, score })
    }

    /// Returns the owner: the caller that constructed the leaderboard.
    pub fn get_owner(&self) -> (owner: AccountId)
        ensures
            owner == self@.owner,
    {
        self.owner
    }

    /// Returns the score stored for `of`, or zero if there is none.
    fn account_score_or_zero(&self, of: &AccountId) -> (score: u32)
        ensures
            score == self@.store.score_of(*of),
    {
        self.store.get(of)
    }
}

} // verus!
