//! The score store: a score for every account that was ever written, and
//! the accounts themselves in the order of their first write.

use vstd::prelude::*;
use crate::account::AccountId;

verus! {

/// What a score store holds, as mathematics.
#[verifier::ext_equal]
pub struct StoreView {
    /// The score of every account that has been written.
    pub scores: Map<AccountId, u32>,
    /// The written accounts, in the order of their first write.
    pub known: Seq<AccountId>,
}

impl StoreView {
    /// The store in which nothing was ever written.
    pub open spec fn empty() -> StoreView {
        StoreView { scores: Map::empty(), known: Seq::empty() }
    }

    /// The registry lists every scored account, once.
    pub open spec fn wf(self) -> bool {
        &&& self.known.no_duplicates()
        &&& forall|account: AccountId|
            self.scores.dom().contains(account) <==> self.known.contains(account)
    }

    /// The score read for `account`: the stored one, or zero if the
    /// account was never written.
    pub open spec fn score_of(self, account: AccountId) -> u32 {
        if self.scores.dom().contains(account) {
            self.scores[account]
        } else {
            0
        }
    }

    /// The store after writing `score` for `account`: the score replaces
    /// any earlier one, and a new account joins the end of the registry.
    pub open spec fn upsert(self, account: AccountId, score: u32) -> StoreView {
        StoreView {
            scores: self.scores.insert(account, score),
            known: if self.scores.dom().contains(account) {
                self.known
            } else {
                self.known.push(account)
            },
        }
    }

    /// The store after the `writes`, each an account and its score,
    /// applied first to last.
    pub open spec fn upsert_all(self, writes: Seq<(AccountId, u32)>) -> StoreView
        decreases writes.len(),
    {
        if writes.len() == 0 {
            self
        } else {
            self.upsert_all(writes.drop_last()).upsert(writes.last().0, writes.last().1)
        }
    }

    /// The registered accounts, each with its score, in registry order.
    pub open spec fn entries(self) -> Seq<(AccountId, u32)> {
        Seq::new(self.known.len(), |i: int| (self.known[i], self.scores[self.known[i]]))
    }
}

/// A write keeps the store well formed.
pub proof fn lemma_upsert_wf(store: StoreView, account: AccountId, score: u32)
    requires
        store.wf(),
    ensures
        store.upsert(account, score).wf(),
{
    let after = store.upsert(account, score);
    if !store.scores.dom().contains(account) {
        lemma_push_fresh(store.known, account);
        assert(after.known == store.known.push(account));
    }
    assert forall|a: AccountId| after.scores.dom().contains(a) <==> after.known.contains(a) by {
        assert(store.scores.dom().contains(a) <==> store.known.contains(a));
    }
}

/// After a write, the written account reads the written score and every
/// other account reads what it read before.
pub proof fn lemma_upsert_score_of(
    store: StoreView,
    account: AccountId,
    score: u32,
    other: AccountId,
)
    ensures
        other == account ==> store.upsert(account, score).score_of(other) == score,
        other != account ==> store.upsert(account, score).score_of(other) == store.score_of(
            other,
        ),
{
}

/// A write never removes or reorders registered accounts: the registry
/// grows by the written account if it is new, and not at all otherwise.
pub proof fn lemma_upsert_known(store: StoreView, account: AccountId, score: u32)
    requires
        store.wf(),
    ensures
        store.known.is_prefix_of(store.upsert(account, score).known),
        store.upsert(account, score).known.contains(account),
        forall|other: AccountId|
            store.upsert(account, score).known.contains(other) <==> (other == account
                || store.known.contains(other)),
        store.known.contains(account) ==> store.upsert(account, score).known == store.known,
        !store.known.contains(account) ==> store.upsert(account, score).known
            == store.known.push(account),
{
    if !store.scores.dom().contains(account) {
        lemma_push_fresh(store.known, account);
    }
}

/// Of two writes to one account the later one counts: the earlier score
/// is replaced, not added to.
pub proof fn lemma_upsert_replaces(store: StoreView, account: AccountId, first: u32, second: u32)
    ensures
        store.upsert(account, first).upsert(account, second) == store.upsert(account, second),
{
    assert(store.upsert(account, first).upsert(account, second) =~= store.upsert(
        account,
        second,
    ));
}

/// Pushing an element that a duplicate-free sequence lacks keeps it
/// duplicate-free, and adds that element and no other.
proof fn lemma_push_fresh(accounts: Seq<AccountId>, account: AccountId)
    requires
        accounts.no_duplicates(),
        !accounts.contains(account),
    ensures
        accounts.push(account).no_duplicates(),
        accounts.is_prefix_of(accounts.push(account)),
        forall|other: AccountId|
            accounts.push(account).contains(other) <==> (other == account || accounts.contains(
                other,
            )),
{
    let after = accounts.push(account);
    assert(after[accounts.len() as int] == account);
    assert forall|other: AccountId|
        after.contains(other) <==> (other == account || accounts.contains(other)) by {
        if accounts.contains(other) {
            let k: int = accounts.index_of(other);
            assert(after[k] == other);
        }
        if after.contains(other) {
            let k: int = after.index_of(other);
            if k < accounts.len() {
                assert(accounts[k] == other);
            }
        }
    }
    assert forall|j: int, k: int|
        0 <= j < after.len() && 0 <= k < after.len() && j != k implies after[j] != after[k] by {
        if j < accounts.len() && k < accounts.len() {
            assert(accounts[j] != accounts[k]);
        } else if j < accounts.len() {
            assert(accounts[j] == after[j]);
        } else {
            assert(accounts[k] == after[k]);
        }
    }
    assert(accounts =~= after.subrange(0, accounts.len() as int));
}

/// One scored account.
#[derive(Clone, Copy, Debug)]
struct Entry {
    account: AccountId,
    score: u32,
}

/// The accounts of `entries`, in order.
spec fn accounts_of(entries: Seq<Entry>) -> Seq<AccountId> {
    entries.map_values(|e: Entry| e.account)
}

/// The score that `entries` give each of their accounts.
spec fn scores_of(entries: Seq<Entry>) -> Map<AccountId, u32> {
    Map::new(
        |account: AccountId| accounts_of(entries).contains(account),
        |account: AccountId| entries[accounts_of(entries).index_of(account)].score,
    )
}

/// With distinct accounts, each entry's account maps to that entry's score.
proof fn lemma_scores_of(entries: Seq<Entry>, i: int)
    requires
        accounts_of(entries).no_duplicates(),
        0 <= i < entries.len(),
    ensures
        scores_of(entries).dom().contains(entries[i].account),
        scores_of(entries)[entries[i].account] == entries[i].score,
{
    let accounts = accounts_of(entries);
    assert(accounts[i] == entries[i].account);
    let j: int = accounts.index_of(entries[i].account);
    assert(0 <= j < accounts.len() && accounts[j] == entries[i].account);
    assert(j == i);
}

/// Putting `entry` in place of the entry at `i` that has its account
/// keeps the accounts and maps that account to the new score.
proof fn lemma_replace_entry(entries: Seq<Entry>, i: int, entry: Entry)
    requires
        accounts_of(entries).no_duplicates(),
        0 <= i < entries.len(),
        entries[i].account == entry.account,
    ensures
        accounts_of(entries.update(i, entry)) == accounts_of(entries),
        scores_of(entries.update(i, entry)) == scores_of(entries).insert(
            entry.account,
            entry.score,
        ),
{
    let after = entries.update(i, entry);
    assert(accounts_of(after) =~= accounts_of(entries));
    assert(accounts_of(entries)[i] == entry.account);
    assert forall|a: AccountId| scores_of(after).dom().contains(a) implies scores_of(after)[a]
        == scores_of(entries).insert(entry.account, entry.score)[a] by {
        let k: int = accounts_of(entries).index_of(a);
        assert(0 <= k < entries.len() && accounts_of(entries)[k] == a);
        assert(entries[k].account == a && after[k].account == a);
        lemma_scores_of(after, k);
        lemma_scores_of(entries, k);
    }
    assert(scores_of(after) =~= scores_of(entries).insert(entry.account, entry.score));
}

/// Appending an entry for an unwritten account appends the account and
/// maps it to the entry's score.
proof fn lemma_append_entry(entries: Seq<Entry>, entry: Entry)
    requires
        accounts_of(entries).no_duplicates(),
        !accounts_of(entries).contains(entry.account),
    ensures
        accounts_of(entries.push(entry)) == accounts_of(entries).push(entry.account),
        accounts_of(entries.push(entry)).no_duplicates(),
        scores_of(entries.push(entry)) == scores_of(entries).insert(entry.account, entry.score),
{
    let after = entries.push(entry);
    lemma_push_fresh(accounts_of(entries), entry.account);
    assert(accounts_of(after) =~= accounts_of(entries).push(entry.account));
    assert forall|a: AccountId| scores_of(after).dom().contains(a) implies scores_of(after)[a]
        == scores_of(entries).insert(entry.account, entry.score)[a] by {
        let k: int = accounts_of(after).index_of(a);
        assert(0 <= k < after.len() && accounts_of(after)[k] == a);
        lemma_scores_of(after, k);
        if k < entries.len() {
            assert(accounts_of(entries)[k] == a);
            lemma_scores_of(entries, k);
        }
    }
    assert(scores_of(after) =~= scores_of(entries).insert(entry.account, entry.score));
}

/// A mapping from accounts to scores that remembers the order in which
/// accounts were first written. Scores are only ever replaced, and no
/// account ever leaves the registry.
#[derive(Debug)]
pub struct ScoreStore {
    entries: Vec<Entry>,
}

impl View for ScoreStore {
    type V = StoreView;

    closed spec fn view(&self) -> StoreView {
        StoreView { scores: scores_of(self.entries@), known: accounts_of(self.entries@) }
    }
}

impl ScoreStore {
    /// No account has two entries.
    #[verifier::type_invariant]
    spec fn distinct_accounts(self) -> bool {
        accounts_of(self.entries@).no_duplicates()
    }

    /// Creates a store in which nothing was written.
    pub fn new() -> (store: ScoreStore)
        ensures
            store@ == StoreView::empty(),
            store@.wf(),
    {
        let store = ScoreStore { entries: Vec::new() };
        assert(store@.scores =~= Map::empty());
        assert(store@.known =~= Seq::empty());
        store
    }

    /// Where `account` stands among the entries, if it was written.
    fn position(&self, account: &AccountId) -> (found: Option<usize>)
        ensures
            found matches Some(i) ==> i < self.entries@.len() && self.entries@[i as int].account
                == *account,
            found is None ==> !self@.known.contains(*account),
    {
        let mut i: usize = 0;
        while i < self.entries.len()
            invariant
                i <= self.entries@.len(),
                forall|j: int| 0 <= j < i ==> self.entries@[j].account != *account,
            decreases self.entries@.len() - i,
        {
            if self.entries[i].account == *account {
                return Some(i);
            }
            i += 1;
        }
        None
    }

    /// Returns the score stored for `account`, or zero if it was never
    /// written.
    pub fn get(&self, account: &AccountId) -> (score: u32)
        ensures
            score == self@.score_of(*account),
            self@.wf(),
    {
        proof {
            use_type_invariant(self);
        }
        match self.position(account) {
            Some(i) => {
                proof {
                    lemma_scores_of(self.entries@, i as int);
                }
                self.entries[i].score
            },
            None => 0,
        }
    }

    /// Returns every account that was ever written, in the order of
    /// their first write.
    pub fn accounts(&self) -> (accounts: Vec<AccountId>)
        ensures
            accounts@ == self@.known,
            self@.wf(),
    {
        proof {
            use_type_invariant(self);
        }
        let mut accounts: Vec<AccountId> = Vec::new();
        let mut i: usize = 0;
        while i < self.entries.len()
            invariant
                i <= self.entries@.len(),
                accounts@ == accounts_of(self.entries@).subrange(0, i as int),
            decreases self.entries@.len() - i,
        {
            accounts.push(self.entries[i].account);
            i += 1;
        }
        accounts
    }

    /// Returns every account that was ever written together with its
    /// score, in the order of their first write.
    pub fn entries(&self) -> (entries: Vec<(AccountId, u32)>)
        ensures
            entries@ == self@.entries(),
            self@.wf(),
    {
        proof {
            use_type_invariant(self);
        }
        let mut entries: Vec<(AccountId, u32)> = Vec::new();
        let mut i: usize = 0;
        while i < self.entries.len()
            invariant
                i <= self.entries@.len(),
                accounts_of(self.entries@).no_duplicates(),
                entries@ == self@.entries().subrange(0, i as int),
            decreases self.entries@.len() - i,
        {
            proof {
                lemma_scores_of(self.entries@, i as int);
            }
            entries.push((self.entries[i].account, self.entries[i].score));
            i += 1;
        }
        entries
    }

    /// Creates the store that the `writes`, each an account and its
    /// score, leave behind when applied first to last to an empty store.
    pub fn from_entries(writes: &Vec<(AccountId, u32)>) -> (store: ScoreStore)
        ensures
            store@ == StoreView::empty().upsert_all(writes@),
            store@.wf(),
    {
        let mut store = ScoreStore::new();
        let mut i: usize = 0;
        while i < writes.len()
            invariant
                i <= writes@.len(),
                store@ == StoreView::empty().upsert_all(writes@.subrange(0, i as int)),
                store@.wf(),
            decreases writes@.len() - i,
        {
            proof {
                assert(writes@.subrange(0, i + 1).drop_last() =~= writes@.subrange(0, i as int));
            }
            store.upsert(writes[i].0, writes[i].1);
            i += 1;
        }
        proof {
            assert(writes@.subrange(0, i as int) =~= writes@);
        }
        store
    }

    /// Writes `score` for `account`, replacing any earlier score. An
    /// account written for the first time joins the end of the registry.
    pub fn upsert(&mut self, account: AccountId, score: u32)
        ensures
            final(self)@ == old(self)@.upsert(account, score),
            final(self)@.wf(),
    {
        proof {
            use_type_invariant(&*self);
        }
        let entry = Entry { account, score };
        let found = self.position(&account);
        let mut entries: Vec<Entry> = Vec::new();
        std::mem::swap(&mut entries, &mut self.entries);
        match found {
            Some(i) => {
                proof {
                    lemma_scores_of(entries@, i as int);
                    lemma_replace_entry(entries@, i as int, entry);
                }
                entries[i] = entry;
            },
            None => {
                proof {
                    lemma_append_entry(entries@, entry);
                }
                entries.push(entry);
            },
        }
        self.entries = entries;
    }
}

} // verus!
