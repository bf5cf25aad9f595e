//! Histories: what a store or a leaderboard holds after a whole sequence
//! of writes.

use vstd::prelude::*;
use crate::account::AccountId;
use crate::leaderboard::LeaderboardView;
use crate::store::{lemma_upsert_known, lemma_upsert_wf, StoreView};

verus! {

/// One request to set a score.
pub struct ScoreWrite {
    /// Who asks.
    pub caller: AccountId,
    /// Whose score is to be set.
    pub of: AccountId,
    /// The score to set.
    pub score: u32,
}

impl LeaderboardView {
    /// The leaderboard after the `writes` were asked for, first to last.
    pub open spec fn after(self, writes: Seq<ScoreWrite>) -> LeaderboardView
        decreases writes.len(),
    {
        if writes.len() == 0 {
            self
        } else {
            let last = writes.last();
            self.after(writes.drop_last()).set_score(last.caller, last.of, last.score)
        }
    }
}

/// Any sequence of writes keeps a store well formed.
pub proof fn lemma_upsert_all_wf(store: StoreView, writes: Seq<(AccountId, u32)>)
    requires
        store.wf(),
    ensures
        store.upsert_all(writes).wf(),
    decreases writes.len(),
{
    if writes.len() > 0 {
        lemma_upsert_all_wf(store, writes.drop_last());
        lemma_upsert_wf(store.upsert_all(writes.drop_last()), writes.last().0, writes.last().1);
    }
}

/// After a sequence of writes an account reads the score of the last
/// write to it.
pub proof fn lemma_upsert_all_last_wins(store: StoreView, writes: Seq<(AccountId, u32)>, k: int)
    requires
        0 <= k < writes.len(),
        forall|j: int| k < j < writes.len() ==> writes[j].0 != writes[k].0,
    ensures
        store.upsert_all(writes).score_of(writes[k].0) == writes[k].1,
    decreases writes.len(),
{
    if k < writes.len() - 1 {
        let earlier = writes.drop_last();
        assert(earlier[k] == writes[k]);
        assert forall|j: int| k < j < earlier.len() implies earlier[j].0 != earlier[k].0 by {
            assert(earlier[j] == writes[j]);
        }
        lemma_upsert_all_last_wins(store, earlier, k);
    }
}

/// An account that no write of a sequence names reads what it read
/// before, and is registered exactly if it was before.
pub proof fn lemma_upsert_all_elsewhere(
    store: StoreView,
    writes: Seq<(AccountId, u32)>,
    account: AccountId,
)
    requires
        store.wf(),
        forall|i: int| 0 <= i < writes.len() ==> writes[i].0 != account,
    ensures
        store.upsert_all(writes).score_of(account) == store.score_of(account),
        store.upsert_all(writes).known.contains(account) == store.known.contains(account),
    decreases writes.len(),
{
    if writes.len() > 0 {
        let earlier = writes.drop_last();
        assert forall|i: int| 0 <= i < earlier.len() implies earlier[i].0 != account by {
            assert(earlier[i] == writes[i]);
        }
        lemma_upsert_all_elsewhere(store, earlier, account);
        lemma_upsert_all_wf(store, earlier);
        lemma_upsert_known(store.upsert_all(earlier), writes.last().0, writes.last().1);
    }
}

/// The registry only grows: after a sequence of writes it begins with
/// the registry from before, and holds every account that was written.
pub proof fn lemma_upsert_all_known(store: StoreView, writes: Seq<(AccountId, u32)>)
    requires
        store.wf(),
    ensures
        store.known.is_prefix_of(store.upsert_all(writes).known),
        forall|i: int|
            0 <= i < writes.len() ==> store.upsert_all(writes).known.contains(writes[i].0),
    decreases writes.len(),
{
    if writes.len() > 0 {
        let earlier = writes.drop_last();
        let before = store.upsert_all(earlier);
        lemma_upsert_all_known(store, earlier);
        lemma_upsert_all_wf(store, earlier);
        lemma_upsert_known(before, writes.last().0, writes.last().1);
        let after = store.upsert_all(writes);
        assert(store.known =~= after.known.subrange(0, store.known.len() as int)) by {
            assert(store.known =~= before.known.subrange(0, store.known.len() as int));
            assert(before.known =~= after.known.subrange(0, before.known.len() as int));
        }
        assert forall|i: int| 0 <= i < writes.len() implies after.known.contains(writes[i].0) by {
            if i < earlier.len() {
                assert(earlier[i] == writes[i]);
                assert(before.known.contains(earlier[i].0));
            }
        }
    }
}

/// Whether `writes` name `first` before they ever name `second`.
pub open spec fn written_before(
    writes: Seq<(AccountId, u32)>,
    first: AccountId,
    second: AccountId,
) -> bool {
    exists|i: int|
        0 <= i < writes.len() && (#[trigger] writes[i]).0 == first && forall|j: int|
            0 <= j <= i ==> (#[trigger] writes[j]).0 != second
}

/// A store filled from empty registers exactly the accounts that were
/// written.
pub proof fn lemma_registered_was_written(writes: Seq<(AccountId, u32)>, account: AccountId)
    ensures
        StoreView::empty().upsert_all(writes).known.contains(account) <==> exists|i: int|
            0 <= i < writes.len() && (#[trigger] writes[i]).0 == account,
{
    let store = StoreView::empty();
    if exists|i: int| 0 <= i < writes.len() && (#[trigger] writes[i]).0 == account {
        lemma_upsert_all_known(store, writes);
    } else {
        lemma_upsert_all_elsewhere(store, writes, account);
    }
}

/// A store filled from empty registers accounts in the order of their
/// first write: of two registered accounts, the one that stands first
/// was written before the other ever was.
pub proof fn lemma_registry_order(writes: Seq<(AccountId, u32)>, p: int, q: int)
    requires
        0 <= p < q < StoreView::empty().upsert_all(writes).known.len(),
    ensures
        written_before(
            writes,
            StoreView::empty().upsert_all(writes).known[p],
            StoreView::empty().upsert_all(writes).known[q],
        ),
    decreases writes.len(),
{
    let store = StoreView::empty();
    if writes.len() > 0 {
        let earlier = writes.drop_last();
        let before = store.upsert_all(earlier).known;
        let after = store.upsert_all(writes).known;
        lemma_upsert_all_wf(store, earlier);
        lemma_upsert_known(store.upsert_all(earlier), writes.last().0, writes.last().1);
        assert(before =~= after.subrange(0, before.len() as int));
        assert(after[p] == before[p]);
        if q < before.len() {
            assert(after[q] == before[q]);
            lemma_registry_order(earlier, p, q);
            let i: int = choose|i: int|
                0 <= i < earlier.len() && (#[trigger] earlier[i]).0 == before[p] && forall|j: int|
                    0 <= j <= i ==> (#[trigger] earlier[j]).0 != before[q];
            assert(writes[i] == earlier[i]);
            assert forall|j: int| 0 <= j <= i implies (#[trigger] writes[j]).0 != after[q] by {
                assert(writes[j] == earlier[j]);
            }
        } else {
            assert(after == before.push(writes.last().0));
            assert(!before.contains(after[q]));
            assert(before.contains(after[p]));
            lemma_registered_was_written(earlier, after[p]);
            lemma_registered_was_written(earlier, after[q]);
            let i: int = choose|i: int|
                0 <= i < earlier.len() && (#[trigger] earlier[i]).0 == after[p];
            assert(writes[i] == earlier[i]);
            assert forall|j: int| 0 <= j <= i implies (#[trigger] writes[j]).0 != after[q] by {
                assert(writes[j] == earlier[j]);
            }
        }
    }
}

/// The store that holds the first `k` registered accounts of `store`
/// with their scores.
spec fn first_known(store: StoreView, k: int) -> StoreView {
    StoreView {
        scores: store.scores.restrict(store.known.subrange(0, k).to_set()),
        known: store.known.subrange(0, k),
    }
}

/// Writing the first `k` entries of a store into an empty one gives the
/// store's first `k` registered accounts with their scores.
proof fn lemma_entries_prefix(store: StoreView, k: int)
    requires
        store.wf(),
        0 <= k <= store.known.len(),
    ensures
        StoreView::empty().upsert_all(store.entries().subrange(0, k)) == first_known(store, k),
    decreases k,
{
    let writes = store.entries().subrange(0, k);
    if k == 0 {
        assert(first_known(store, 0) =~= StoreView::empty());
    } else {
        lemma_entries_prefix(store, k - 1);
        let account = store.known[k - 1];
        let before = first_known(store, k - 1);
        let after = first_known(store, k);
        assert(writes.drop_last() =~= store.entries().subrange(0, k - 1));
        assert(writes.last() == (account, store.scores[account]));
        assert(store.known.contains(account));
        assert(after.known[k - 1] == account);
        assert forall|a: AccountId|
            after.known.contains(a) <==> (a == account || before.known.contains(a)) by {
            if before.known.contains(a) {
                let j: int = before.known.index_of(a);
                assert(after.known[j] == a);
            }
            if after.known.contains(a) {
                let j: int = after.known.index_of(a);
                if j < k - 1 {
                    assert(before.known[j] == a);
                }
            }
        }
        if before.known.contains(account) {
            let j: int = before.known.index_of(account);
            assert(store.known[j] == store.known[k - 1]);
        }
        assert(before.known.push(account) =~= after.known);
        assert(before.upsert(account, store.scores[account]) =~= after);
    }
}

/// A store is what its entries, written in order into an empty store,
/// leave behind.
pub proof fn lemma_entries_round_trip(store: StoreView)
    requires
        store.wf(),
    ensures
        StoreView::empty().upsert_all(store.entries()) == store,
{
    let n: int = store.known.len() as int;
    lemma_entries_prefix(store, n);
    assert(store.entries().subrange(0, n) =~= store.entries());
    assert(store.known.subrange(0, n) =~= store.known);
    assert(first_known(store, n) =~= store);
}

/// The owner is the one given at construction, whatever was asked for
/// since.
pub proof fn lemma_owner_is_fixed(board: LeaderboardView, writes: Seq<ScoreWrite>)
    ensures
        board.after(writes).owner == board.owner,
        LeaderboardView::initial(board.owner).after(writes).owner == board.owner,
    decreases writes.len(),
{
    if writes.len() > 0 {
        lemma_owner_is_fixed(board, writes.drop_last());
        lemma_owner_is_fixed(LeaderboardView::initial(board.owner), writes.drop_last());
    }
}

/// A leaderboard's store is well formed from construction on, whatever
/// was asked for since.
pub proof fn lemma_after_wf(board: LeaderboardView, writes: Seq<ScoreWrite>)
    requires
        board.store.wf(),
    ensures
        board.after(writes).store.wf(),
    decreases writes.len(),
{
    if writes.len() > 0 {
        let last = writes.last();
        lemma_after_wf(board, writes.drop_last());
        lemma_upsert_wf(board.after(writes.drop_last()).store, last.of, last.score);
    }
}

/// After any sequence of requests an account reads the score of the
/// last write to it that the owner asked for. Requests by others do not
/// count, and an earlier score is replaced, not added to.
pub proof fn lemma_last_owner_write_wins(board: LeaderboardView, writes: Seq<ScoreWrite>, k: int)
    requires
        0 <= k < writes.len(),
        writes[k].caller == board.owner,
        forall|j: int|
            k < j < writes.len() && writes[j].caller == board.owner ==> writes[j].of
                != writes[k].of,
    ensures
        board.after(writes).store.score_of(writes[k].of) == writes[k].score,
    decreases writes.len(),
{
    let earlier = writes.drop_last();
    lemma_owner_is_fixed(board, earlier);
    if k < writes.len() - 1 {
        assert(earlier[k] == writes[k]);
        assert forall|j: int|
            k < j < earlier.len() && earlier[j].caller == board.owner implies earlier[j].of
            != earlier[k].of by {
            assert(earlier[j] == writes[j]);
        }
        lemma_last_owner_write_wins(board, earlier, k);
    }
}

/// An account that the owner did not write in a sequence of requests
/// reads what it read before.
pub proof fn lemma_after_elsewhere(
    board: LeaderboardView,
    writes: Seq<ScoreWrite>,
    account: AccountId,
)
    requires
        forall|i: int|
            0 <= i < writes.len() && writes[i].caller == board.owner ==> writes[i].of != account,
    ensures
        board.after(writes).store.score_of(account) == board.store.score_of(account),
    decreases writes.len(),
{
    if writes.len() > 0 {
        let earlier = writes.drop_last();
        assert forall|i: int|
            0 <= i < earlier.len() && earlier[i].caller == board.owner implies earlier[i].of
            != account by {
            assert(earlier[i] == writes[i]);
        }
        lemma_after_elsewhere(board, earlier, account);
        lemma_owner_is_fixed(board, earlier);
    }
}

/// An account that was never written reads zero: on a new leaderboard
/// every account does, and so does each that the owner has not written
/// since.
pub proof fn lemma_unwritten_reads_zero(
    owner: AccountId,
    writes: Seq<ScoreWrite>,
    account: AccountId,
)
    requires
        forall|i: int|
            0 <= i < writes.len() && writes[i].caller == owner ==> writes[i].of != account,
    ensures
        LeaderboardView::initial(owner).store.score_of(account) == 0,
        LeaderboardView::initial(owner).after(writes).store.score_of(account) == 0,
{
    lemma_after_elsewhere(LeaderboardView::initial(owner), writes, account);
}

/// Requests by anyone but the owner change nothing.
pub proof fn lemma_rejected_writes_change_nothing(board: LeaderboardView, writes: Seq<ScoreWrite>)
    requires
        forall|i: int| 0 <= i < writes.len() ==> writes[i].caller != board.owner,
    ensures
        board.after(writes) == board,
    decreases writes.len(),
{
    if writes.len() > 0 {
        let earlier = writes.drop_last();
        assert forall|i: int| 0 <= i < earlier.len() implies earlier[i].caller
            != board.owner by {
            assert(earlier[i] == writes[i]);
        }
        lemma_rejected_writes_change_nothing(board, earlier);
    }
}

} // verus!
