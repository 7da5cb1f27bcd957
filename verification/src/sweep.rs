//! One pass over the pool with a readiness evaluator, as a mathematical function.

use vstd::prelude::*;
use crate::model::{
    after_import, import, is_slot, lemma_slot_unique, lemma_worst, make_room, nonces_unique, ordered,
    Options,
};
use crate::primitives::{AccountId, Index};
use crate::ready::{expected_nonce, judge, Readiness};
use crate::verified::TransactionView;

verus! {

/// What one pass over the pool leaves behind.
pub struct Sweep {
    /// The records that stay in the pool, in their order: all but the stale ones.
    pub kept: Seq<TransactionView>,
    /// The records that are ready, in the order in which they were met.
    pub ready: Seq<TransactionView>,
    /// What the evaluator remembers at the end.
    pub known: Map<AccountId, Index>,
}

/// Walks the records `s` from first to last and judges each: a stale record leaves the pool,
/// a ready one is handed out and stays, a future one stays.
pub open spec fn sweep(
    s: Seq<TransactionView>,
    known: Map<AccountId, Index>,
    chain: Map<AccountId, Index>,
) -> Sweep
    decreases s.len(),
{
    if s.len() == 0 {
        Sweep { kept: Seq::empty(), ready: Seq::empty(), known }
    } else {
        let before = sweep(s.drop_last(), known, chain);
        let (known_after, verdict) = judge(before.known, chain, s.last());
        Sweep {
            kept: if verdict == Readiness::Stale {
                before.kept
            } else {
                before.kept.push(s.last())
            },
            ready: if verdict == Readiness::Ready {
                before.ready.push(s.last())
            } else {
                before.ready
            },
            known: known_after,
        }
    }
}

/// The nonce that the chain expects next of `account`: the one it records, or the largest
/// nonce where it gave none.
pub open spec fn chain_nonce(chain: Map<AccountId, Index>, account: AccountId) -> Index {
    expected_nonce(Map::empty(), chain, account)
}

/// Whether the evaluator expects of no sender less than the chain does.
pub open spec fn not_behind_chain(
    known: Map<AccountId, Index>,
    chain: Map<AccountId, Index>,
) -> bool {
    forall|a: AccountId| known.contains_key(a) ==> known[a] >= chain_nonce(chain, a)
}

/// The nonces of the records of `account` in `s`, in their order.
pub open spec fn nonces_of(s: Seq<TransactionView>, account: AccountId) -> Seq<Index>
    decreases s.len(),
{
    if s.len() == 0 {
        Seq::empty()
    } else if s.last().sender == Some(account) {
        nonces_of(s.drop_last(), account).push(s.last().index())
    } else {
        nonces_of(s.drop_last(), account)
    }
}

/// After a pass, no record that stays has a nonce below the one the chain expects of its
/// sender.
pub proof fn lemma_sweep_culls_stale(
    s: Seq<TransactionView>,
    known: Map<AccountId, Index>,
    chain: Map<AccountId, Index>,
)
    requires
        not_behind_chain(known, chain),
    ensures
        not_behind_chain(sweep(s, known, chain).known, chain),
        forall|i: int|
            #![trigger sweep(s, known, chain).kept[i]]
            0 <= i < sweep(s, known, chain).kept.len() ==> match sweep(
                s,
                known,
                chain,
            ).kept[i].sender {
                Some(account) => sweep(s, known, chain).kept[i].index() >= chain_nonce(
                    chain,
                    account,
                ),
                None => true,
            },
    decreases s.len(),
{
    if s.len() > 0 {
        lemma_sweep_culls_stale(s.drop_last(), known, chain);
        let before = sweep(s.drop_last(), known, chain);
        let after = sweep(s, known, chain);
        assert forall|i: int| 0 <= i < before.kept.len() implies after.kept[i]
            == before.kept[i] by {}
    }
}

/// A record without a sender is never ready, and no pass culls it.
pub proof fn lemma_unresolved_wait(
    s: Seq<TransactionView>,
    known: Map<AccountId, Index>,
    chain: Map<AccountId, Index>,
)
    ensures
        forall|i: int|
            0 <= i < sweep(s, known, chain).ready.len() ==> (#[trigger] sweep(
                s,
                known,
                chain,
            ).ready[i]).sender.is_some(),
        forall|i: int|
            0 <= i < s.len() && (#[trigger] s[i]).sender.is_none() ==> sweep(
                s,
                known,
                chain,
            ).kept.contains(s[i]),
    decreases s.len(),
{
    if s.len() > 0 {
        let front = s.drop_last();
        lemma_unresolved_wait(front, known, chain);
        let before = sweep(front, known, chain);
        let after = sweep(s, known, chain);
        assert forall|i: int| 0 <= i < after.ready.len() implies (#[trigger]
            after.ready[i]).sender.is_some() by {
            if i < before.ready.len() {
                assert(after.ready[i] == before.ready[i]);
            }
        }
        assert forall|i: int|
            0 <= i < s.len() && (#[trigger] s[i]).sender.is_none() implies after.kept.contains(
            s[i],
        ) by {
            if i < front.len() {
                assert(front[i] == s[i]);
                let k = choose|k: int| 0 <= k < before.kept.len() && before.kept[k] == front[i];
                assert(after.kept[k] == s[i]);
            } else {
                assert(after.kept[after.kept.len() - 1] == s[i]);
            }
        }
    }
}

/// Whether no record of `account` in `s` has a nonce below the one the chain expects.
pub open spec fn none_stale(
    s: Seq<TransactionView>,
    chain: Map<AccountId, Index>,
    account: AccountId,
) -> bool {
    forall|i: int|
        0 <= i < s.len() && s[i].sender == Some(account) ==> s[i].index() >= chain_nonce(
            chain,
            account,
        )
}

/// What holds of the records of `account` after a pass with a fresh evaluator, with `last`
/// for the nonce of the record of `account` that was met last and `next` for the nonce that
/// the evaluator expects now. Either nothing was ready yet and `last` is behind `next`; or
/// the ready nonces end in `last` and `next` follows it; or `last` has reached `next`, and
/// nothing more will be ready.
spec fn run_so_far(
    s: Seq<TransactionView>,
    chain: Map<AccountId, Index>,
    account: AccountId,
) -> bool {
    let pass = sweep(s, Map::empty(), chain);
    let first = chain_nonce(chain, account);
    let next = expected_nonce(pass.known, chain, account);
    let met = nonces_of(s, account);
    let ready = nonces_of(pass.ready, account);
    &&& met.len() == 0 ==> next == first && ready.len() == 0
    &&& forall|k: int| 0 < k < ready.len() ==> #[trigger] ready[k] == ready[k - 1] + 1
    &&& met.len() > 0 ==> exists|i: int|
        0 <= i < s.len() && s[i].sender == Some(account) && s[i].index() == met[met.len() - 1]
    &&& met.len() > 0 ==> {
        let last = met[met.len() - 1];
        ||| ready.len() == 0 && last < next
        ||| ready.len() > 0 && ready[ready.len() - 1] == last && next == last + 1
        ||| last >= next
    }
    &&& none_stale(s, chain, account) ==> {
        &&& met.len() > 0 ==> ready.len() > 0 || met[met.len() - 1] >= next
        &&& ready.len() > 0 ==> ready[0] == first
    }
}

proof fn lemma_run_so_far(s: Seq<TransactionView>, chain: Map<AccountId, Index>, account: AccountId)
    requires
        ordered(s),
        nonces_unique(s),
    ensures
        run_so_far(s, chain, account),
    decreases s.len(),
{
    if s.len() > 0 {
        let front = s.drop_last();
        let last = s.last();
        assert forall|i: int| 0 <= i < front.len() implies front[i] == s[i] by {}
        lemma_run_so_far(front, chain, account);
        let before = sweep(front, Map::empty(), chain);
        let pass = sweep(s, Map::empty(), chain);
        let met = nonces_of(front, account);
        let ready = nonces_of(before.ready, account);
        if pass.ready != before.ready {
            assert(pass.ready == before.ready.push(last));
            assert(pass.ready.drop_last() =~= before.ready);
        }
        if met.len() > 0 {
            let i = choose|i: int|
                0 <= i < front.len() && front[i].sender == Some(account) && front[i].index()
                    == met[met.len() - 1];
            assert(s[i].sender == Some(account));
            if last.sender == Some(account) {
                assert(s[i].index() <= s[s.len() - 1].index());
                assert(s[i].index() != s[s.len() - 1].index());
            }
        }
        if last.sender == Some(account) {
            assert(s[s.len() - 1].index() == last.index());
            if none_stale(s, chain, account) {
                assert(none_stale(front, chain, account));
            }
        } else {
            if none_stale(s, chain, account) {
                assert(none_stale(front, chain, account));
            }
        }
    }
}

/// In one pass with a fresh evaluator, the nonces of the ready records of one sender ascend
/// without a gap.
pub proof fn lemma_ready_nonces_ascend(
    s: Seq<TransactionView>,
    chain: Map<AccountId, Index>,
    account: AccountId,
)
    requires
        ordered(s),
        nonces_unique(s),
    ensures
        forall|k: int|
            0 < k < nonces_of(sweep(s, Map::empty(), chain).ready, account).len()
                ==> #[trigger] nonces_of(sweep(s, Map::empty(), chain).ready, account)[k]
                == nonces_of(sweep(s, Map::empty(), chain).ready, account)[k - 1] + 1,
{
    lemma_run_so_far(s, chain, account);
}

/// In one pass with a fresh evaluator over records of which none of `account` is stale, the
/// ready records of `account` start at the nonce that the chain expects next.
pub proof fn lemma_ready_nonces_start(
    s: Seq<TransactionView>,
    chain: Map<AccountId, Index>,
    account: AccountId,
)
    requires
        ordered(s),
        nonces_unique(s),
        none_stale(s, chain, account),
    ensures
        nonces_of(sweep(s, Map::empty(), chain).ready, account).len() > 0 ==> nonces_of(
            sweep(s, Map::empty(), chain).ready,
            account,
        )[0] == chain_nonce(chain, account),
{
    lemma_run_so_far(s, chain, account);
}

/// A record that comes in before the one with the nonce below it waits: a pass finds nothing
/// ready. Once the earlier nonce has come in too, the next pass hands out both, the earlier
/// nonce first.
pub proof fn lemma_future_becomes_ready(
    later: TransactionView,
    earlier: TransactionView,
    account: AccountId,
    chain: Map<AccountId, Index>,
    options: Options,
)
    requires
        later.sender == Some(account),
        earlier.sender == Some(account),
        earlier.index() == chain_nonce(chain, account),
        later.index() == earlier.index() + 1,
        later.hash != earlier.hash,
        import(Seq::empty(), later, options) is Imported,
        import(seq![later], earlier, options) is Imported,
    ensures
        after_import(Seq::empty(), later, options) == seq![later],
        sweep(seq![later], Map::empty(), chain).ready == Seq::<TransactionView>::empty(),
        sweep(seq![later], Map::empty(), chain).kept == seq![later],
        after_import(seq![later], earlier, options) == seq![earlier, later],
        sweep(seq![earlier, later], Map::empty(), chain).ready == seq![earlier, later],
{
    let none = Seq::<TransactionView>::empty();
    let one = seq![later];
    let two = seq![earlier, later];
    reveal_with_fuel(sweep, 3);
    // the first record goes into the empty pool
    assert(make_room(none, later, options) == Some(none));
    assert(is_slot(none, later, 0));
    lemma_slot_unique(none, later, 0);
    assert(none.insert(0, later) =~= one);
    // alone, it is in the future
    assert(one.drop_last() =~= none);
    assert(sweep(one, Map::empty(), chain).ready =~= none);
    assert(sweep(one, Map::empty(), chain).kept =~= one);
    // the second record goes before it
    assert(make_room(one, earlier, options) == Some(one)) by {
        reveal_with_fuel(make_room, 2);
        lemma_worst(one);
    }
    assert(is_slot(one, earlier, 0));
    lemma_slot_unique(one, earlier, 0);
    assert(one.insert(0, earlier) =~= two);
    // and both are ready
    assert(two.drop_last() =~= seq![earlier]);
    assert(seq![earlier].drop_last() =~= none);
    let first_pass = sweep(seq![earlier], Map::empty(), chain);
    assert(first_pass.ready =~= seq![earlier]);
    assert(first_pass.known =~= Map::empty().insert(account, later.index()));
    assert(sweep(two, Map::empty(), chain).ready =~= two);
}

} // verus!
