//! The pool as a mathematical object: a sequence of records, and what each operation makes of it.
//!
//! Records of one sender stand side by side, in ascending nonce order. The executable pool is
//! proved to follow these functions step by step.

use vstd::prelude::*;
use crate::primitives::{AccountId, H256};
use crate::scoring::{choice_between, gives_way, score_of, Choice};
use crate::verified::TransactionView;

verus! {

/// Bounds of a pool.
#[derive(Clone, Copy, Debug, PartialEq, Eq)]
pub struct Options {
    /// Upper bound on the number of records.
    pub max_count: usize,
    /// Upper bound on the sum of the records' encoded sizes, in bytes.
    pub max_bytes: usize,
}

impl Default for Options {
    fn default() -> (options: Self)
        ensures
            options.max_count == 1024,
            options.max_bytes == 8 * 1024 * 1024,
    {
        Options { max_count: 1024, max_bytes: 8 * 1024 * 1024 }
    }
}

/// Sum of the encoded sizes of the records of `s`.
pub open spec fn total_size(s: Seq<TransactionView>) -> nat
    decreases s.len(),
{
    if s.len() == 0 {
        0
    } else {
        total_size(s.drop_last()) + s.last().encoded_size()
    }
}

/// No two records share a content hash.
pub open spec fn hashes_unique(s: Seq<TransactionView>) -> bool {
    forall|i: int, j: int| 0 <= i < j < s.len() ==> s[i].hash != s[j].hash
}

/// No two fully verified records of one sender share a nonce.
pub open spec fn nonces_unique(s: Seq<TransactionView>) -> bool {
    forall|i: int, j: int|
        0 <= i < j < s.len() && s[i].sender.is_some() && s[i].sender == s[j].sender
            ==> s[i].index() != s[j].index()
}

/// The records of one sender stand side by side.
pub open spec fn grouped(s: Seq<TransactionView>) -> bool {
    forall|i: int, j: int, k: int|
        #![trigger s[i], s[j], s[k]]
        0 <= i < j < k < s.len() && s[i].sender == s[k].sender ==> s[j].sender == s[i].sender
}

/// The records of one sender stand in ascending nonce order.
pub open spec fn ordered(s: Seq<TransactionView>) -> bool {
    forall|i: int, j: int|
        0 <= i < j < s.len() && s[i].sender == s[j].sender ==> s[i].index() <= s[j].index()
}

/// The sequence keeps within the bounds.
pub open spec fn within(s: Seq<TransactionView>, options: Options) -> bool {
    s.len() <= options.max_count && total_size(s) <= options.max_bytes
}

/// What holds of the records of a pool at all times.
pub open spec fn valid(s: Seq<TransactionView>, options: Options) -> bool {
    &&& hashes_unique(s)
    &&& nonces_unique(s)
    &&& grouped(s)
    &&& ordered(s)
    &&& within(s, options)
}

/// Removing a record takes its size off the total.
pub proof fn lemma_total_size_remove(s: Seq<TransactionView>, at: int)
    requires
        0 <= at < s.len(),
    ensures
        total_size(s.remove(at)) == total_size(s) - s[at].encoded_size(),
    decreases s.len(),
{
    if at == s.len() - 1 {
        assert(s.remove(at) =~= s.drop_last());
    } else {
        lemma_total_size_remove(s.drop_last(), at);
        assert(s.remove(at).drop_last() =~= s.drop_last().remove(at));
        assert(s.remove(at).last() == s.last());
    }
}

/// No record is larger than all records together.
pub proof fn lemma_total_size_covers(s: Seq<TransactionView>, at: int)
    requires
        0 <= at < s.len(),
    ensures
        s[at].encoded_size() <= total_size(s),
    decreases s.len(),
{
    if at < s.len() - 1 {
        lemma_total_size_covers(s.drop_last(), at);
    }
}

/// The first records are no larger than all of them.
pub proof fn lemma_total_size_prefix(s: Seq<TransactionView>, n: int)
    requires
        0 <= n <= s.len(),
    ensures
        total_size(s.take(n)) <= total_size(s),
    decreases s.len(),
{
    if n < s.len() {
        lemma_total_size_prefix(s.drop_last(), n);
        assert(s.drop_last().take(n) =~= s.take(n));
    } else {
        assert(s.take(n) =~= s);
    }
}

/// Inserting a record adds its size to the total.
pub proof fn lemma_total_size_insert(s: Seq<TransactionView>, at: int, tx: TransactionView)
    requires
        0 <= at <= s.len(),
    ensures
        total_size(s.insert(at, tx)) == total_size(s) + tx.encoded_size(),
    decreases s.len() - at,
{
    if at == s.len() {
        assert(s.insert(at, tx).drop_last() =~= s);
    } else {
        lemma_total_size_insert(s.drop_last(), at, tx);
        assert(s.insert(at, tx).drop_last() =~= s.drop_last().insert(at, tx));
        assert(s.insert(at, tx).last() == s.last());
    }
}

/// Removing a record breaks none of the pool's rules.
pub proof fn lemma_remove_keeps_valid(s: Seq<TransactionView>, options: Options, at: int)
    requires
        valid(s, options),
        0 <= at < s.len(),
    ensures
        valid(s.remove(at), options),
{
    let r = s.remove(at);
    lemma_total_size_remove(s, at);
    assert forall|i: int| 0 <= i < r.len() implies r[i] == s[if i < at {
        i
    } else {
        i + 1
    }] by {}
    assert(hashes_unique(r)) by {
        assert forall|i: int, j: int| 0 <= i < j < r.len() implies r[i].hash != r[j].hash by {
            let a = if i < at { i } else { i + 1 };
            let b = if j < at { j } else { j + 1 };
            assert(s[a].hash != s[b].hash);
        }
    }
    assert(nonces_unique(r)) by {
        assert forall|i: int, j: int|
            0 <= i < j < r.len() && r[i].sender.is_some() && r[i].sender
                == r[j].sender implies r[i].index() != r[j].index() by {
            let a = if i < at { i } else { i + 1 };
            let b = if j < at { j } else { j + 1 };
            assert(s[a].index() != s[b].index());
        }
    }
    assert(ordered(r)) by {
        assert forall|i: int, j: int|
            0 <= i < j < r.len() && r[i].sender == r[j].sender implies r[i].index()
            <= r[j].index() by {
            let a = if i < at { i } else { i + 1 };
            let b = if j < at { j } else { j + 1 };
            assert(s[a].index() <= s[b].index());
        }
    }
    assert(grouped(r)) by {
        assert forall|i: int, j: int, k: int|
            #![trigger r[i], r[j], r[k]]
            0 <= i < j < k < r.len() && r[i].sender == r[k].sender implies r[j].sender
            == r[i].sender by {
            let a = if i < at { i } else { i + 1 };
            let b = if j < at { j } else { j + 1 };
            let c = if k < at { k } else { k + 1 };
            assert(s[a].sender == s[c].sender ==> s[b].sender == s[a].sender);
        }
    }
}

/// Whether `at` is the place of a new record `tx` among the records `s`: the records of its
/// sender before `at` have lower nonces, those from `at` on do not, and `at` touches the
/// sender's records, or is the end where the sender has none.
pub open spec fn is_slot(s: Seq<TransactionView>, tx: TransactionView, at: int) -> bool {
    &&& 0 <= at <= s.len()
    &&& forall|i: int| 0 <= i < at && s[i].sender == tx.sender ==> s[i].index() < tx.index()
    &&& forall|i: int| at <= i < s.len() && s[i].sender == tx.sender ==> s[i].index() >= tx.index()
    &&& {
        ||| at < s.len() && s[at].sender == tx.sender
        ||| at > 0 && s[at - 1].sender == tx.sender
        ||| at == s.len() && forall|i: int| 0 <= i < s.len() ==> s[i].sender != tx.sender
    }
}

/// The place of a new record `tx` among the records `s`.
pub open spec fn slot(s: Seq<TransactionView>, tx: TransactionView) -> int {
    choose|at: int| is_slot(s, tx, at)
}

/// Every new record has a place.
pub proof fn lemma_slot_exists(s: Seq<TransactionView>, tx: TransactionView)
    requires
        ordered(s),
    ensures
        is_slot(s, tx, slot(s, tx)),
    decreases s.len(),
{
    if s.len() == 0 {
        assert(is_slot(s, tx, 0));
    } else {
        let front = s.drop_last();
        let last = s.last();
        assert(ordered(front)) by {
            assert forall|i: int, j: int|
                0 <= i < j < front.len() && front[i].sender == front[j].sender implies front[i].index()
                <= front[j].index() by {
                assert(s[i].index() <= s[j].index());
            }
        }
        lemma_slot_exists(front, tx);
        let p = slot(front, tx);
        assert forall|i: int| 0 <= i < front.len() implies front[i] == s[i] by {}
        if last.sender != tx.sender {
            if p == front.len() && forall|i: int| 0 <= i < front.len() ==> front[i].sender != tx.sender {
                assert(is_slot(s, tx, s.len() as int));
            } else {
                assert(is_slot(s, tx, p));
            }
        } else if last.index() >= tx.index() {
            assert(is_slot(s, tx, p));
        } else {
            assert forall|i: int| 0 <= i < s.len() && s[i].sender == tx.sender implies s[i].index()
                < tx.index() by {
                if i < s.len() - 1 {
                    assert(s[i].index() <= s[s.len() - 1].index());
                }
            }
            assert(is_slot(s, tx, s.len() as int));
        }
    }
}

/// A new record has one place only.
pub proof fn lemma_slot_unique(s: Seq<TransactionView>, tx: TransactionView, at: int)
    requires
        grouped(s),
        is_slot(s, tx, at),
    ensures
        slot(s, tx) == at,
{
    let p = slot(s, tx);
    assert(is_slot(s, tx, p));
    if p < at {
        lemma_slots_agree(s, tx, p, at);
    } else {
        lemma_slots_agree(s, tx, at, p);
    }
}

/// Of two places of one record, the first is not before the second.
proof fn lemma_slots_agree(s: Seq<TransactionView>, tx: TransactionView, p: int, q: int)
    requires
        grouped(s),
        is_slot(s, tx, p),
        is_slot(s, tx, q),
        p <= q,
    ensures
        p == q,
{
    if p < q {
        // `p` lies before the end, so it touches a record of the sender, and so does `q`.
        // All records between those two are the sender's. If the record at `p` is the
        // sender's, its nonce is both below the new one and not. If it is not, the record
        // before `p` is, and one at or behind `p` is: the sender's records would not stand
        // side by side.
        if s[p].sender == tx.sender {
            assert(s[p].index() < tx.index());
            assert(s[p].index() >= tx.index());
        } else {
            let lo = p - 1;
            assert(0 <= lo && s[lo].sender == tx.sender);
            let hi: int = if s[q - 1].sender == tx.sender {
                q - 1
            } else {
                q
            };
            assert(p <= hi < s.len() && s[hi].sender == tx.sender);
            assert(s[lo].sender == s[hi].sender ==> s[p].sender == s[lo].sender);
        }
    }
}

/// Whether the record at `at` bars `tx` from the pool: it is of the same sender, and the
/// replacement choice between the two refuses the new one.
pub open spec fn clashes(s: Seq<TransactionView>, tx: TransactionView, at: int) -> bool {
    &&& 0 <= at < s.len()
    &&& s[at].sender == tx.sender
    &&& choice_between(s[at], tx) == Choice::RejectNew
}

/// Whether some record has the content hash `hash`.
pub open spec fn holds_hash(s: Seq<TransactionView>, hash: H256) -> bool {
    exists|i: int| 0 <= i < s.len() && s[i].hash == hash
}

/// Whether `tx` can be added to `s` without breaking a bound.
pub open spec fn fits(s: Seq<TransactionView>, tx: TransactionView, options: Options) -> bool {
    s.len() + 1 <= options.max_count && total_size(s) + tx.encoded_size() <= options.max_bytes
}

/// Whether the record at `i` leaves a full pool before the record at `j`: the lower score
/// goes first, then the smaller encoding, then the one that stands first.
pub open spec fn leaves_before(s: Seq<TransactionView>, i: int, j: int) -> bool {
    let a = s[i];
    let b = s[j];
    ||| score_of(a) < score_of(b)
    ||| score_of(a) == score_of(b) && a.encoded_size() < b.encoded_size()
    ||| score_of(a) == score_of(b) && a.encoded_size() == b.encoded_size() && i <= j
}

/// Whether the record at `at` is the one that leaves a full pool first.
pub open spec fn is_worst(s: Seq<TransactionView>, at: int) -> bool {
    &&& 0 <= at < s.len()
    &&& forall|j: int| 0 <= j < s.len() ==> leaves_before(s, at, j)
}

/// The position of the record that leaves a full pool first.
pub open spec fn worst(s: Seq<TransactionView>) -> int {
    choose|at: int| is_worst(s, at)
}

/// A pool that is not empty has a record that leaves first, and only one.
pub proof fn lemma_worst(s: Seq<TransactionView>)
    requires
        s.len() > 0,
    ensures
        is_worst(s, worst(s)),
        forall|at: int| is_worst(s, at) ==> at == worst(s),
    decreases s.len(),
{
    if s.len() == 1 {
        assert(is_worst(s, 0));
    } else {
        let front = s.drop_last();
        lemma_worst(front);
        let w = worst(front);
        let last = s.len() - 1;
        assert forall|j: int| 0 <= j < front.len() implies front[j] == s[j] by {}
        if leaves_before(s, last, w) {
            assert forall|j: int| 0 <= j < s.len() implies leaves_before(s, last, j) by {
                if j < last {
                    assert(leaves_before(front, w, j));
                }
            }
            assert(is_worst(s, last));
        } else {
            assert forall|j: int| 0 <= j < s.len() implies leaves_before(s, w, j) by {
                if j < last {
                    assert(leaves_before(front, w, j));
                }
            }
            assert(is_worst(s, w));
        }
    }
    let v = worst(s);
    assert forall|at: int| is_worst(s, at) implies at == v by {
        assert(leaves_before(s, at, v));
        assert(leaves_before(s, v, at));
    }
}

/// A record can clash with a new one only at the new one's place.
pub proof fn lemma_clash_at_slot(s: Seq<TransactionView>, tx: TransactionView, at: int)
    requires
        nonces_unique(s),
        grouped(s),
        ordered(s),
        is_slot(s, tx, at),
    ensures
        forall|i: int| clashes(s, tx, i) ==> i == at,
{
    assert forall|i: int| clashes(s, tx, i) implies i == at by {
        if i < at {
            assert(s[i].index() < tx.index());
        } else if i > at {
            if s[at].sender == tx.sender {
                assert(s[at].index() <= s[i].index());
                assert(s[at].index() != s[i].index());
            } else {
                assert(at > 0 && s[at - 1].sender == tx.sender);
                assert(s[at - 1].sender == s[i].sender ==> s[at].sender == s[at - 1].sender);
            }
        }
    }
}

/// The records that are left when room has been made for `tx`: while it does not fit, the
/// record that leaves first is evicted, provided it gives way. `None` where room cannot be
/// made.
pub open spec fn make_room(s: Seq<TransactionView>, tx: TransactionView, options: Options) -> Option<
    Seq<TransactionView>,
>
    decreases s.len(),
{
    if fits(s, tx, options) {
        Some(s)
    } else if s.len() == 0 {
        None
    } else {
        let at = worst(s);
        if gives_way(s[at]) && 0 <= at < s.len() {
            make_room(s.remove(at), tx, options)
        } else {
            None
        }
    }
}

/// What becomes of an attempt to put a verified record into the pool.
pub enum Import {
    /// The record went in; the pool now holds these records.
    Imported(Seq<TransactionView>),
    /// The pool holds the record already, or one of the same sender and nonce: the hash is
    /// that of the record in the pool. Nothing changed.
    AlreadyImported(H256),
    /// Room could not be made. Nothing changed.
    CapacityExceeded,
}

/// Puts `tx` into the pool `s`.
///
/// A record whose hash is in the pool is not taken again, nor one that clashes with a record
/// of its sender. Otherwise room is made by evicting, and the record goes to its place.
pub open spec fn import(s: Seq<TransactionView>, tx: TransactionView, options: Options) -> Import {
    if holds_hash(s, tx.hash) {
        Import::AlreadyImported(tx.hash)
    } else if exists|at: int| clashes(s, tx, at) {
        Import::AlreadyImported(s[choose|at: int| clashes(s, tx, at)].hash)
    } else {
        match make_room(s, tx, options) {
            None => Import::CapacityExceeded,
            Some(rest) => Import::Imported(rest.insert(slot(rest, tx), tx)),
        }
    }
}

/// The records after the attempt to import `tx`.
pub open spec fn after_import(s: Seq<TransactionView>, tx: TransactionView, options: Options) -> Seq<
    TransactionView,
> {
    match import(s, tx, options) {
        Import::Imported(records) => records,
        _ => s,
    }
}

/// A record that goes to its place in a pool that has room for it, and that neither repeats a
/// hash nor clashes, breaks none of the pool's rules.
pub proof fn lemma_insert_keeps_valid(
    s: Seq<TransactionView>,
    options: Options,
    tx: TransactionView,
    at: int,
)
    requires
        valid(s, options),
        fits(s, tx, options),
        is_slot(s, tx, at),
        !holds_hash(s, tx.hash),
        forall|i: int| !clashes(s, tx, i),
    ensures
        valid(s.insert(at, tx), options),
{
    let r = s.insert(at, tx);
    lemma_total_size_insert(s, at, tx);
    // where the record at position `i` of `r` stood in `s`
    let from = |i: int| if i < at { i } else { i - 1 };
    assert forall|i: int| 0 <= i < r.len() && i != at implies r[i] == s[from(i)] by {}
    assert(r[at] == tx);
    assert(forall|i: int| 0 <= i < s.len() ==> s[i].hash != tx.hash);
    assert(hashes_unique(r)) by {
        assert forall|i: int, j: int| 0 <= i < j < r.len() implies r[i].hash != r[j].hash by {
            if i != at && j != at {
                assert(s[from(i)].hash != s[from(j)].hash);
            } else if i == at {
                assert(s[from(j)].hash != tx.hash);
            } else {
                assert(s[from(i)].hash != tx.hash);
            }
        }
    }
    // no record of the sender has the new record's nonce, unless the sender is unresolved
    assert forall|i: int|
        0 <= i < s.len() && s[i].sender == tx.sender && tx.sender.is_some() implies s[i].index()
        != tx.index() by {
        assert(!clashes(s, tx, i));
    }
    assert(nonces_unique(r)) by {
        assert forall|i: int, j: int|
            0 <= i < j < r.len() && r[i].sender.is_some() && r[i].sender
                == r[j].sender implies r[i].index() != r[j].index() by {
            if i != at && j != at {
                assert(s[from(i)].index() != s[from(j)].index());
            } else if i == at {
                assert(s[from(j)].index() != tx.index());
            } else {
                assert(s[from(i)].index() != tx.index());
            }
        }
    }
    assert(ordered(r)) by {
        assert forall|i: int, j: int|
            0 <= i < j < r.len() && r[i].sender == r[j].sender implies r[i].index()
            <= r[j].index() by {
            if i != at && j != at {
                assert(s[from(i)].index() <= s[from(j)].index());
            } else if i == at {
                assert(s[from(j)].index() >= tx.index());
            } else {
                assert(s[from(i)].index() < tx.index());
            }
        }
    }
    assert(grouped(r)) by {
        assert forall|i: int, j: int, k: int|
            #![trigger r[i], r[j], r[k]]
            0 <= i < j < k < r.len() && r[i].sender == r[k].sender implies r[j].sender
            == r[i].sender by {
            if i != at && j != at && k != at {
                assert(s[from(i)].sender == s[from(k)].sender ==> s[from(j)].sender == s[from(
                    i,
                )].sender);
            } else if j == at {
                // the new record stands between two records of one sender: it touches a
                // record of its own sender, which stands between them too, or is one of them
                if at < s.len() && s[at].sender == tx.sender {
                    if k > at + 1 {
                        assert(s[from(i)].sender == s[from(k)].sender ==> s[at].sender == s[from(
                            i,
                        )].sender);
                    }
                } else {
                    assert(s[at - 1].sender == tx.sender);
                    if i < at - 1 {
                        assert(s[from(i)].sender == s[from(k)].sender ==> s[at - 1].sender
                            == s[from(i)].sender);
                    }
                }
            } else if i == at {
                // the new record and a later one of its sender: the record between them
                if at < s.len() && s[at].sender == tx.sender {
                    if j > at + 1 {
                        assert(s[at].sender == s[from(k)].sender ==> s[from(j)].sender
                            == s[at].sender);
                    }
                } else if at > 0 && s[at - 1].sender == tx.sender {
                    assert(s[at - 1].sender == s[from(k)].sender ==> s[from(j)].sender == s[at
                        - 1].sender);
                }
            } else {
                // an earlier record of its sender and the new record: the record between them
                if at > 0 && s[at - 1].sender == tx.sender {
                    if j < at - 1 {
                        assert(s[from(i)].sender == s[at - 1].sender ==> s[from(j)].sender
                            == s[from(i)].sender);
                    }
                } else if at < s.len() && s[at].sender == tx.sender {
                    assert(s[from(i)].sender == s[at].sender ==> s[from(j)].sender == s[from(
                        i,
                    )].sender);
                }
            }
        }
    }
}

/// Number of fully verified records.
pub open spec fn verified_count(s: Seq<TransactionView>) -> nat
    decreases s.len(),
{
    if s.len() == 0 {
        0
    } else {
        verified_count(s.drop_last()) + if s.last().is_fully_verified() {
            1nat
        } else {
            0nat
        }
    }
}

/// Sum of the encoded sizes of the fully verified records.
pub open spec fn verified_size(s: Seq<TransactionView>) -> nat
    decreases s.len(),
{
    if s.len() == 0 {
        0
    } else {
        verified_size(s.drop_last()) + if s.last().is_fully_verified() {
            s.last().encoded_size()
        } else {
            0nat
        }
    }
}

/// Whether `tx` fits beside the fully verified records of `s`.
pub open spec fn fits_beside_verified(
    s: Seq<TransactionView>,
    tx: TransactionView,
    options: Options,
) -> bool {
    verified_count(s) + 1 <= options.max_count && verified_size(s) + tx.encoded_size()
        <= options.max_bytes
}

/// The fully verified records are no more, and no larger, than all records.
pub proof fn lemma_verified_bounds(s: Seq<TransactionView>)
    ensures
        verified_count(s) <= s.len(),
        verified_size(s) <= total_size(s),
        (forall|i: int| 0 <= i < s.len() ==> s[i].is_fully_verified()) ==> verified_count(s)
            == s.len() && verified_size(s) == total_size(s),
    decreases s.len(),
{
    if s.len() > 0 {
        lemma_verified_bounds(s.drop_last());
        assert forall|i: int| 0 <= i < s.drop_last().len() implies s.drop_last()[i] == s[i] by {}
    }
}

/// Removing a record without a sender leaves the fully verified ones as they were.
pub proof fn lemma_verified_remove(s: Seq<TransactionView>, at: int)
    requires
        0 <= at < s.len(),
        !s[at].is_fully_verified(),
    ensures
        verified_count(s.remove(at)) == verified_count(s),
        verified_size(s.remove(at)) == verified_size(s),
    decreases s.len(),
{
    if at == s.len() - 1 {
        assert(s.remove(at) =~= s.drop_last());
    } else {
        lemma_verified_remove(s.drop_last(), at);
        assert(s.remove(at).drop_last() =~= s.drop_last().remove(at));
        assert(s.remove(at).last() == s.last());
    }
}

/// Room can be made for a record exactly when it fits beside the fully verified records:
/// those never give way, and every other record does.
pub proof fn lemma_room_can_be_made(
    s: Seq<TransactionView>,
    tx: TransactionView,
    options: Options,
)
    ensures
        make_room(s, tx, options).is_some() == fits_beside_verified(s, tx, options),
    decreases s.len(),
{
    lemma_verified_bounds(s);
    if fits(s, tx, options) {
    } else if s.len() == 0 {
    } else {
        lemma_worst(s);
        let at = worst(s);
        if gives_way(s[at]) {
            lemma_room_can_be_made(s.remove(at), tx, options);
            lemma_verified_remove(s, at);
        } else {
            assert forall|i: int| 0 <= i < s.len() implies s[i].is_fully_verified() by {
                assert(leaves_before(s, at, i));
            }
        }
    }
}

/// Whether every record of `part` is a record of `whole`.
pub open spec fn is_part_of(part: Seq<TransactionView>, whole: Seq<TransactionView>) -> bool {
    forall|i: int|
        0 <= i < part.len() ==> exists|j: int| 0 <= j < whole.len() && whole[j] == #[trigger] part[i]
}

/// Making room only takes records away, keeps the pool's rules, and ends with room for the
/// new record.
pub proof fn lemma_make_room(s: Seq<TransactionView>, tx: TransactionView, options: Options)
    requires
        valid(s, options),
    ensures
        match make_room(s, tx, options) {
            Some(rest) => valid(rest, options) && fits(rest, tx, options) && is_part_of(rest, s),
            None => true,
        },
    decreases s.len(),
{
    if fits(s, tx, options) {
        assert(is_part_of(s, s));
    } else if s.len() == 0 {
    } else {
        lemma_worst(s);
        let at = worst(s);
        if gives_way(s[at]) {
            let less = s.remove(at);
            lemma_remove_keeps_valid(s, options, at);
            lemma_make_room(less, tx, options);
            match make_room(less, tx, options) {
                Some(rest) => {
                    assert forall|i: int| 0 <= i < rest.len() implies exists|j: int|
                        0 <= j < s.len() && s[j] == #[trigger] rest[i] by {
                        let k = choose|k: int| 0 <= k < less.len() && less[k] == rest[i];
                        let j = if k < at { k } else { k + 1 };
                        assert(s[j] == rest[i]);
                    }
                },
                None => {},
            }
        }
    }
}

/// Importing a record breaks none of the pool's rules: afterwards no two records share a
/// hash, no two fully verified records of one sender share a nonce, and the bounds hold.
pub proof fn lemma_import_keeps_valid(
    s: Seq<TransactionView>,
    tx: TransactionView,
    options: Options,
)
    requires
        valid(s, options),
    ensures
        valid(after_import(s, tx, options), options),
{
    if let Import::Imported(records) = import(s, tx, options) {
        lemma_make_room(s, tx, options);
        let rest = make_room(s, tx, options).unwrap();
        lemma_slot_exists(rest, tx);
        assert(!holds_hash(rest, tx.hash)) by {
            if holds_hash(rest, tx.hash) {
                let i = choose|i: int| 0 <= i < rest.len() && rest[i].hash == tx.hash;
                let j = choose|j: int| 0 <= j < s.len() && s[j] == rest[i];
                assert(s[j].hash == tx.hash);
            }
        }
        assert forall|i: int| !clashes(rest, tx, i) by {
            if clashes(rest, tx, i) {
                let j = choose|j: int| 0 <= j < s.len() && s[j] == rest[i];
                assert(clashes(s, tx, j));
            }
        }
        lemma_insert_keeps_valid(rest, options, tx, slot(rest, tx));
    }
}

/// The position of the record with the content hash `hash`.
pub open spec fn position_of_hash(s: Seq<TransactionView>, hash: H256) -> int {
    choose|i: int| 0 <= i < s.len() && s[i].hash == hash
}

/// The records without the one whose content hash is `hash`; all of them where none has it.
pub open spec fn without(s: Seq<TransactionView>, hash: H256) -> Seq<TransactionView> {
    if holds_hash(s, hash) {
        s.remove(position_of_hash(s, hash))
    } else {
        s
    }
}

/// The senders that have a record among `s`. The records without a sender count as one
/// sender, `None`.
pub open spec fn senders_of(s: Seq<TransactionView>) -> Set<Option<AccountId>> {
    Set::new(|sender: Option<AccountId>| exists|i: int| 0 <= i < s.len() && s[i].sender == sender)
}

/// Number of runs of records with one sender.
pub open spec fn sender_runs(s: Seq<TransactionView>) -> nat
    decreases s.len(),
{
    if s.len() == 0 {
        0
    } else if s.len() == 1 || s[s.len() - 2].sender != s.last().sender {
        sender_runs(s.drop_last()) + 1
    } else {
        sender_runs(s.drop_last())
    }
}

/// There are no more runs than records.
pub proof fn lemma_sender_runs_bound(s: Seq<TransactionView>)
    ensures
        sender_runs(s) <= s.len(),
    decreases s.len(),
{
    if s.len() > 0 {
        lemma_sender_runs_bound(s.drop_last());
    }
}

/// Where the records of one sender stand side by side, there are as many runs as senders.
pub proof fn lemma_sender_runs(s: Seq<TransactionView>)
    requires
        grouped(s),
    ensures
        senders_of(s).finite(),
        sender_runs(s) == senders_of(s).len(),
    decreases s.len(),
{
    if s.len() == 0 {
        assert(senders_of(s) =~= Set::empty());
    } else {
        let front = s.drop_last();
        let last = s.last();
        assert forall|i: int| 0 <= i < front.len() implies front[i] == s[i] by {}
        assert(grouped(front)) by {
            assert forall|i: int, j: int, k: int|
                #![trigger front[i], front[j], front[k]]
                0 <= i < j < k < front.len() && front[i].sender
                    == front[k].sender implies front[j].sender == front[i].sender by {
                assert(s[i].sender == s[k].sender ==> s[j].sender == s[i].sender);
            }
        }
        lemma_sender_runs(front);
        assert(senders_of(s) =~= senders_of(front).insert(last.sender)) by {
            assert(s[s.len() - 1].sender == last.sender);
            assert forall|sender: Option<AccountId>|
                senders_of(front).insert(last.sender).contains(sender) implies senders_of(
                s,
            ).contains(sender) by {
                if sender != last.sender {
                    let i = choose|i: int| 0 <= i < front.len() && front[i].sender == sender;
                    assert(s[i].sender == sender);
                }
            }
            assert forall|sender: Option<AccountId>|
                senders_of(s).contains(sender) implies senders_of(front).insert(
                last.sender,
            ).contains(sender) by {
                let i = choose|i: int| 0 <= i < s.len() && s[i].sender == sender;
                if i < front.len() {
                    assert(front[i].sender == sender);
                }
            }
        }
        if s.len() == 1 || s[s.len() - 2].sender != last.sender {
            // a run starts here: no record before is of this sender, or the records
            // between it and this one would be as well
            assert(!senders_of(front).contains(last.sender)) by {
                if senders_of(front).contains(last.sender) {
                    let i = choose|i: int| 0 <= i < front.len() && front[i].sender == last.sender;
                    if i < s.len() - 2 {
                        assert(s[i].sender == s[s.len() - 1].sender ==> s[s.len() - 2].sender
                            == s[i].sender);
                    }
                }
            }
        } else {
            assert(front[s.len() - 2].sender == last.sender);
            assert(senders_of(front).contains(last.sender));
        }
    }
}

/// The hash that a caller can name to its peers after an import: that of the record in the
/// pool, whether it just went in or was there before; none where the pool did not take it.
pub open spec fn announced(outcome: Import, hash: H256) -> Option<H256> {
    match outcome {
        Import::Imported(_) => Some(hash),
        Import::AlreadyImported(held) => Some(held),
        Import::CapacityExceeded => None,
    }
}

/// Importing a record a second time changes nothing and names the same hash.
pub proof fn lemma_import_twice(s: Seq<TransactionView>, tx: TransactionView, options: Options)
    requires
        valid(s, options),
    ensures
        after_import(after_import(s, tx, options), tx, options) == after_import(s, tx, options),
        announced(import(after_import(s, tx, options), tx, options), tx.hash) == announced(
            import(s, tx, options),
            tx.hash,
        ),
{
    if let Import::Imported(records) = import(s, tx, options) {
        lemma_make_room(s, tx, options);
        let rest = make_room(s, tx, options).unwrap();
        lemma_slot_exists(rest, tx);
        assert(records[slot(rest, tx)].hash == tx.hash);
        assert(holds_hash(records, tx.hash));
    }
}

} // verus!
