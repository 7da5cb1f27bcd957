//! A record of which peers each transaction has been sent to.

use vstd::prelude::*;
use crate::model::holds_hash;
use crate::primitives::{same_bytes, H256};
use crate::verified::TransactionView;

verus! {

/// The peer names of `peers` as mathematical strings.
pub open spec fn names(peers: Seq<String>) -> Seq<Seq<char>> {
    Seq::new(peers.len(), |i: int| peers[i]@)
}

/// The peers recorded for `hash`, none where the record has no entry for it.
pub open spec fn peers_of(sent: Map<H256, Seq<Seq<char>>>, hash: H256) -> Seq<Seq<char>> {
    if sent.contains_key(hash) {
        sent[hash]
    } else {
        Seq::empty()
    }
}

/// The record after the transaction `hash` has been sent to `peers` as well.
pub open spec fn with_peers(
    sent: Map<H256, Seq<Seq<char>>>,
    hash: H256,
    peers: Seq<Seq<char>>,
) -> Map<H256, Seq<Seq<char>>> {
    sent.insert(hash, peers_of(sent, hash) + peers)
}

/// The content hashes of the records of `s`.
pub open spec fn hashes_of(s: Seq<TransactionView>) -> Set<H256> {
    Set::new(|hash: H256| holds_hash(s, hash))
}

/// What is known of propagation after the pairs of `items` came in, one after the other:
/// the peers of a pair are added for a transaction that is among the records `s`.
pub open spec fn broadcast(
    sent: Map<H256, Seq<Seq<char>>>,
    s: Seq<TransactionView>,
    items: Seq<(H256, Vec<String>)>,
) -> Map<H256, Seq<Seq<char>>>
    decreases items.len(),
{
    if items.len() == 0 {
        sent
    } else {
        let before = broadcast(sent, s, items.drop_last());
        if holds_hash(s, items.last().0) {
            with_peers(before, items.last().0, names(items.last().1@))
        } else {
            before
        }
    }
}

/// For each transaction, by its hash, the peers it has been sent to, in the order in which
/// that became known.
#[derive(Debug)]
pub struct Propagations {
    entries: Vec<(H256, Vec<String>)>,
}

/// Whether the entry at `i` is the one for `hash`.
spec fn is_entry(entries: Seq<(H256, Vec<String>)>, hash: H256, i: int) -> bool {
    0 <= i < entries.len() && entries[i].0 == hash
}

impl View for Propagations {
    type V = Map<H256, Seq<Seq<char>>>;

    closed spec fn view(&self) -> Map<H256, Seq<Seq<char>>> {
        Map::new(
            |hash: H256| exists|i: int| is_entry(self.entries@, hash, i),
            |hash: H256| names(self.entries@[choose|i: int| is_entry(self.entries@, hash, i)].1@),
        )
    }
}

impl Propagations {
    /// No transaction has two entries.
    pub closed spec fn wf(&self) -> bool {
        forall|i: int, j: int|
            0 <= i < j < self.entries@.len() ==> self.entries@[i].0 != self.entries@[j].0
    }

    /// Number of transactions with an entry.
    pub closed spec fn count(&self) -> nat {
        self.entries@.len()
    }

    /// The hash of the entry at `i`.
    pub closed spec fn key(&self, i: int) -> H256 {
        self.entries@[i].0
    }

    /// The entries are those of the record: every entry is for a transaction of the record,
    /// and every transaction of the record has one.
    pub proof fn lemma_entries(&self)
        requires
            self.wf(),
        ensures
            forall|i: int| 0 <= i < self.count() ==> self@.contains_key(#[trigger] self.key(i)),
            forall|hash: H256|
                self@.contains_key(hash) ==> exists|i: int|
                    0 <= i < self.count() && self.key(i) == hash,
            forall|i: int, j: int| 0 <= i < j < self.count() ==> self.key(i) != self.key(j),
    {
        assert forall|i: int| 0 <= i < self.count() implies self@.contains_key(
            #[trigger] self.key(i),
        ) by {
            assert(is_entry(self.entries@, self.key(i), i));
        }
        assert forall|hash: H256| self@.contains_key(hash) implies exists|i: int|
            0 <= i < self.count() && self.key(i) == hash by {
            let i = choose|i: int| is_entry(self.entries@, hash, i);
            assert(0 <= i < self.count() && self.key(i) == hash);
        }
    }

    /// The empty record.
    pub fn new() -> (sent: Self)
        ensures
            sent.wf(),
            sent@ == Map::<H256, Seq<Seq<char>>>::empty(),
            sent.count() == 0,
    {
        let sent = Propagations { entries: Vec::new() };
        assert(sent@ =~= Map::<H256, Seq<Seq<char>>>::empty());
        sent
    }

    /// Number of transactions with an entry.
    pub fn len(&self) -> (count: usize)
        ensures
            count == self.count(),
    {
        self.entries.len()
    }

    /// The hash of the entry at `i`.
    pub fn hash_at(&self, i: usize) -> (hash: H256)
        requires
            i < self.count(),
        ensures
            hash == self.key(i as int),
    {
        self.entries[i].0
    }

    /// The position of the entry for `hash`.
    fn position_of(&self, hash: &H256) -> (found: Option<usize>)
        ensures
            match found {
                Some(i) => is_entry(self.entries@, *hash, i as int),
                None => forall|i: int| !is_entry(self.entries@, *hash, i),
            },
    {
        let mut i: usize = 0;
        while i < self.entries.len()
            invariant
                i <= self.entries.len(),
                forall|k: int| 0 <= k < i ==> self.entries@[k].0 != *hash,
            decreases self.entries.len() - i,
        {
            if same_bytes(&self.entries[i].0, hash) {
                return Some(i);
            }
            i += 1;
        }
        None
    }

    /// The peers that the transaction `hash` has been sent to.
    pub fn sent_to(&self, hash: &H256) -> (peers: Vec<String>)
        requires
            self.wf(),
        ensures
            names(peers@) == peers_of(self@, *hash),
    {
        let mut peers: Vec<String> = Vec::new();
        match self.position_of(hash) {
            Some(at) => {
                let listed = &self.entries[at].1;
                let mut i: usize = 0;
                while i < listed.len()
                    invariant
                        i <= listed.len(),
                        peers.len() == i,
                        forall|k: int| 0 <= k < i ==> peers@[k]@ == listed@[k]@,
                    decreases listed.len() - i,
                {
                    peers.push(listed[i].clone());
                    i += 1;
                }
                proof {
                    let chosen = choose|i: int| is_entry(self.entries@, *hash, i);
                    assert(is_entry(self.entries@, *hash, at as int));
                    assert(chosen == at);
                    assert(names(peers@) =~= names(listed@));
                }
            },
            None => {
                assert(names(peers@) =~= Seq::<Seq<char>>::empty());
            },
        }
        peers
    }

    /// Records that the transaction `hash` has been sent to `peers` as well.
    pub fn add(&mut self, hash: H256, peers: &Vec<String>)
        requires
            old(self).wf(),
        ensures
            final(self).wf(),
            final(self)@ == with_peers(old(self)@, hash, names(peers@)),
    {
        let ghost before = self.entries@;
        let found = self.position_of(&hash);
        let mut list: Vec<String> = match found {
            Some(at) => {
                let entry = self.entries.remove(at);
                entry.1
            },
            None => Vec::new(),
        };
        let ghost had = list@;
        let ghost rest = self.entries@;
        let mut i: usize = 0;
        while i < peers.len()
            invariant
                i <= peers.len(),
                list.len() == had.len() + i,
                forall|k: int| 0 <= k < had.len() ==> list@[k] == had[k],
                forall|k: int| 0 <= k < i ==> list@[had.len() + k]@ == peers@[k]@,
            decreases peers.len() - i,
        {
            list.push(peers[i].clone());
            i += 1;
        }
        self.entries.push((hash, list));
        proof {
            let after = self.entries@;
            let last = after.len() - 1;
            let target = with_peers(old(self)@, hash, names(peers@));
            // where the entry at position `i` of the rest stood before
            let from = |i: int|
                match found {
                    Some(at) => if i < at {
                        i
                    } else {
                        i + 1
                    },
                    None => i,
                };
            assert forall|i: int| 0 <= i < rest.len() implies rest[i] == before[from(i)]
                && rest[i].0 != hash by {
                match found {
                    Some(at) => {
                        assert(is_entry(before, hash, at as int));
                        assert(before[from(i)].0 != before[at as int].0);
                    },
                    None => {
                        assert(!is_entry(before, hash, i));
                    },
                }
            }
            assert(self.wf()) by {
                assert forall|i: int, j: int| 0 <= i < j < after.len() implies after[i].0
                    != after[j].0 by {
                    if j < last {
                        assert(before[from(i)].0 != before[from(j)].0);
                    }
                }
            }
            assert(is_entry(after, hash, last));
            assert(names(had) == peers_of(old(self)@, hash)) by {
                match found {
                    Some(at) => {
                        let chosen = choose|i: int| is_entry(before, hash, i);
                        assert(is_entry(before, hash, at as int));
                        assert(chosen == at);
                    },
                    None => {
                        assert(names(had) =~= Seq::<Seq<char>>::empty());
                    },
                }
            }
            assert(names(list@) =~= names(had) + names(peers@));
            assert forall|a: H256| #[trigger] self@.contains_key(a) implies target.contains_key(
                a,
            ) by {
                if a != hash {
                    let k = choose|k: int| is_entry(after, a, k);
                    assert(is_entry(before, a, from(k)));
                }
            }
            assert forall|a: H256| #[trigger] target.contains_key(a) implies self@.contains_key(a)
                && self@[a] == target[a] by {
                if a == hash {
                    let k = choose|k: int| is_entry(after, a, k);
                    assert(k == last);
                } else {
                    let b = choose|b: int| is_entry(before, a, b);
                    let to = match found {
                        Some(at) => if b < at {
                            b
                        } else {
                            b - 1
                        },
                        None => b,
                    };
                    assert(is_entry(after, a, to));
                    let k = choose|k: int| is_entry(after, a, k);
                    assert(k == to);
                }
            }
            assert(self@ =~= target);
        }
    }

    /// Drops the entry at `i`.
    pub fn forget_at(&mut self, i: usize)
        requires
            old(self).wf(),
            i < old(self).count(),
        ensures
            final(self).wf(),
            final(self)@ == old(self)@.remove(old(self).key(i as int)),
            final(self).count() == old(self).count() - 1,
            forall|k: int| 0 <= k < i ==> final(self).key(k) == old(self).key(k),
            forall|k: int| i <= k < final(self).count() ==> final(self).key(k) == old(self).key(k + 1),
    {
        let ghost before = self.entries@;
        self.entries.remove(i);
        proof {
            let after = self.entries@;
            let gone = before[i as int].0;
            let target = old(self)@.remove(gone);
            assert forall|k: int| 0 <= k < after.len() implies after[k] == before[if k < i {
                k
            } else {
                k + 1
            }] by {}
            assert forall|a: H256| #[trigger] self@.contains_key(a) implies target.contains_key(
                a,
            ) by {
                let k = choose|k: int| is_entry(after, a, k);
                assert(is_entry(before, a, if k < i { k } else { k + 1 }));
            }
            assert forall|a: H256| #[trigger] target.contains_key(a) implies self@.contains_key(a)
                && self@[a] == target[a] by {
                let b = choose|b: int| is_entry(before, a, b);
                let to = if b < i { b } else { b - 1 };
                assert(is_entry(after, a, to));
                let k = choose|k: int| is_entry(after, a, k);
                assert(k == to);
            }
            assert(self@ =~= target);
        }
    }
}

} // verus!
