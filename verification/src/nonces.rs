//! A small table from accounts to nonces.

use vstd::prelude::*;
use crate::primitives::{same_bytes, AccountId, Index};

verus! {

/// A finite table that gives some accounts a nonce.
#[derive(Debug)]
pub struct Nonces {
    entries: Vec<(AccountId, Index)>,
}

/// Whether `i` is the first entry of `entries` for `account`.
spec fn is_first(entries: Seq<(AccountId, Index)>, account: AccountId, i: int) -> bool {
    &&& 0 <= i < entries.len()
    &&& entries[i].0 == account
    &&& forall|k: int| 0 <= k < i ==> entries[k].0 != account
}

impl View for Nonces {
    type V = Map<AccountId, Index>;

    closed spec fn view(&self) -> Map<AccountId, Index> {
        Map::new(
            |a: AccountId| exists|i: int| is_first(self.entries@, a, i),
            |a: AccountId| self.entries@[choose|i: int| is_first(self.entries@, a, i)].1,
        )
    }
}

impl Nonces {
    /// The empty table.
    pub fn new() -> (table: Self)
        ensures
            table@ == Map::<AccountId, Index>::empty(),
    {
        let table = Nonces { entries: Vec::new() };
        assert(table@ =~= Map::<AccountId, Index>::empty());
        table
    }

    /// The nonce of `account`, if the table has one.
    pub fn get(&self, account: &AccountId) -> (nonce: Option<Index>)
        ensures
            nonce == if self@.contains_key(*account) {
                Some(self@[*account])
            } else {
                None
            },
    {
        let mut i: usize = 0;
        while i < self.entries.len()
            invariant
                i <= self.entries.len(),
                forall|k: int| 0 <= k < i ==> self.entries@[k].0 != *account,
            decreases self.entries.len() - i,
        {
            if same_bytes(&self.entries[i].0, account) {
                assert(is_first(self.entries@, *account, i as int));
                return Some(self.entries[i].1);
            }
            i += 1;
        }
        None
    }

    /// Gives `account` the nonce `nonce`, in place of the one it had.
    pub fn set(&mut self, account: AccountId, nonce: Index)
        ensures
            final(self)@ == old(self)@.insert(account, nonce),
    {
        let ghost before = self.entries@;
        let mut i: usize = 0;
        let mut found: bool = false;
        while i < self.entries.len() && !found
            invariant
                i <= self.entries.len(),
                self.entries@ == before,
                !found ==> forall|k: int| 0 <= k < i ==> before[k].0 != account,
                found ==> i < before.len() && is_first(before, account, i as int),
            decreases self.entries.len() - i + if found { 0int } else { 1int },
        {
            if same_bytes(&self.entries[i].0, &account) {
                found = true;
            } else {
                i += 1;
            }
        }
        if found {
            self.entries.set(i, (account, nonce));
        } else {
            self.entries.push((account, nonce));
        }
        proof {
            let after = self.entries@;
            let at = i as int;
            assert(is_first(after, account, at));
            assert forall|a: AccountId, f: int| a != account implies (is_first(before, a, f)
                <==> is_first(after, a, f)) by {
                if is_first(before, a, f) {
                    assert forall|k: int| 0 <= k < f implies after[k].0 != a by {
                        assert(before[k].0 != a);
                    }
                }
                if is_first(after, a, f) {
                    assert(f < before.len());
                    assert forall|k: int| 0 <= k < f implies before[k].0 != a by {
                        assert(after[k].0 != a);
                    }
                }
            }
            let target = old(self)@.insert(account, nonce);
            assert forall|a: AccountId| #[trigger] self@.contains_key(a) implies target.contains_key(
                a,
            ) by {
                if a != account {
                    let f = choose|f: int| is_first(after, a, f);
                    assert(is_first(before, a, f));
                }
            }
            assert forall|a: AccountId| #[trigger] target.contains_key(a) implies self@.contains_key(
                a,
            ) && self@[a] == target[a] by {
                if a == account {
                    let f = choose|f: int| is_first(after, a, f);
                    assert(f == at);
                } else {
                    let f = choose|f: int| is_first(before, a, f);
                    assert(is_first(after, a, f));
                    let g = choose|g: int| is_first(after, a, g);
                    assert(is_first(before, a, g));
                    assert(f == g);
                }
            }
            assert(self@ =~= target);
        }
    }
}

impl Clone for Nonces {
    fn clone(&self) -> (copy: Self)
        ensures
            copy@ == self@,
    {
        let mut entries: Vec<(AccountId, Index)> = Vec::new();
        let mut i: usize = 0;
        while i < self.entries.len()
            invariant
                i <= self.entries.len(),
                entries@ == self.entries@.take(i as int),
            decreases self.entries.len() - i,
        {
            entries.push(self.entries[i]);
            assert(entries@ =~= self.entries@.take(i + 1));
            i += 1;
        }
        assert(entries@ =~= self.entries@);
        Nonces { entries }
    }
}

} // verus!
