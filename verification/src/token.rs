//! The reserved-token ledger that gates registration.
//!
//! The voting machine never owns token balances; it only asks a
//! [`TokenLedger`] to reserve a deposit when an account registers and
//! to release it again when the account unregisters.  The trait
//! promises nothing, so everything the machine guarantees holds
//! whatever a ledger answers.  [`BasicTokenLedger`] is a verified
//! in-memory ledger for runtimes and tests that want one.

use vstd::prelude::*;

use crate::kvseq::{
    distinct_keys, kv_map, lemma_kv_map_domain, lemma_kv_map_index, lemma_kv_map_push,
    lemma_kv_map_update,
};

verus! {

/// The deposit locked for the whole of an account's registration.
pub const RESERVATION_FEE: u64 = 1000;

/// A ledger that can lock and unlock a deposit per account.  `reserve`
/// and `release` answer whether they succeeded; either may fail, and
/// callers decide what a failure means.
pub trait TokenLedger {
    /// Tries to move `amount` of the account's free tokens into
    /// reserve.
    fn reserve(&mut self, account: u64, amount: u64) -> bool;

    /// Tries to move `amount` of the account's reserved tokens back to
    /// free.
    fn release(&mut self, account: u64, amount: u64) -> bool;
}

/// An account's balance, split into the freely spendable part and the
/// part locked in reserve.
#[derive(Clone, Copy, Debug, PartialEq, Eq, Structural)]
pub struct Balance {
    /// Tokens available to reserve.
    pub free: u64,
    /// Tokens locked in reserve.
    pub reserved: u64,
}

/// A verified in-memory token ledger.
pub struct BasicTokenLedger {
    entries: Vec<(u64, Balance)>,
}

impl View for BasicTokenLedger {
    type V = Map<u64, Balance>;

    closed spec fn view(&self) -> Map<u64, Balance> {
        kv_map(self.entries@)
    }
}

impl BasicTokenLedger {
    /// The ledger's shape: one record per account, and each balance's
    /// two parts sum within the integer width.
    pub closed spec fn wf(&self) -> bool {
        &&& distinct_keys(self.entries@)
        &&& forall|j: int|
            0 <= j < self.entries@.len() ==> (#[trigger] self.entries@[j]).1.free as int
                + self.entries@[j].1.reserved as int <= u64::MAX as int
    }

    /// An empty ledger.
    pub fn new() -> (s: Self)
        ensures
            s.wf(),
            s@ == Map::<u64, Balance>::empty(),
    {
        let s = BasicTokenLedger { entries: Vec::new() };
        proof {
            assert(s.entries@ =~= Seq::<(u64, Balance)>::empty());
        }
        s
    }

    /// The position holding the account, if any.
    fn find(&self, account: u64) -> (r: Option<usize>)
        ensures
            match r {
                Some(i) => i < self.entries@.len() && self.entries@[i as int].0 == account,
                None => forall|j: int|
                    0 <= j < self.entries@.len() ==> (#[trigger] self.entries@[j]).0 != account,
            },
    {
        let mut i: usize = 0;
        while i < self.entries.len()
            invariant
                i <= self.entries@.len(),
                forall|j: int| 0 <= j < i ==> (#[trigger] self.entries@[j]).0 != account,
            decreases self.entries@.len() - i,
        {
            if self.entries[i].0 == account {
                return Some(i);
            }
            i = i + 1;
        }
        None
    }

    /// The account's balance; an unknown account holds nothing.
    pub fn balance_of(&self, account: u64) -> (r: Balance)
        requires
            self.wf(),
        ensures
            self@.contains_key(account) ==> r == self@[account],
            !self@.contains_key(account) ==> r == (Balance { free: 0, reserved: 0 }),
    {
        match self.find(account) {
            Some(i) => {
                proof {
                    lemma_kv_map_index(self.entries@, i as int);
                }
                self.entries[i].1
            },
            None => {
                proof {
                    lemma_kv_map_domain(self.entries@, account);
                }
                Balance { free: 0, reserved: 0 }
            },
        }
    }

    /// Puts tokens into the account's free balance, creating the
    /// record if need be.
    pub fn fund(&mut self, account: u64, amount: u64)
        requires
            old(self).wf(),
            (if old(self)@.contains_key(account) {
                old(self)@[account].free as int + old(self)@[account].reserved as int
            } else {
                0
            }) + amount as int <= u64::MAX as int,
        ensures
            final(self).wf(),
            final(self)@ == old(self)@.insert(
                account,
                Balance {
                    free: ((if old(self)@.contains_key(account) {
                        old(self)@[account].free
                    } else {
                        0
                    }) + amount) as u64,
                    reserved: if old(self)@.contains_key(account) {
                        old(self)@[account].reserved
                    } else {
                        0
                    },
                },
            ),
    {
        let ghost s0 = self.entries@;
        match self.find(account) {
            Some(i) => {
                proof {
                    lemma_kv_map_index(s0, i as int);
                }
                let cur: Balance = self.entries[i].1;
                let b = Balance { free: cur.free + amount, reserved: cur.reserved };
                self.entries[i] = (account, b);
                proof {
                    assert(self.entries@ =~= s0.update(i as int, (s0[i as int].0, b)));
                    lemma_kv_map_update(s0, i as int, b);
                    assert(self@ =~= old(self)@.insert(account, b));
                }
            },
            None => {
                proof {
                    lemma_kv_map_domain(s0, account);
                }
                let b = Balance { free: amount, reserved: 0 };
                self.entries.push((account, b));
                proof {
                    assert(self.entries@ =~= s0.push((account, b)));
                    lemma_kv_map_push(s0, account, b);
                    assert(distinct_keys(self.entries@));
                }
            },
        }
    }

    /// Moves free tokens into reserve; answers whether the account
    /// could afford it, and changes nothing when it could not.
    pub fn do_reserve(&mut self, account: u64, amount: u64) -> (r: bool)
        requires
            old(self).wf(),
        ensures
            final(self).wf(),
            r == (old(self)@.contains_key(account) && old(self)@[account].free >= amount),
            r ==> final(self)@ == old(self)@.insert(
                account,
                Balance {
                    free: (old(self)@[account].free - amount) as u64,
                    reserved: (old(self)@[account].reserved + amount) as u64,
                },
            ),
            !r ==> final(self)@ == old(self)@,
    {
        let ghost s0 = self.entries@;
        match self.find(account) {
            Some(i) => {
                proof {
                    lemma_kv_map_index(s0, i as int);
                }
                let cur: Balance = self.entries[i].1;
                if cur.free >= amount {
                    let b = Balance { free: cur.free - amount, reserved: cur.reserved + amount };
                    self.entries[i] = (account, b);
                    proof {
                        assert(self.entries@ =~= s0.update(i as int, (s0[i as int].0, b)));
                        lemma_kv_map_update(s0, i as int, b);
                        assert(self@ =~= old(self)@.insert(account, b));
                    }
                    true
                } else {
                    false
                }
            },
            None => {
                proof {
                    lemma_kv_map_domain(s0, account);
                }
                false
            },
        }
    }

    /// Moves reserved tokens back to free; answers whether that much
    /// stood in reserve, and changes nothing when it did not.
    pub fn do_release(&mut self, account: u64, amount: u64) -> (r: bool)
        requires
            old(self).wf(),
        ensures
            final(self).wf(),
            r == (old(self)@.contains_key(account) && old(self)@[account].reserved >= amount),
            r ==> final(self)@ == old(self)@.insert(
                account,
                Balance {
                    free: (old(self)@[account].free + amount) as u64,
                    reserved: (old(self)@[account].reserved - amount) as u64,
                },
            ),
            !r ==> final(self)@ == old(self)@,
    {
        let ghost s0 = self.entries@;
        match self.find(account) {
            Some(i) => {
                proof {
                    lemma_kv_map_index(s0, i as int);
                }
                let cur: Balance = self.entries[i].1;
                if cur.reserved >= amount {
                    let b = Balance { free: cur.free + amount, reserved: cur.reserved - amount };
                    self.entries[i] = (account, b);
                    proof {
                        assert(self.entries@ =~= s0.update(i as int, (s0[i as int].0, b)));
                        lemma_kv_map_update(s0, i as int, b);
                        assert(self@ =~= old(self)@.insert(account, b));
                    }
                    true
                } else {
                    false
                }
            },
            None => {
                proof {
                    lemma_kv_map_domain(s0, account);
                }
                false
            },
        }
    }
}

impl TokenLedger for BasicTokenLedger {
    fn reserve(&mut self, account: u64, amount: u64) -> bool {
        if !self.check_shape() {
            return false;
        }
        self.do_reserve(account, amount)
    }

    fn release(&mut self, account: u64, amount: u64) -> bool {
        if !self.check_shape() {
            return false;
        }
        self.do_release(account, amount)
    }
}

impl BasicTokenLedger {
    /// Re-establishes the ledger's shape for callers that reach it
    /// through the bare trait, where nothing carries `wf` along.
    fn check_shape(&self) -> (r: bool)
        ensures
            r ==> self.wf(),
    {
        let mut i: usize = 0;
        while i < self.entries.len()
            invariant
                i <= self.entries@.len(),
                forall|x: int, y: int|
                    0 <= x < y < i ==> self.entries@[x].0 != self.entries@[y].0,
                forall|j: int|
                    0 <= j < i ==> (#[trigger] self.entries@[j]).1.free as int
                        + self.entries@[j].1.reserved as int <= u64::MAX as int,
            decreases self.entries@.len() - i,
        {
            let e: Balance = self.entries[i].1;
            if e.free > u64::MAX - e.reserved {
                return false;
            }
            let mut j: usize = 0;
            while j < i
                invariant
                    j <= i,
                    i < self.entries@.len(),
                    forall|y: int| 0 <= y < j ==> self.entries@[y].0 != self.entries@[i as int].0,
                decreases i - j,
            {
                if self.entries[j].0 == self.entries[i].0 {
                    return false;
                }
                j = j + 1;
            }
            i = i + 1;
        }
        true
    }
}

} // verus!
