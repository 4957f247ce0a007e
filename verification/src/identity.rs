//! The identity registry: a plain key-value companion of the voting
//! machine, mapping an account to a display name with no arithmetic
//! attached.

use vstd::prelude::*;

use crate::bytes::bytes_clone;
use crate::kvseq::{
    distinct_keys, kv_map, lemma_kv_map_domain, lemma_kv_map_index, lemma_kv_map_push,
    lemma_kv_map_remove, lemma_kv_map_update,
};

verus! {

/// What an identity operation can fail with.
#[derive(Clone, Copy, Debug, PartialEq, Eq, Structural)]
pub enum Error {
    /// A display name must hold at least one byte.
    EmptyName,
    /// The account has no stored identity to remove.
    AccountHasNoIdentity,
}

/// A registry event, recorded in the order the operations succeeded.
#[derive(Debug, PartialEq, Eq)]
pub enum Event {
    /// An identity was stored: the account and the name.
    IdentityAdded(u64, Vec<u8>),
    /// An account's identity was removed.
    IdentityRemoved(u64),
}

/// A registry event as the contracts see it.
pub enum EventView {
    /// An identity was stored.
    IdentityAdded { who: u64, name: Seq<u8> },
    /// An account's identity was removed.
    IdentityRemoved { who: u64 },
}

impl View for Event {
    type V = EventView;

    open spec fn view(&self) -> EventView {
        match self {
            Event::IdentityAdded(who, name) => EventView::IdentityAdded {
                who: *who,
                name: name@,
            },
            Event::IdentityRemoved(who) => EventView::IdentityRemoved { who: *who },
        }
    }
}

/// The registry: account to display name, plus the event log.
pub struct Pallet {
    entries: Vec<(u64, Vec<u8>)>,
    /// Every event a successful operation signalled, oldest first.
    pub events: Vec<Event>,
}

impl View for Pallet {
    type V = Map<u64, Seq<u8>>;

    closed spec fn view(&self) -> Map<u64, Seq<u8>> {
        kv_map(self.entries_view())
    }
}

impl Pallet {
    /// The entries as the pairs of their views.
    pub closed spec fn entries_view(&self) -> Seq<(u64, Seq<u8>)> {
        Seq::new(self.entries@.len(), |j: int| (self.entries@[j].0, self.entries@[j].1@))
    }

    /// The registry's shape: no account occurs twice.
    pub closed spec fn wf(&self) -> bool {
        distinct_keys(self.entries_view())
    }

    /// The events as the contracts see them.
    pub closed spec fn events_log(&self) -> Seq<EventView> {
        self.events@.map_values(|e: Event| e@)
    }

    /// An empty registry.
    pub fn new() -> (p: Self)
        ensures
            p.wf(),
            p@ == Map::<u64, Seq<u8>>::empty(),
            p.events_log() == Seq::<EventView>::empty(),
    {
        let p = Pallet { entries: Vec::new(), events: Vec::new() };
        proof {
            assert(p.entries_view() =~= Seq::<(u64, Seq<u8>)>::empty());
            assert(p.events_log() =~= Seq::<EventView>::empty());
        }
        p
    }

    /// The position holding the account, if any.
    fn find(&self, account: u64) -> (r: Option<usize>)
        ensures
            match r {
                Some(i) => i < self.entries_view().len() && self.entries_view()[i as int].0
                    == account,
                None => forall|j: int|
                    0 <= j < self.entries_view().len() ==> self.entries_view()[j].0 != account,
            },
    {
        let mut i: usize = 0;
        while i < self.entries.len()
            invariant
                i <= self.entries@.len(),
                forall|j: int| 0 <= j < i ==> self.entries_view()[j].0 != account,
            decreases self.entries@.len() - i,
        {
            if self.entries[i].0 == account {
                return Some(i);
            }
            i = i + 1;
        }
        None
    }

    /// Stores the name under the account, silently overwriting any
    /// name already there; only an empty name is refused, and a
    /// refusal changes nothing.
    pub fn set_identity(&mut self, account: u64, name: Vec<u8>) -> (r: Result<(), Error>)
        requires
            old(self).wf(),
        ensures
            final(self).wf(),
            name@.len() == 0 ==> r == Err::<(), Error>(Error::EmptyName) && final(self)@ == old(
                self,
            )@ && final(self).events_log() == old(self).events_log(),
            name@.len() > 0 ==> r == Ok::<(), Error>(()) && final(self)@ == old(self)@.insert(
                account,
                name@,
            ) && final(self).events_log() == old(self).events_log().push(
                EventView::IdentityAdded { who: account, name: name@ },
            ),
    {
        if name.len() == 0 {
            return Err(Error::EmptyName);
        }
        let ghost s0 = self.entries_view();
        let stored = bytes_clone(&name);
        match self.find(account) {
            Some(i) => {
                self.entries[i] = (account, stored);
                proof {
                    assert(self.entries_view() =~= s0.update(i as int, (s0[i as int].0, name@)));
                    lemma_kv_map_update(s0, i as int, name@);
                    assert(self@ =~= old(self)@.insert(account, name@));
                }
            },
            None => {
                self.entries.push((account, stored));
                proof {
                    assert(self.entries_view() =~= s0.push((account, name@)));
                    lemma_kv_map_push(s0, account, name@);
                    assert(distinct_keys(self.entries_view()));
                }
            },
        }
        self.events.push(Event::IdentityAdded(account, name));
        proof {
            assert(self.events_log() =~= old(self).events_log().push(
                EventView::IdentityAdded { who: account, name: name@ },
            ));
        }
        Ok(())
    }

    /// The stored name under the account, if any.
    pub fn identity_of(&self, account: u64) -> (r: Option<&Vec<u8>>)
        requires
            self.wf(),
        ensures
            r is Some <==> self@.contains_key(account),
            r matches Some(n) ==> self@[account] == n@,
    {
        match self.find(account) {
            Some(i) => {
                proof {
                    lemma_kv_map_index(self.entries_view(), i as int);
                }
                Some(&self.entries[i].1)
            },
            None => {
                proof {
                    lemma_kv_map_domain(self.entries_view(), account);
                }
                None
            },
        }
    }

    /// Removes the account's identity; an account without one is
    /// refused, and a refusal changes nothing.
    pub fn remove_identity(&mut self, account: u64) -> (r: Result<(), Error>)
        requires
            old(self).wf(),
        ensures
            final(self).wf(),
            !old(self)@.contains_key(account) ==> r == Err::<(), Error>(
                Error::AccountHasNoIdentity,
            ) && final(self)@ == old(self)@ && final(self).events_log() == old(self).events_log(),
            old(self)@.contains_key(account) ==> r == Ok::<(), Error>(()) && final(self)@ == old(
                self,
            )@.remove(account) && final(self).events_log() == old(self).events_log().push(
                EventView::IdentityRemoved { who: account },
            ),
    {
        let ghost s0 = self.entries_view();
        match self.find(account) {
            Some(i) => {
                self.entries.remove(i);
                self.events.push(Event::IdentityRemoved(account));
                proof {
                    assert(self.entries_view() =~= s0.remove(i as int));
                    lemma_kv_map_remove(s0, i as int);
                    assert(self@ =~= old(self)@.remove(account));
                    lemma_kv_map_index(s0, i as int);
                    assert(self.events_log() =~= old(self).events_log().push(
                        EventView::IdentityRemoved { who: account },
                    ));
                }
                Ok(())
            },
            None => {
                proof {
                    lemma_kv_map_domain(s0, account);
                }
                Err(Error::AccountHasNoIdentity)
            },
        }
    }
}

} // verus!
