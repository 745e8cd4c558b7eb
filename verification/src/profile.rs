//! The profile store: one profile per account.
//!
//! A profile enriches an account with an opaque interests blob, a balance
//! snapshot taken at the last write, and a reputation counter that only the
//! task store increments (one unit per completed task). Creation fails if
//! the account already has a profile; update and removal fail if it has
//! none.

use std::collections::HashMap;
use vstd::prelude::*;

use crate::hashing::{profile_id_of, spec_profile_id_of};
use crate::ledger::Ledger;

verus! {

broadcast use vstd::std_specs::hash::group_hash_axioms;

/// The metadata stored for one account.
pub struct Profile {
    /// The account this profile belongs to; equals the storage key.
    pub owner: u64,
    /// Opaque blob describing the owner's interests.
    pub interests: Vec<u8>,
    /// Free balance of the owner, captured at the last write.
    pub balance: Option<u64>,
    /// Completed-task counter; starts at zero and only ever grows.
    pub reputation: u32,
}

/// Why a profile request was rejected.
#[derive(Clone, Copy, Debug, PartialEq, Eq, Structural)]
pub enum Error {
    /// The profile counter cannot grow any further.
    ProfileCountOverflow,
    /// The caller has no profile to update.
    NoUpdateAuthority,
    /// The caller has no profile to delete.
    NoDeletionAuthority,
    /// The caller already has a profile.
    ProfileAlreadyCreated,
}

/// Notification recorded for a successful profile request.
#[derive(Clone, Copy, Debug, PartialEq, Eq, Structural)]
pub enum Event {
    /// A profile was created: account and profile id.
    ProfileCreated(u64, u64),
    /// A profile was deleted: account.
    ProfileDeleted(u64),
    /// A profile was updated: account and new profile id.
    ProfileUpdated(u64, u64),
}

/// The fields of `p` in full, as one predicate.
pub open spec fn profile_fields(
    p: Profile,
    owner: u64,
    interests: Seq<u8>,
    balance: Option<u64>,
    reputation: u32,
) -> bool {
    &&& p.owner == owner
    &&& p.interests@ == interests
    &&& p.balance == balance
    &&& p.reputation == reputation
}

/// The profile store.
pub struct Pallet {
    profiles: HashMap<u64, Profile>,
    profile_count: u64,
    events: Vec<Event>,
}

impl Pallet {
    /// The profiles held, keyed by owner account.
    pub closed spec fn spec_profiles(&self) -> Map<u64, Profile> {
        self.profiles@
    }

    /// The number of profiles held.
    pub closed spec fn spec_count(&self) -> u64 {
        self.profile_count
    }

    /// The notifications recorded so far, oldest first.
    pub closed spec fn spec_events(&self) -> Seq<Event> {
        self.events@
    }

    /// The reputation of `account`, or zero if it has no profile.
    pub open spec fn spec_reputation(&self, account: u64) -> u32 {
        if self.spec_profiles().contains_key(account) {
            self.spec_profiles()[account].reputation
        } else {
            0
        }
    }

    /// An empty store.
    pub fn new() -> (r: Pallet)
        ensures
            r.spec_profiles() == Map::<u64, Profile>::empty(),
            r.spec_count() == 0,
            r.spec_events() == Seq::<Event>::empty(),
    {
        Pallet { profiles: HashMap::new(), profile_count: 0, events: Vec::new() }
    }

    /// Whether `account` has a profile.
    pub fn profile_exists(&self, account: u64) -> (r: bool)
        ensures
            r == self.spec_profiles().contains_key(account),
    {
        self.profiles.contains_key(&account)
    }

    /// The number of profiles held.
    pub fn profile_count(&self) -> (r: u64)
        ensures
            r == self.spec_count(),
    {
        self.profile_count
    }

    /// The notifications recorded so far, oldest first.
    pub fn events(&self) -> (r: &Vec<Event>)
        ensures
            r@ == self.spec_events(),
    {
        &self.events
    }

    /// A copy of the profile of `account`, if it has one.
    pub fn profiles(&self, account: u64) -> (r: Option<Profile>)
        ensures
            match r {
                Some(p) => self.spec_profiles().contains_key(account) && profile_fields(
                    p,
                    self.spec_profiles()[account].owner,
                    self.spec_profiles()[account].interests@,
                    self.spec_profiles()[account].balance,
                    self.spec_profiles()[account].reputation,
                ),
                None => !self.spec_profiles().contains_key(account),
            },
    {
        match self.profiles.get(&account) {
            Some(p) => {
                let interests = p.interests.clone();
                proof {
                    assert(interests@ =~= p.interests@);
                }
                Some(
                    Profile {
                        owner: p.owner,
                        interests,
                        balance: p.balance,
                        reputation: p.reputation,
                    },
                )
            },
            None => None,
        }
    }

    /// Create the profile of `owner`: interests as given, balance snapshot
    /// taken from the ledger, reputation zero. Fails if `owner` already has
    /// a profile, or if the profile counter would overflow. Returns the
    /// minted profile id.
    pub fn generate_profile(&mut self, ledger: &Ledger, owner: u64, interests: Vec<u8>) -> (r:
        Result<u64, Error>)
        ensures
            match r {
                Ok(id) => {
                    &&& !old(self).spec_profiles().contains_key(owner)
                    &&& old(self).spec_count() < u64::MAX
                    &&& id == spec_profile_id_of(owner, interests@, ledger.balance_of(owner))
                    &&& final(self).spec_profiles() == old(self).spec_profiles().insert(
                        owner,
                        final(self).spec_profiles()[owner],
                    )
                    &&& profile_fields(
                        final(self).spec_profiles()[owner],
                        owner,
                        interests@,
                        Some(ledger.balance_of(owner)),
                        0,
                    )
                    &&& final(self).spec_count() == old(self).spec_count() + 1
                },
                Err(e) => {
                    &&& *final(self) == *old(self)
                    &&& (e == Error::ProfileAlreadyCreated || e == Error::ProfileCountOverflow)
                    &&& (e == Error::ProfileAlreadyCreated <==> old(
                        self,
                    ).spec_profiles().contains_key(owner))
                    &&& (e == Error::ProfileCountOverflow <==> !old(
                        self,
                    ).spec_profiles().contains_key(owner) && old(self).spec_count() == u64::MAX)
                },
            },
            final(self).spec_events() == old(self).spec_events(),
    {
        if self.profiles.contains_key(&owner) {
            return Err(Error::ProfileAlreadyCreated);
        }
        if self.profile_count == u64::MAX {
            return Err(Error::ProfileCountOverflow);
        }
        let balance = ledger.free_balance(owner);
        let id = profile_id_of(owner, &interests, balance);
        let profile = Profile { owner, interests, balance: Some(balance), reputation: 0 };
        self.profiles.insert(owner, profile);
        self.profile_count = self.profile_count + 1;
        Ok(id)
    }

    /// Replace the interests of `owner`'s profile and refresh its balance
    /// snapshot; reputation and owner are kept. Fails if `owner` has no
    /// profile. Returns the id minted for the updated contents.
    pub fn change_profile(&mut self, ledger: &Ledger, owner: u64, new_interests: Vec<u8>) -> (r:
        Result<u64, Error>)
        ensures
            match r {
                Ok(id) => {
                    &&& old(self).spec_profiles().contains_key(owner)
                    &&& id == spec_profile_id_of(owner, new_interests@, ledger.balance_of(owner))
                    &&& final(self).spec_profiles() == old(self).spec_profiles().insert(
                        owner,
                        final(self).spec_profiles()[owner],
                    )
                    &&& profile_fields(
                        final(self).spec_profiles()[owner],
                        owner,
                        new_interests@,
                        Some(ledger.balance_of(owner)),
                        old(self).spec_profiles()[owner].reputation,
                    )
                    &&& final(self).spec_count() == old(self).spec_count()
                },
                Err(e) => {
                    &&& *final(self) == *old(self)
                    &&& e == Error::NoUpdateAuthority
                    &&& !old(self).spec_profiles().contains_key(owner)
                },
            },
            final(self).spec_events() == old(self).spec_events(),
    {
        let reputation = match self.profiles.get(&owner) {
            Some(p) => p.reputation,
            None => {
                return Err(Error::NoUpdateAuthority);
            },
        };
        let balance = ledger.free_balance(owner);
        let id = profile_id_of(owner, &new_interests, balance);
        let profile = Profile {
            owner,
            interests: new_interests,
            balance: Some(balance),
            reputation,
        };
        self.profiles.insert(owner, profile);
        Ok(id)
    }

    /// Delete the profile of `owner` and decrement the counter (floor
    /// zero). Fails if `owner` has no profile.
    pub fn delete_profile(&mut self, owner: u64) -> (r: Result<(), Error>)
        ensures
            match r {
                Ok(()) => {
                    &&& old(self).spec_profiles().contains_key(owner)
                    &&& final(self).spec_profiles() == old(self).spec_profiles().remove(owner)
                    &&& final(self).spec_count() == if old(self).spec_count() > 0 {
                        (old(self).spec_count() - 1) as u64
                    } else {
                        0u64
                    }
                },
                Err(e) => {
                    &&& *final(self) == *old(self)
                    &&& e == Error::NoDeletionAuthority
                    &&& !old(self).spec_profiles().contains_key(owner)
                },
            },
            final(self).spec_events() == old(self).spec_events(),
    {
        if !self.profiles.contains_key(&owner) {
            return Err(Error::NoDeletionAuthority);
        }
        self.profiles.remove(&owner);
        if self.profile_count > 0 {
            self.profile_count = self.profile_count - 1;
        }
        Ok(())
    }

    /// Whether one more reputation unit can be granted to `account`
    /// without overflowing its counter.
    pub open spec fn can_gain_reputation(&self, account: u64) -> bool {
        self.spec_profiles().contains_key(account) ==> self.spec_profiles()[account].reputation
            < u32::MAX
    }

    /// Grant one reputation unit to `account`'s profile; without a profile
    /// nothing changes. Exposed to the task store, which calls it once for
    /// the initiator and once for the completer when a task is completed.
    pub fn increment_reputation(&mut self, account: u64)
        requires
            old(self).can_gain_reputation(account),
        ensures
            old(self).spec_profiles().contains_key(account) ==> {
                &&& final(self).spec_profiles() == old(self).spec_profiles().insert(
                    account,
                    final(self).spec_profiles()[account],
                )
                &&& profile_fields(
                    final(self).spec_profiles()[account],
                    old(self).spec_profiles()[account].owner,
                    old(self).spec_profiles()[account].interests@,
                    old(self).spec_profiles()[account].balance,
                    (old(self).spec_profiles()[account].reputation + 1) as u32,
                )
            },
            !old(self).spec_profiles().contains_key(account) ==> final(self).spec_profiles()
                == old(self).spec_profiles(),
            final(self).spec_count() == old(self).spec_count(),
            final(self).spec_events() == old(self).spec_events(),
    {
        match self.profiles.remove(&account) {
            Some(mut profile) => {
                profile.change_reputation();
                self.profiles.insert(account, profile);
                proof {
                    assert(self.profiles@ =~= old(self).profiles@.insert(
                        account,
                        self.profiles@[account],
                    ));
                }
            },
            None => {
                proof {
                    assert(self.profiles@ =~= old(self).profiles@);
                }
            },
        }
    }

    /// Create a profile for `account` and record a `ProfileCreated` event.
    /// A failed request changes nothing and records nothing.
    pub fn create_profile(&mut self, ledger: &Ledger, account: u64, interests: Vec<u8>) -> (r:
        Result<(), Error>)
        ensures
            match r {
                Ok(()) => {
                    &&& !old(self).spec_profiles().contains_key(account)
                    &&& old(self).spec_count() < u64::MAX
                    &&& final(self).spec_profiles() == old(self).spec_profiles().insert(
                        account,
                        final(self).spec_profiles()[account],
                    )
                    &&& profile_fields(
                        final(self).spec_profiles()[account],
                        account,
                        interests@,
                        Some(ledger.balance_of(account)),
                        0,
                    )
                    &&& final(self).spec_count() == old(self).spec_count() + 1
                    &&& final(self).spec_events() == old(self).spec_events().push(
                        Event::ProfileCreated(
                            account,
                            spec_profile_id_of(account, interests@, ledger.balance_of(account)),
                        ),
                    )
                },
                Err(e) => {
                    &&& *final(self) == *old(self)
                    &&& (e == Error::ProfileAlreadyCreated || e == Error::ProfileCountOverflow)
                    &&& (e == Error::ProfileAlreadyCreated <==> old(
                        self,
                    ).spec_profiles().contains_key(account))
                    &&& (e == Error::ProfileCountOverflow <==> !old(
                        self,
                    ).spec_profiles().contains_key(account) && old(self).spec_count() == u64::MAX)
                },
            },
    {
        let id = match self.generate_profile(ledger, account, interests) {
            Ok(id) => id,
            Err(e) => {
                return Err(e);
            },
        };
        self.events.push(Event::ProfileCreated(account, id));
        Ok(())
    }

    /// Update the profile of `account` and record a `ProfileUpdated`
    /// event. A failed request changes nothing and records nothing.
    pub fn update_profile(&mut self, ledger: &Ledger, account: u64, interests: Vec<u8>) -> (r:
        Result<(), Error>)
        ensures
            match r {
                Ok(()) => {
                    &&& old(self).spec_profiles().contains_key(account)
                    &&& final(self).spec_profiles() == old(self).spec_profiles().insert(
                        account,
                        final(self).spec_profiles()[account],
                    )
                    &&& profile_fields(
                        final(self).spec_profiles()[account],
                        account,
                        interests@,
                        Some(ledger.balance_of(account)),
                        old(self).spec_profiles()[account].reputation,
                    )
                    &&& final(self).spec_count() == old(self).spec_count()
                    &&& final(self).spec_events() == old(self).spec_events().push(
                        Event::ProfileUpdated(
                            account,
                            spec_profile_id_of(account, interests@, ledger.balance_of(account)),
                        ),
                    )
                },
                Err(e) => {
                    &&& *final(self) == *old(self)
                    &&& e == Error::NoUpdateAuthority
                    &&& !old(self).spec_profiles().contains_key(account)
                },
            },
    {
        let id = match self.change_profile(ledger, account, interests) {
            Ok(id) => id,
            Err(e) => {
                return Err(e);
            },
        };
        self.events.push(Event::ProfileUpdated(account, id));
        Ok(())
    }

    /// Remove the profile of `account` and record a `ProfileDeleted`
    /// event. A failed request changes nothing and records nothing.
    pub fn remove_profile(&mut self, account: u64) -> (r: Result<(), Error>)
        ensures
            match r {
                Ok(()) => {
                    &&& old(self).spec_profiles().contains_key(account)
                    &&& final(self).spec_profiles() == old(self).spec_profiles().remove(account)
                    &&& final(self).spec_count() == if old(self).spec_count() > 0 {
                        (old(self).spec_count() - 1) as u64
                    } else {
                        0u64
                    }
                    &&& final(self).spec_events() == old(self).spec_events().push(
                        Event::ProfileDeleted(account),
                    )
                },
                Err(e) => {
                    &&& *final(self) == *old(self)
                    &&& e == Error::NoDeletionAuthority
                    &&& !old(self).spec_profiles().contains_key(account)
                },
            },
    {
        match self.delete_profile(account) {
            Ok(()) => {},
            Err(e) => {
                return Err(e);
            },
        }
        self.events.push(Event::ProfileDeleted(account));
        Ok(())
    }
}

impl Profile {
    /// Raise the reputation counter by one.
    pub fn change_reputation(&mut self)
        requires
            old(self).reputation < u32::MAX,
        ensures
            final(self).reputation == old(self).reputation + 1,
            final(self).owner == old(self).owner,
            final(self).interests == old(self).interests,
            final(self).balance == old(self).balance,
    {
        self.reputation = self.reputation + 1;
    }

    /// Replace the interests blob.
    pub fn change_interests(&mut self, new_interests: Vec<u8>)
        ensures
            final(self).interests == new_interests,
            final(self).owner == old(self).owner,
            final(self).balance == old(self).balance,
            final(self).reputation == old(self).reputation,
    {
        self.interests = new_interests;
    }
}

} // verus!
