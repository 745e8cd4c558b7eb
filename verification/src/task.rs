//! The task store: the core state machine.
//!
//! A task moves through the statuses `Created`, `InProgress`, `Closed`.
//! Besides the task map itself, the store keeps an ownership index (for
//! each account, the bounded list of task ids it currently holds) and a
//! global task counter. Starting a task transfers its budget from the
//! volunteer to the initiator through the currency ledger; completing it
//! grants one reputation unit to the initiator's and the completer's
//! profiles. Every multi-step effect checks all its failure conditions
//! before the first write, so a failed request changes nothing.

use std::collections::HashMap;
use vstd::prelude::*;

use crate::hashing::{spec_task_id_of, task_id_of};
use crate::ledger::Ledger;
use crate::profile;

verus! {

broadcast use vstd::std_specs::hash::group_hash_axioms;

/// The lifecycle position of a task.
#[derive(Clone, Copy, Debug, PartialEq, Eq, Structural)]
pub enum TaskStatus {
    /// Posted by the initiator, not yet taken up.
    Created,
    /// Taken up by a volunteer.
    InProgress,
    /// Completed; removal is a separate, destructive operation.
    Closed,
}

/// One unit of work.
pub struct Task {
    /// The account that created the task; immutable; the only account
    /// allowed to remove it.
    pub initiator: u64,
    /// The account volunteering the work; updated on assignment.
    pub volunteer: u64,
    /// The account currently holding the task; matches the ownership index.
    pub current_owner: u64,
    /// Opaque blob describing the work.
    pub requirements: Vec<u8>,
    /// Lifecycle position.
    pub status: TaskStatus,
    /// Budget quoted at creation and transferred when the task starts.
    pub budget: u64,
    /// Opaque deadline marker; not enforced.
    pub deadline: u64,
}

/// Why a task request was rejected.
#[derive(Clone, Copy, Debug, PartialEq, Eq, Structural)]
pub enum Error {
    /// The task counter cannot grow any further.
    TaskCountOverflow,
    /// No task with the given id (or the ownership index disagrees).
    TaskNotExist,
    /// Only the initiator of a task may remove it.
    OnlyInitiatorClosesTask,
    /// The volunteer cannot pay the budget.
    NotEnoughBalance,
    /// The receiving account already holds the maximum number of tasks.
    ExceedMaxTasksOwned,
    /// Only a task that is in progress can be completed.
    NoPermissionToComplete,
}

/// Notification recorded for a successful task request.
#[derive(Clone, Copy, Debug, PartialEq, Eq, Structural)]
pub enum Event {
    /// A task was created: creator and task id.
    TaskCreated(u64, u64),
    /// A task was started: volunteer and task id.
    TaskAssigned(u64, u64),
    /// A task was completed: completer and task id.
    TaskCompleted(u64, u64),
    /// A task was removed: initiator and task id.
    TaskRemoved(u64, u64),
}

/// The fields of `t` in full, as one predicate.
pub open spec fn task_fields(
    t: Task,
    initiator: u64,
    volunteer: u64,
    current_owner: u64,
    requirements: Seq<u8>,
    status: TaskStatus,
    budget: u64,
    deadline: u64,
) -> bool {
    &&& t.initiator == initiator
    &&& t.volunteer == volunteer
    &&& t.current_owner == current_owner
    &&& t.requirements@ == requirements
    &&& t.status == status
    &&& t.budget == budget
    &&& t.deadline == deadline
}

/// `s` with its first occurrence of `id` (if any) taken out by a
/// swap-remove: the last element moves into the hole.
pub open spec fn swap_removed(s: Seq<u64>, id: u64) -> Seq<u64> {
    match s.index_of_first(id) {
        Some(i) => s.update(i, s.last()).drop_last(),
        None => s,
    }
}

/// What a swap-remove of a present element does to a duplicate-free list:
/// one element shorter, the element gone, everything else kept.
pub proof fn lemma_swap_removed_facts(pre: Seq<u64>, id: u64)
    requires
        pre.no_duplicates(),
        pre.contains(id),
    ensures
        swap_removed(pre, id).len() == pre.len() - 1,
        swap_removed(pre, id).no_duplicates(),
        forall|x: u64| swap_removed(pre, id).contains(x) <==> (pre.contains(x) && x != id),
{
    let post = swap_removed(pre, id);
    pre.index_of_first_ensures(id);
    let i = pre.index_of_first(id)->Some_0;
    assert(post == pre.update(i, pre.last()).drop_last());
    assert forall|x: u64| post.contains(x) implies pre.contains(x) && x != id by {
        let a = choose|a: int| 0 <= a < post.len() && post[a] == x;
        let b: int = if a == i {
            pre.len() - 1
        } else {
            a
        };
        assert(post[a] == pre[b]);
        assert(b != i);
        assert(pre[b] != pre[i]);
    }
    assert forall|x: u64| pre.contains(x) && x != id implies post.contains(x) by {
        let b = choose|b: int| 0 <= b < pre.len() && pre[b] == x;
        assert(b != i);
        if b < pre.len() - 1 {
            assert(post[b] == x);
        } else {
            assert(i < pre.len() - 1);
            assert(post[i] == pre[pre.len() - 1]);
            assert(post.contains(x)) by {
                assert(post[i] == x);
            }
        }
    }
    assert forall|a: int, b: int|
        0 <= a < post.len() && 0 <= b < post.len() && a != b implies post[a] != post[b] by {
        let a0: int = if a == i {
            pre.len() - 1
        } else {
            a
        };
        let b0: int = if b == i {
            pre.len() - 1
        } else {
            b
        };
        assert(post[a] == pre[a0]);
        assert(post[b] == pre[b0]);
        assert(a0 != b0);
    }
}

/// The index of the first occurrence of `id` in `list`, if any.
fn position_of(list: &Vec<u64>, id: u64) -> (r: Option<usize>)
    ensures
        match r {
            Some(p) => {
                &&& p < list@.len()
                &&& list@[p as int] == id
                &&& forall|j: int| 0 <= j < p ==> list@[j] != id
            },
            None => forall|j: int| 0 <= j < list@.len() ==> list@[j] != id,
        },
{
    let mut i: usize = 0;
    while i < list.len()
        invariant
            i <= list@.len(),
            forall|j: int| 0 <= j < i ==> list@[j] != id,
        decreases list@.len() - i,
    {
        if list[i] == id {
            return Some(i);
        }
        i = i + 1;
    }
    None
}

/// The task store.
pub struct Pallet {
    tasks: HashMap<u64, Task>,
    tasks_owned: HashMap<u64, Vec<u64>>,
    task_count: u64,
    max_tasks_owned: usize,
    events: Vec<Event>,
}

impl Pallet {
    /// The tasks held, keyed by task id.
    pub closed spec fn spec_tasks(&self) -> Map<u64, Task> {
        self.tasks@
    }

    /// The ownership index entry of `account`: the ids it currently holds.
    pub closed spec fn spec_owned(&self, account: u64) -> Seq<u64> {
        if self.tasks_owned@.contains_key(account) {
            self.tasks_owned@[account]@
        } else {
            Seq::empty()
        }
    }

    /// The global task counter.
    pub closed spec fn spec_count(&self) -> u64 {
        self.task_count
    }

    /// The capacity of each account's ownership index entry.
    pub closed spec fn spec_max(&self) -> usize {
        self.max_tasks_owned
    }

    /// The notifications recorded so far, oldest first.
    pub closed spec fn spec_events(&self) -> Seq<Event> {
        self.events@
    }

    /// The ownership invariant: every listed id is a stored task held by
    /// exactly that account, every stored task is listed under its current
    /// owner, and no list repeats an id.
    pub open spec fn ownership_consistent(&self) -> bool {
        &&& forall|a: u64, i: int|
            0 <= i < self.spec_owned(a).len() ==> {
                &&& self.spec_tasks().contains_key(#[trigger] self.spec_owned(a)[i])
                &&& self.spec_tasks()[self.spec_owned(a)[i]].current_owner == a
            }
        &&& forall|id: u64|
            #[trigger] self.spec_tasks().contains_key(id) ==> self.spec_owned(
                self.spec_tasks()[id].current_owner,
            ).contains(id)
        &&& forall|a: u64| (#[trigger] self.spec_owned(a)).no_duplicates()
    }

    /// An empty store whose ownership index entries hold at most
    /// `max_tasks_owned` ids each.
    pub fn new(max_tasks_owned: usize) -> (r: Pallet)
        ensures
            r.spec_tasks() == Map::<u64, Task>::empty(),
            forall|a: u64| r.spec_owned(a) == Seq::<u64>::empty(),
            r.spec_count() == 0,
            r.spec_max() == max_tasks_owned,
            r.spec_events() == Seq::<Event>::empty(),
            r.ownership_consistent(),
    {
        Pallet {
            tasks: HashMap::new(),
            tasks_owned: HashMap::new(),
            task_count: 0,
            max_tasks_owned,
            events: Vec::new(),
        }
    }

    /// The global task counter.
    pub fn task_count(&self) -> (r: u64)
        ensures
            r == self.spec_count(),
    {
        self.task_count
    }

    /// The capacity of each account's ownership index entry.
    pub fn max_tasks_owned(&self) -> (r: usize)
        ensures
            r == self.spec_max(),
    {
        self.max_tasks_owned
    }

    /// The notifications recorded so far, oldest first.
    pub fn events(&self) -> (r: &Vec<Event>)
        ensures
            r@ == self.spec_events(),
    {
        &self.events
    }

    /// A copy of the task stored under `task_id`, if any.
    pub fn tasks(&self, task_id: u64) -> (r: Option<Task>)
        ensures
            match r {
                Some(t) => self.spec_tasks().contains_key(task_id) && task_fields(
                    t,
                    self.spec_tasks()[task_id].initiator,
                    self.spec_tasks()[task_id].volunteer,
                    self.spec_tasks()[task_id].current_owner,
                    self.spec_tasks()[task_id].requirements@,
                    self.spec_tasks()[task_id].status,
                    self.spec_tasks()[task_id].budget,
                    self.spec_tasks()[task_id].deadline,
                ),
                None => !self.spec_tasks().contains_key(task_id),
            },
    {
        match self.tasks.get(&task_id) {
            Some(t) => {
                let requirements = t.requirements.clone();
                proof {
                    assert(requirements@ =~= t.requirements@);
                }
                Some(
                    Task {
                        initiator: t.initiator,
                        volunteer: t.volunteer,
                        current_owner: t.current_owner,
                        requirements,
                        status: t.status,
                        budget: t.budget,
                        deadline: t.deadline,
                    },
                )
            },
            None => None,
        }
    }

    /// A copy of the ownership index entry of `account`.
    pub fn tasks_owned(&self, account: u64) -> (r: Vec<u64>)
        ensures
            r@ == self.spec_owned(account),
    {
        match self.tasks_owned.get(&account) {
            Some(list) => {
                let copy = list.clone();
                proof {
                    assert(copy@ =~= list@);
                }
                copy
            },
            None => Vec::new(),
        }
    }

    /// The length of the ownership index entry of `account`.
    fn owned_len(&self, account: u64) -> (r: usize)
        ensures
            r == self.spec_owned(account).len(),
    {
        match self.tasks_owned.get(&account) {
            Some(list) => list.len(),
            None => 0,
        }
    }

    /// Append `id` to the ownership index entry of `account`.
    fn owned_push(&mut self, account: u64, id: u64)
        ensures
            final(self).spec_owned(account) == old(self).spec_owned(account).push(id),
            forall|x: u64|
                x != account ==> final(self).spec_owned(x) == old(self).spec_owned(x),
            final(self).spec_tasks() == old(self).spec_tasks(),
            final(self).spec_count() == old(self).spec_count(),
            final(self).spec_max() == old(self).spec_max(),
            final(self).spec_events() == old(self).spec_events(),
    {
        let mut list = match self.tasks_owned.remove(&account) {
            Some(list) => list,
            None => Vec::new(),
        };
        list.push(id);
        self.tasks_owned.insert(account, list);
    }

    /// Whether `id` occurs in the ownership index entry of `account`.
    fn owned_contains(&self, account: u64, id: u64) -> (r: bool)
        ensures
            r == self.spec_owned(account).contains(id),
    {
        match self.tasks_owned.get(&account) {
            Some(list) => {
                proof {
                    assert(self.spec_owned(account) == list@);
                }
                let mut i: usize = 0;
                while i < list.len()
                    invariant
                        self.spec_owned(account) == list@,
                        i <= list@.len(),
                        forall|j: int| 0 <= j < i ==> list@[j] != id,
                    decreases list@.len() - i,
                {
                    if list[i] == id {
                        proof {
                            assert(self.spec_owned(account)[i as int] == id);
                        }
                        return true;
                    }
                    i = i + 1;
                }
                false
            },
            None => false,
        }
    }

    /// Take the first occurrence of `id` out of the ownership index entry
    /// of `account` by swap-remove; reports whether one was found. When
    /// nothing is found, nothing changes.
    fn owned_remove(&mut self, account: u64, id: u64) -> (found: bool)
        ensures
            found == old(self).spec_owned(account).contains(id),
            final(self).spec_owned(account) == swap_removed(old(self).spec_owned(account), id),
            !found ==> final(self).spec_owned(account) == old(self).spec_owned(account),
            forall|x: u64|
                x != account ==> final(self).spec_owned(x) == old(self).spec_owned(x),
            final(self).spec_tasks() == old(self).spec_tasks(),
            final(self).spec_count() == old(self).spec_count(),
            final(self).spec_max() == old(self).spec_max(),
            final(self).spec_events() == old(self).spec_events(),
    {
        let mut list = match self.tasks_owned.remove(&account) {
            Some(list) => list,
            None => Vec::new(),
        };
        let ghost pre_list = list@;
        match position_of(&list, id) {
            Some(p) => {
                proof {
                    assert(old(self).spec_owned(account) == pre_list);
                    assert(pre_list.contains(id)) by {
                        assert(pre_list[p as int] == id);
                    }
                    pre_list.index_of_first_ensures(id);
                    let i = pre_list.index_of_first(id)->Some_0;
                    assert(i == p) by {
                        if i < p {
                            assert(pre_list[i] != id);
                        }
                        if p < i {
                            assert(pre_list[p as int] != id);
                        }
                    }
                }
                list.swap_remove(p);
                self.tasks_owned.insert(account, list);
                true
            },
            None => {
                self.tasks_owned.insert(account, list);
                proof {
                    assert(forall|j: int| 0 <= j < pre_list.len() ==> pre_list[j] != id);
                    assert(!pre_list.contains(id));
                    pre_list.index_of_first_ensures(id);
                }
                false
            },
        }
    }
}

/// The task store is unchanged between `pre` and `post`.
pub open spec fn same_store(pre: Pallet, post: Pallet) -> bool {
    &&& post.spec_tasks() == pre.spec_tasks()
    &&& (forall|a: u64| post.spec_owned(a) == pre.spec_owned(a))
    &&& post.spec_count() == pre.spec_count()
    &&& post.spec_max() == pre.spec_max()
    &&& post.spec_events() == pre.spec_events()
}

/// `post` is `pre` after a successful creation: the freshly built task is
/// stored under its minted id, the id is appended to the initiator's
/// ownership index entry, and the counter grows by one. Events are not
/// part of this relation.
pub open spec fn created_task(
    pre: Pallet,
    post: Pallet,
    initiator: u64,
    requirements: Seq<u8>,
    budget: u64,
    deadline: u64,
) -> bool {
    let id = spec_task_id_of(initiator, requirements, budget, deadline);
    &&& pre.spec_owned(initiator).len() < pre.spec_max()
    &&& pre.spec_count() < u64::MAX
    &&& post.spec_tasks() == pre.spec_tasks().insert(id, post.spec_tasks()[id])
    &&& post.spec_tasks().contains_key(id)
    &&& task_fields(
        post.spec_tasks()[id],
        initiator,
        initiator,
        initiator,
        requirements,
        TaskStatus::Created,
        budget,
        deadline,
    )
    &&& post.spec_owned(initiator) == pre.spec_owned(initiator).push(id)
    &&& (forall|a: u64| a != initiator ==> post.spec_owned(a) == pre.spec_owned(a))
    &&& post.spec_count() == pre.spec_count() + 1
    &&& post.spec_max() == pre.spec_max()
}

/// The error a creation request is rejected with, exactly when it comes.
pub open spec fn create_rejected(pre: Pallet, initiator: u64, e: Error) -> bool {
    &&& (e == Error::ExceedMaxTasksOwned || e == Error::TaskCountOverflow)
    &&& (e == Error::ExceedMaxTasksOwned <==> pre.spec_owned(initiator).len()
        >= pre.spec_max())
    &&& (e == Error::TaskCountOverflow <==> pre.spec_owned(initiator).len() < pre.spec_max()
        && pre.spec_count() == u64::MAX)
}

/// `post` is `pre` after a successful assignment of `task_id` to `to`:
/// the id moves from the previous owner's index entry to `to`'s, and the
/// task's volunteer, current owner and status are updated. Events are not
/// part of this relation.
pub open spec fn assigned_task(pre: Pallet, post: Pallet, to: u64, task_id: u64) -> bool {
    let t = pre.spec_tasks()[task_id];
    let prev = t.current_owner;
    &&& pre.spec_tasks().contains_key(task_id)
    &&& pre.spec_owned(prev).contains(task_id)
    &&& (to == prev || pre.spec_owned(to).len() < pre.spec_max())
    &&& post.spec_tasks() == pre.spec_tasks().insert(task_id, post.spec_tasks()[task_id])
    &&& task_fields(
        post.spec_tasks()[task_id],
        t.initiator,
        to,
        to,
        t.requirements@,
        TaskStatus::InProgress,
        t.budget,
        t.deadline,
    )
    &&& if to == prev {
        &&& post.spec_owned(to) == swap_removed(pre.spec_owned(to), task_id).push(task_id)
        &&& (forall|a: u64| a != to ==> post.spec_owned(a) == pre.spec_owned(a))
    } else {
        &&& post.spec_owned(prev) == swap_removed(pre.spec_owned(prev), task_id)
        &&& post.spec_owned(to) == pre.spec_owned(to).push(task_id)
        &&& (forall|a: u64| a != to && a != prev ==> post.spec_owned(a) == pre.spec_owned(a))
    }
    &&& post.spec_count() == pre.spec_count()
    &&& post.spec_max() == pre.spec_max()
}

/// The error an assignment request is rejected with, exactly when it
/// comes.
pub open spec fn assign_rejected(pre: Pallet, to: u64, task_id: u64, e: Error) -> bool {
    let t = pre.spec_tasks()[task_id];
    let prev = t.current_owner;
    &&& (e == Error::TaskNotExist || e == Error::ExceedMaxTasksOwned)
    &&& (e == Error::TaskNotExist <==> !pre.spec_tasks().contains_key(task_id)
        || !pre.spec_owned(prev).contains(task_id))
    &&& (e == Error::ExceedMaxTasksOwned <==> pre.spec_tasks().contains_key(task_id)
        && pre.spec_owned(prev).contains(task_id) && to != prev && pre.spec_owned(to).len()
        >= pre.spec_max())
}

/// `post` is `pre` after a successful completion of `task_id` by
/// `caller`: the id moves from the caller's index entry back to the
/// initiator's, and the task is closed with the initiator as owner.
/// Events and reputation are not part of this relation.
pub open spec fn completed_task(pre: Pallet, post: Pallet, caller: u64, task_id: u64) -> bool {
    let t = pre.spec_tasks()[task_id];
    let init = t.initiator;
    &&& pre.spec_tasks().contains_key(task_id)
    &&& t.status == TaskStatus::InProgress
    &&& pre.spec_owned(caller).contains(task_id)
    &&& (init == caller || pre.spec_owned(init).len() < pre.spec_max())
    &&& post.spec_tasks() == pre.spec_tasks().insert(task_id, post.spec_tasks()[task_id])
    &&& task_fields(
        post.spec_tasks()[task_id],
        init,
        t.volunteer,
        init,
        t.requirements@,
        TaskStatus::Closed,
        t.budget,
        t.deadline,
    )
    &&& if init == caller {
        &&& post.spec_owned(caller) == swap_removed(pre.spec_owned(caller), task_id).push(
            task_id,
        )
        &&& (forall|a: u64| a != caller ==> post.spec_owned(a) == pre.spec_owned(a))
    } else {
        &&& post.spec_owned(caller) == swap_removed(pre.spec_owned(caller), task_id)
        &&& post.spec_owned(init) == pre.spec_owned(init).push(task_id)
        &&& (forall|a: u64|
            a != caller && a != init ==> post.spec_owned(a) == pre.spec_owned(a))
    }
    &&& post.spec_count() == pre.spec_count()
    &&& post.spec_max() == pre.spec_max()
}

/// The error a completion request is rejected with, exactly when it
/// comes.
pub open spec fn complete_rejected(pre: Pallet, caller: u64, task_id: u64, e: Error) -> bool {
    let t = pre.spec_tasks()[task_id];
    let exists_in_progress = pre.spec_tasks().contains_key(task_id) && t.status
        == TaskStatus::InProgress;
    &&& (e == Error::NoPermissionToComplete || e == Error::TaskNotExist
        || e == Error::ExceedMaxTasksOwned)
    &&& (e == Error::NoPermissionToComplete <==> pre.spec_tasks().contains_key(task_id)
        && t.status != TaskStatus::InProgress)
    &&& (e == Error::TaskNotExist <==> !pre.spec_tasks().contains_key(task_id) || (
    exists_in_progress && !pre.spec_owned(caller).contains(task_id)))
    &&& (e == Error::ExceedMaxTasksOwned <==> exists_in_progress && pre.spec_owned(
        caller,
    ).contains(task_id) && t.initiator != caller && pre.spec_owned(t.initiator).len()
        >= pre.spec_max())
}

/// `post` is `pre` after granting one reputation unit to `initiator` and
/// one to `completer` (two to the same profile if they coincide);
/// accounts without a profile gain nothing, and no other profile state
/// changes.
pub open spec fn reputation_granted(
    pre: profile::Pallet,
    post: profile::Pallet,
    initiator: u64,
    completer: u64,
) -> bool {
    &&& (forall|a: u64|
        post.spec_profiles().contains_key(a) <==> pre.spec_profiles().contains_key(a))
    &&& (forall|a: u64|
        a != initiator && a != completer && pre.spec_profiles().contains_key(a)
            ==> post.spec_profiles()[a] == pre.spec_profiles()[a])
    &&& (pre.spec_profiles().contains_key(initiator) ==> profile::profile_fields(
        post.spec_profiles()[initiator],
        pre.spec_profiles()[initiator].owner,
        pre.spec_profiles()[initiator].interests@,
        pre.spec_profiles()[initiator].balance,
        (pre.spec_profiles()[initiator].reputation + if completer == initiator {
            2int
        } else {
            1int
        }) as u32,
    ))
    &&& (completer != initiator && pre.spec_profiles().contains_key(completer)
        ==> profile::profile_fields(
        post.spec_profiles()[completer],
        pre.spec_profiles()[completer].owner,
        pre.spec_profiles()[completer].interests@,
        pre.spec_profiles()[completer].balance,
        (pre.spec_profiles()[completer].reputation + 1) as u32,
    ))
    &&& post.spec_count() == pre.spec_count()
    &&& post.spec_events() == pre.spec_events()
}

/// The profile store is unchanged between `pre` and `post`.
pub open spec fn same_profiles(pre: profile::Pallet, post: profile::Pallet) -> bool {
    &&& post.spec_profiles() == pre.spec_profiles()
    &&& post.spec_count() == pre.spec_count()
    &&& post.spec_events() == pre.spec_events()
}

/// The reputation counters of the task's initiator and of the completer
/// have room for the grants a completion makes.
pub open spec fn reputation_headroom(
    profiles: profile::Pallet,
    initiator: u64,
    completer: u64,
) -> bool {
    if initiator == completer {
        profiles.spec_profiles().contains_key(completer)
            ==> profiles.spec_profiles()[completer].reputation < u32::MAX - 1
    } else {
        &&& (profiles.spec_profiles().contains_key(initiator)
            ==> profiles.spec_profiles()[initiator].reputation < u32::MAX)
        &&& (profiles.spec_profiles().contains_key(completer)
            ==> profiles.spec_profiles()[completer].reputation < u32::MAX)
    }
}

/// `post` is `pre` after a successful removal of `task_id`: the id leaves
/// the current holder's index entry, the task record is deleted, and the
/// counter shrinks by one (floor zero). Events are not part of this
/// relation.
pub open spec fn removed_task(pre: Pallet, post: Pallet, task_id: u64) -> bool {
    let t = pre.spec_tasks()[task_id];
    let holder = t.current_owner;
    &&& pre.spec_tasks().contains_key(task_id)
    &&& pre.spec_owned(holder).contains(task_id)
    &&& post.spec_tasks() == pre.spec_tasks().remove(task_id)
    &&& post.spec_owned(holder) == swap_removed(pre.spec_owned(holder), task_id)
    &&& (forall|a: u64| a != holder ==> post.spec_owned(a) == pre.spec_owned(a))
    &&& post.spec_count() == if pre.spec_count() > 0 {
        (pre.spec_count() - 1) as u64
    } else {
        0u64
    }
    &&& post.spec_max() == pre.spec_max()
}

/// The error a removal request is rejected with, exactly when it comes.
pub open spec fn remove_rejected(pre: Pallet, caller: u64, task_id: u64, e: Error) -> bool {
    let t = pre.spec_tasks()[task_id];
    &&& (e == Error::OnlyInitiatorClosesTask || e == Error::TaskNotExist)
    &&& (e == Error::OnlyInitiatorClosesTask <==> pre.spec_tasks().contains_key(task_id)
        && t.initiator != caller)
    &&& (e == Error::TaskNotExist <==> !pre.spec_tasks().contains_key(task_id) || (
    pre.spec_tasks().contains_key(task_id) && t.initiator == caller && !pre.spec_owned(
        t.current_owner,
    ).contains(task_id)))
}

impl Pallet {
    /// Build a task for `from_initiator` (who starts as volunteer and
    /// owner, status `Created`), store it under its minted id, list the id
    /// under the initiator, and raise the counter. The capacity of the
    /// initiator's index entry and the counter are checked before anything
    /// is written. Returns the minted task id.
    pub fn new_task(
        &mut self,
        from_initiator: u64,
        requirements: &Vec<u8>,
        budget: u64,
        deadline: u64,
    ) -> (r: Result<u64, Error>)
        ensures
            match r {
                Ok(id) => {
                    &&& id == spec_task_id_of(from_initiator, requirements@, budget, deadline)
                    &&& created_task(
                        *old(self),
                        *final(self),
                        from_initiator,
                        requirements@,
                        budget,
                        deadline,
                    )
                    &&& final(self).spec_events() == old(self).spec_events()
                },
                Err(e) => {
                    &&& same_store(*old(self), *final(self))
                    &&& create_rejected(*old(self), from_initiator, e)
                },
            },
            old(self).ownership_consistent() && !old(self).spec_tasks().contains_key(
                spec_task_id_of(from_initiator, requirements@, budget, deadline),
            ) ==> final(self).ownership_consistent(),
    {
        if self.owned_len(from_initiator) >= self.max_tasks_owned {
            return Err(Error::ExceedMaxTasksOwned);
        }
        if self.task_count == u64::MAX {
            return Err(Error::TaskCountOverflow);
        }
        let id = task_id_of(from_initiator, requirements, budget, deadline);
        let stored_requirements = requirements.clone();
        proof {
            assert(stored_requirements@ =~= requirements@);
        }
        let task = Task {
            initiator: from_initiator,
            volunteer: from_initiator,
            current_owner: from_initiator,
            requirements: stored_requirements,
            status: TaskStatus::Created,
            budget,
            deadline,
        };
        self.owned_push(from_initiator, id);
        self.tasks.insert(id, task);
        self.task_count = self.task_count + 1;
        proof {
            if old(self).ownership_consistent() && !old(self).spec_tasks().contains_key(id) {
                crate::laws::lemma_ownership_after_create(
                    *old(self),
                    *self,
                    from_initiator,
                    requirements@,
                    budget,
                    deadline,
                );
            }
        }
        Ok(id)
    }

    /// Create a task for `caller` and record a `TaskCreated` event. A
    /// failed request changes nothing and records nothing.
    pub fn create_task(
        &mut self,
        caller: u64,
        requirements: Vec<u8>,
        budget: u64,
        deadline: u64,
    ) -> (r: Result<(), Error>)
        ensures
            match r {
                Ok(()) => {
                    &&& created_task(
                        *old(self),
                        *final(self),
                        caller,
                        requirements@,
                        budget,
                        deadline,
                    )
                    &&& final(self).spec_events() == old(self).spec_events().push(
                        Event::TaskCreated(
                            caller,
                            spec_task_id_of(caller, requirements@, budget, deadline),
                        ),
                    )
                },
                Err(e) => {
                    &&& same_store(*old(self), *final(self))
                    &&& create_rejected(*old(self), caller, e)
                },
            },
            old(self).ownership_consistent() && !old(self).spec_tasks().contains_key(
                spec_task_id_of(caller, requirements@, budget, deadline),
            ) ==> final(self).ownership_consistent(),
    {
        let id = match self.new_task(caller, &requirements, budget, deadline) {
            Ok(id) => id,
            Err(e) => {
                return Err(e);
            },
        };
        self.events.push(Event::TaskCreated(caller, id));
        proof {
            if old(self).ownership_consistent() && !old(self).spec_tasks().contains_key(id) {
                crate::laws::lemma_ownership_after_create(
                    *old(self),
                    *self,
                    caller,
                    requirements@,
                    budget,
                    deadline,
                );
            }
        }
        Ok(())
    }

    /// Move `task_id` out of its previous owner's index entry, hand it to
    /// `to` (who becomes volunteer and current owner) and mark it in
    /// progress. Capacity of `to`'s index entry is checked before anything
    /// is written.
    pub fn assign_task(&mut self, to: u64, task_id: u64) -> (r: Result<(), Error>)
        ensures
            match r {
                Ok(()) => {
                    &&& assigned_task(*old(self), *final(self), to, task_id)
                    &&& final(self).spec_events() == old(self).spec_events()
                },
                Err(e) => {
                    &&& same_store(*old(self), *final(self))
                    &&& assign_rejected(*old(self), to, task_id, e)
                },
            },
            old(self).ownership_consistent() ==> final(self).ownership_consistent(),
    {
        let prev = match self.tasks.get(&task_id) {
            Some(t) => t.current_owner,
            None => {
                return Err(Error::TaskNotExist);
            },
        };
        if !self.owned_contains(prev, task_id) {
            return Err(Error::TaskNotExist);
        }
        if to != prev && self.owned_len(to) >= self.max_tasks_owned {
            return Err(Error::ExceedMaxTasksOwned);
        }
        self.owned_remove(prev, task_id);
        let mut task = match self.tasks.remove(&task_id) {
            Some(t) => t,
            None => {
                return Err(Error::TaskNotExist);
            },
        };
        task.current_owner = to;
        task.volunteer = to;
        task.status = TaskStatus::InProgress;
        self.tasks.insert(task_id, task);
        proof {
            assert(self.tasks@ =~= old(self).spec_tasks().insert(
                task_id,
                self.tasks@[task_id],
            ));
        }
        self.owned_push(to, task_id);
        proof {
            if old(self).ownership_consistent() {
                crate::laws::lemma_ownership_after_assign(*old(self), *self, to, task_id);
            }
        }
        Ok(())
    }

    /// Start `task_id`: assign it to `caller` and transfer its budget from
    /// `caller` to the task's initiator through the ledger, recording a
    /// `TaskAssigned` event. The transfer is attempted before the store is
    /// touched, so a failed request changes neither the store nor the
    /// ledger.
    pub fn start_task(&mut self, ledger: &mut Ledger, caller: u64, task_id: u64) -> (r: Result<
        (),
        Error,
    >)
        ensures
            match r {
                Ok(()) => {
                    &&& assigned_task(*old(self), *final(self), caller, task_id)
                    &&& final(self).spec_events() == old(self).spec_events().push(
                        Event::TaskAssigned(caller, task_id),
                    )
                    &&& old(ledger).balance_of(caller)
                        >= old(self).spec_tasks()[task_id].budget
                    &&& old(ledger).can_transfer_keep_alive(
                        caller,
                        old(self).spec_tasks()[task_id].initiator,
                        old(self).spec_tasks()[task_id].budget,
                    )
                    &&& crate::ledger::ledger_transferred(
                        *old(ledger),
                        *final(ledger),
                        caller,
                        old(self).spec_tasks()[task_id].initiator,
                        old(self).spec_tasks()[task_id].budget,
                    )
                },
                Err(e) => {
                    &&& same_store(*old(self), *final(self))
                    &&& crate::ledger::ledger_unchanged(*old(ledger), *final(ledger))
                    &&& start_rejected(*old(self), *old(ledger), caller, task_id, e)
                },
            },
            old(self).ownership_consistent() ==> final(self).ownership_consistent(),
    {
        let (prev, initiator, budget) = match self.tasks.get(&task_id) {
            Some(t) => (t.current_owner, t.initiator, t.budget),
            None => {
                return Err(Error::TaskNotExist);
            },
        };
        if !self.owned_contains(prev, task_id) {
            return Err(Error::TaskNotExist);
        }
        if caller != prev && self.owned_len(caller) >= self.max_tasks_owned {
            return Err(Error::ExceedMaxTasksOwned);
        }
        if ledger.free_balance(caller) < budget {
            return Err(Error::NotEnoughBalance);
        }
        if !ledger.transfer_keep_alive(caller, initiator, budget) {
            return Err(Error::NotEnoughBalance);
        }
        match self.assign_task(caller, task_id) {
            Ok(()) => {},
            Err(e) => {
                return Err(e);
            },
        }
        self.events.push(Event::TaskAssigned(caller, task_id));
        proof {
            if old(self).ownership_consistent() {
                crate::laws::lemma_ownership_after_assign(*old(self), *self, caller, task_id);
            }
        }
        Ok(())
    }
}

impl Pallet {
    /// Close `task_id`: check it is in progress and held by `caller`,
    /// move the id from the caller's index entry back to the initiator's,
    /// set the initiator as current owner, and grant one reputation unit
    /// to the initiator's profile and one to the caller's. All failure
    /// conditions are checked before the first write.
    pub fn mark_finished(
        &mut self,
        profiles: &mut profile::Pallet,
        caller: u64,
        task_id: u64,
    ) -> (r: Result<(), Error>)
        requires
            old(self).spec_tasks().contains_key(task_id) ==> reputation_headroom(
                *old(profiles),
                old(self).spec_tasks()[task_id].initiator,
                caller,
            ),
        ensures
            match r {
                Ok(()) => {
                    &&& completed_task(*old(self), *final(self), caller, task_id)
                    &&& reputation_granted(
                        *old(profiles),
                        *final(profiles),
                        old(self).spec_tasks()[task_id].initiator,
                        caller,
                    )
                    &&& final(self).spec_events() == old(self).spec_events()
                },
                Err(e) => {
                    &&& same_store(*old(self), *final(self))
                    &&& same_profiles(*old(profiles), *final(profiles))
                    &&& complete_rejected(*old(self), caller, task_id, e)
                },
            },
            old(self).ownership_consistent() ==> final(self).ownership_consistent(),
    {
        let (status_in_progress, initiator) = match self.tasks.get(&task_id) {
            Some(t) => (t.status == TaskStatus::InProgress, t.initiator),
            None => {
                return Err(Error::TaskNotExist);
            },
        };
        if !status_in_progress {
            return Err(Error::NoPermissionToComplete);
        }
        if !self.owned_contains(caller, task_id) {
            return Err(Error::TaskNotExist);
        }
        if initiator != caller && self.owned_len(initiator) >= self.max_tasks_owned {
            return Err(Error::ExceedMaxTasksOwned);
        }
        self.owned_remove(caller, task_id);
        let mut task = match self.tasks.remove(&task_id) {
            Some(t) => t,
            None => {
                return Err(Error::TaskNotExist);
            },
        };
        task.current_owner = initiator;
        task.status = TaskStatus::Closed;
        self.tasks.insert(task_id, task);
        proof {
            assert(self.tasks@ =~= old(self).spec_tasks().insert(
                task_id,
                self.tasks@[task_id],
            ));
        }
        self.owned_push(initiator, task_id);
        profiles.increment_reputation(initiator);
        profiles.increment_reputation(caller);
        proof {
            if old(self).ownership_consistent() {
                crate::laws::lemma_ownership_after_complete(*old(self), *self, caller, task_id);
            }
        }
        Ok(())
    }

    /// Complete `task_id` as `caller` and record a `TaskCompleted` event.
    /// A failed request changes nothing and records nothing.
    pub fn complete_task(
        &mut self,
        profiles: &mut profile::Pallet,
        caller: u64,
        task_id: u64,
    ) -> (r: Result<(), Error>)
        requires
            old(self).spec_tasks().contains_key(task_id) ==> reputation_headroom(
                *old(profiles),
                old(self).spec_tasks()[task_id].initiator,
                caller,
            ),
        ensures
            match r {
                Ok(()) => {
                    &&& completed_task(*old(self), *final(self), caller, task_id)
                    &&& reputation_granted(
                        *old(profiles),
                        *final(profiles),
                        old(self).spec_tasks()[task_id].initiator,
                        caller,
                    )
                    &&& final(self).spec_events() == old(self).spec_events().push(
                        Event::TaskCompleted(caller, task_id),
                    )
                },
                Err(e) => {
                    &&& same_store(*old(self), *final(self))
                    &&& same_profiles(*old(profiles), *final(profiles))
                    &&& complete_rejected(*old(self), caller, task_id, e)
                },
            },
            old(self).ownership_consistent() ==> final(self).ownership_consistent(),
    {
        match self.mark_finished(profiles, caller, task_id) {
            Ok(()) => {},
            Err(e) => {
                return Err(e);
            },
        }
        self.events.push(Event::TaskCompleted(caller, task_id));
        proof {
            if old(self).ownership_consistent() {
                crate::laws::lemma_ownership_after_complete(*old(self), *self, caller, task_id);
            }
        }
        Ok(())
    }
}

impl Pallet {
    /// Whether `task_closer` is the initiator of `task_id`; fails if the
    /// task does not exist.
    pub fn is_task_initiator(&self, task_id: u64, task_closer: u64) -> (r: Result<bool, Error>)
        ensures
            match r {
                Ok(b) => self.spec_tasks().contains_key(task_id) && b == (self.spec_tasks()[task_id].initiator == task_closer),
                Err(e) => !self.spec_tasks().contains_key(task_id) && e == Error::TaskNotExist,
            },
    {
        match self.tasks.get(&task_id) {
            Some(t) => Ok(t.initiator == task_closer),
            None => Err(Error::TaskNotExist),
        }
    }

    /// Remove `task_id` on behalf of `task_initiator`: only the task's
    /// initiator may remove it. The id leaves the current holder's index
    /// entry, the record is deleted, and the counter shrinks by one (floor
    /// zero). All failure conditions are checked before the first write.
    pub fn delete_task(&mut self, task_initiator: u64, task_id: u64) -> (r: Result<(), Error>)
        ensures
            match r {
                Ok(()) => {
                    &&& old(self).spec_tasks()[task_id].initiator == task_initiator
                    &&& removed_task(*old(self), *final(self), task_id)
                    &&& final(self).spec_events() == old(self).spec_events()
                },
                Err(e) => {
                    &&& same_store(*old(self), *final(self))
                    &&& remove_rejected(*old(self), task_initiator, task_id, e)
                },
            },
            old(self).ownership_consistent() ==> final(self).ownership_consistent(),
    {
        let (initiator, holder) = match self.tasks.get(&task_id) {
            Some(t) => (t.initiator, t.current_owner),
            None => {
                return Err(Error::TaskNotExist);
            },
        };
        if initiator != task_initiator {
            return Err(Error::OnlyInitiatorClosesTask);
        }
        if !self.owned_contains(holder, task_id) {
            return Err(Error::TaskNotExist);
        }
        self.owned_remove(holder, task_id);
        self.tasks.remove(&task_id);
        if self.task_count > 0 {
            self.task_count = self.task_count - 1;
        }
        proof {
            if old(self).ownership_consistent() {
                crate::laws::lemma_ownership_after_remove(*old(self), *self, task_id);
            }
        }
        Ok(())
    }

    /// Remove `task_id` as `caller` and record a `TaskRemoved` event. A
    /// failed request changes nothing and records nothing. Reputation is
    /// never granted here, whatever the task's status.
    pub fn remove_task(&mut self, caller: u64, task_id: u64) -> (r: Result<(), Error>)
        ensures
            match r {
                Ok(()) => {
                    &&& old(self).spec_tasks()[task_id].initiator == caller
                    &&& removed_task(*old(self), *final(self), task_id)
                    &&& final(self).spec_events() == old(self).spec_events().push(
                        Event::TaskRemoved(caller, task_id),
                    )
                },
                Err(e) => {
                    &&& same_store(*old(self), *final(self))
                    &&& remove_rejected(*old(self), caller, task_id, e)
                },
            },
            old(self).ownership_consistent() ==> final(self).ownership_consistent(),
    {
        match self.delete_task(caller, task_id) {
            Ok(()) => {},
            Err(e) => {
                return Err(e);
            },
        }
        self.events.push(Event::TaskRemoved(caller, task_id));
        proof {
            if old(self).ownership_consistent() {
                crate::laws::lemma_ownership_after_remove(*old(self), *self, task_id);
            }
        }
        Ok(())
    }
}

/// The error a start request is rejected with, exactly when it comes. The
/// conditions are checked in order: existence and index consistency, then
/// capacity, then the volunteer's balance and the transfer itself.
pub open spec fn start_rejected(
    pre: Pallet,
    pre_ledger: Ledger,
    caller: u64,
    task_id: u64,
    e: Error,
) -> bool {
    let t = pre.spec_tasks()[task_id];
    let prev = t.current_owner;
    let assignable = pre.spec_tasks().contains_key(task_id) && pre.spec_owned(prev).contains(
        task_id,
    ) && (caller == prev || pre.spec_owned(caller).len() < pre.spec_max());
    &&& (e == Error::TaskNotExist || e == Error::ExceedMaxTasksOwned
        || e == Error::NotEnoughBalance)
    &&& (e == Error::TaskNotExist <==> !pre.spec_tasks().contains_key(task_id)
        || !pre.spec_owned(prev).contains(task_id))
    &&& (e == Error::ExceedMaxTasksOwned <==> pre.spec_tasks().contains_key(task_id)
        && pre.spec_owned(prev).contains(task_id) && caller != prev && pre.spec_owned(
        caller,
    ).len() >= pre.spec_max())
    &&& (e == Error::NotEnoughBalance <==> assignable && (pre_ledger.balance_of(caller)
        < t.budget || !pre_ledger.can_transfer_keep_alive(caller, t.initiator, t.budget)))
}

} // verus!
