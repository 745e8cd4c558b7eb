//! Store-wide laws of the task lifecycle.
//!
//! The task operations are specified by the transition relations in
//! `task` (`created_task`, `assigned_task`, `completed_task`,
//! `removed_task`, `reputation_granted`). The lemmas here prove, from
//! those relations alone, that every operation preserves the ownership
//! invariant, that a task's status only ever moves forward through
//! `Created`, `InProgress`, `Closed`, and that reputation is granted
//! exactly once, at completion.

use vstd::prelude::*;

use crate::hashing::spec_task_id_of;
use crate::profile;
use crate::task::{
    assigned_task, completed_task, created_task, lemma_swap_removed_facts, removed_task,
    reputation_granted, swap_removed, Pallet, TaskStatus,
};

verus! {

/// How far along the lifecycle a status is.
pub open spec fn status_rank(s: TaskStatus) -> int {
    match s {
        TaskStatus::Created => 0,
        TaskStatus::InProgress => 1,
        TaskStatus::Closed => 2,
    }
}

/// An id listed in some account's ownership index entry is a stored task
/// currently owned by that account.
pub proof fn lemma_consistent_member(pre: Pallet, a: u64, x: u64)
    requires
        pre.ownership_consistent(),
        pre.spec_owned(a).contains(x),
    ensures
        pre.spec_tasks().contains_key(x),
        pre.spec_tasks()[x].current_owner == a,
{
    let i = choose|i: int| 0 <= i < pre.spec_owned(a).len() && pre.spec_owned(a)[i] == x;
    assert(pre.spec_tasks().contains_key(pre.spec_owned(a)[i]));
}

/// Ownership is exclusive: a stored task is listed under its current
/// owner, exactly once, and under nobody else.
pub proof fn lemma_ownership_exclusive(pre: Pallet, id: u64)
    requires
        pre.ownership_consistent(),
        pre.spec_tasks().contains_key(id),
    ensures
        pre.spec_owned(pre.spec_tasks()[id].current_owner).contains(id),
        forall|a: u64|
            a != pre.spec_tasks()[id].current_owner ==> !pre.spec_owned(a).contains(id),
        forall|i: int, j: int|
            #![trigger pre.spec_owned(pre.spec_tasks()[id].current_owner)[i],
                pre.spec_owned(pre.spec_tasks()[id].current_owner)[j]]
            {
                let held = pre.spec_owned(pre.spec_tasks()[id].current_owner);
                (0 <= i < held.len() && 0 <= j < held.len() && held[i] == id && held[j] == id)
                    ==> i == j
            },
{
    let owner = pre.spec_tasks()[id].current_owner;
    assert forall|a: u64| a != owner implies !pre.spec_owned(a).contains(id) by {
        if pre.spec_owned(a).contains(id) {
            lemma_consistent_member(pre, a, id);
        }
    }
    assert(pre.spec_owned(owner).no_duplicates());
}

/// Creating a task under a fresh id preserves the ownership invariant.
/// (A creation whose fields repeat an existing task's creation fields
/// mints the same id and overwrites that task, which can break the
/// invariant; the host's original behaves the same way.)
pub proof fn lemma_ownership_after_create(
    pre: Pallet,
    post: Pallet,
    initiator: u64,
    requirements: Seq<u8>,
    budget: u64,
    deadline: u64,
)
    requires
        pre.ownership_consistent(),
        created_task(pre, post, initiator, requirements, budget, deadline),
        !pre.spec_tasks().contains_key(
            spec_task_id_of(initiator, requirements, budget, deadline),
        ),
    ensures
        post.ownership_consistent(),
{
    let id = spec_task_id_of(initiator, requirements, budget, deadline);
    assert(!pre.spec_owned(initiator).contains(id)) by {
        if pre.spec_owned(initiator).contains(id) {
            lemma_consistent_member(pre, initiator, id);
        }
    }
    assert forall|a: u64, i: int| 0 <= i < post.spec_owned(a).len() implies {
        &&& post.spec_tasks().contains_key(#[trigger] post.spec_owned(a)[i])
        &&& post.spec_tasks()[post.spec_owned(a)[i]].current_owner == a
    } by {
        let x = post.spec_owned(a)[i];
        if a == initiator && i == pre.spec_owned(initiator).len() {
            assert(x == id);
        } else {
            assert(x == pre.spec_owned(a)[i]);
            assert(pre.spec_owned(a).contains(x));
            lemma_consistent_member(pre, a, x);
            assert(x != id);
        }
    }
    assert forall|id2: u64| #[trigger] post.spec_tasks().contains_key(id2) implies post.spec_owned(
        post.spec_tasks()[id2].current_owner,
    ).contains(id2) by {
        if id2 == id {
            let held = post.spec_owned(initiator);
            assert(held[held.len() - 1] == id);
        } else {
            assert(pre.spec_tasks().contains_key(id2));
            let owner = pre.spec_tasks()[id2].current_owner;
            assert(pre.spec_owned(owner).contains(id2));
            let i = choose|i: int|
                0 <= i < pre.spec_owned(owner).len() && pre.spec_owned(owner)[i] == id2;
            assert(post.spec_owned(owner)[i] == id2);
        }
    }
    assert forall|a: u64| (#[trigger] post.spec_owned(a)).no_duplicates() by {
        if a == initiator {
            let held = post.spec_owned(a);
            assert forall|i: int, j: int|
                0 <= i < held.len() && 0 <= j < held.len() && i != j implies held[i]
                != held[j] by {
                if i < held.len() - 1 && j < held.len() - 1 {
                    assert(pre.spec_owned(a).no_duplicates());
                    assert(held[i] == pre.spec_owned(a)[i]);
                    assert(held[j] == pre.spec_owned(a)[j]);
                } else if i == held.len() - 1 {
                    assert(held[j] == pre.spec_owned(a)[j]);
                    assert(pre.spec_owned(a).contains(held[j]));
                } else {
                    assert(held[i] == pre.spec_owned(a)[i]);
                    assert(pre.spec_owned(a).contains(held[i]));
                }
            }
        } else {
            assert(post.spec_owned(a) == pre.spec_owned(a));
        }
    }
}

/// Moving a task to a new holder preserves the ownership invariant: the
/// id leaves the previous owner's index entry in the same step in which
/// it enters the new owner's.
pub proof fn lemma_ownership_after_assign(pre: Pallet, post: Pallet, to: u64, task_id: u64)
    requires
        pre.ownership_consistent(),
        assigned_task(pre, post, to, task_id),
    ensures
        post.ownership_consistent(),
{
    let t = pre.spec_tasks()[task_id];
    let prev = t.current_owner;
    lemma_swap_removed_facts(pre.spec_owned(prev), task_id);
    let removed = swap_removed(pre.spec_owned(prev), task_id);
    assert(!pre.spec_owned(to).contains(task_id) || to == prev) by {
        if pre.spec_owned(to).contains(task_id) {
            lemma_consistent_member(pre, to, task_id);
        }
    }
    assert forall|a: u64, i: int| 0 <= i < post.spec_owned(a).len() implies {
        &&& post.spec_tasks().contains_key(#[trigger] post.spec_owned(a)[i])
        &&& post.spec_tasks()[post.spec_owned(a)[i]].current_owner == a
    } by {
        let x = post.spec_owned(a)[i];
        if a == to && i == post.spec_owned(to).len() - 1 && x == task_id {
            assert(post.spec_tasks()[task_id].current_owner == to);
        } else {
            if a == to {
                if to == prev {
                    if i < removed.len() {
                        assert(x == removed[i]);
                        assert(removed.contains(x));
                        assert(pre.spec_owned(prev).contains(x) && x != task_id);
                    } else {
                        assert(x == task_id);
                    }
                } else {
                    if i < pre.spec_owned(to).len() {
                        assert(x == pre.spec_owned(to)[i]);
                        assert(pre.spec_owned(to).contains(x));
                        assert(x != task_id);
                    } else {
                        assert(x == task_id);
                    }
                }
            } else if a == prev {
                assert(x == removed[i]);
                assert(removed.contains(x));
                assert(pre.spec_owned(prev).contains(x) && x != task_id);
            } else {
                assert(x == pre.spec_owned(a)[i]);
                assert(pre.spec_owned(a).contains(x));
            }
            if x != task_id {
                let source: u64 = if a == to && to == prev {
                    prev
                } else {
                    a
                };
                lemma_consistent_member(pre, source, x);
                assert(post.spec_tasks()[x] == pre.spec_tasks()[x]);
            } else {
                assert(post.spec_tasks()[task_id].current_owner == to);
            }
        }
    }
    assert forall|id2: u64| #[trigger] post.spec_tasks().contains_key(id2) implies post.spec_owned(
        post.spec_tasks()[id2].current_owner,
    ).contains(id2) by {
        if id2 == task_id {
            let held = post.spec_owned(to);
            assert(held[held.len() - 1] == task_id);
        } else {
            assert(pre.spec_tasks().contains_key(id2));
            let owner = pre.spec_tasks()[id2].current_owner;
            assert(pre.spec_owned(owner).contains(id2));
            if owner == prev {
                assert(removed.contains(id2));
                if to == prev {
                    let held = post.spec_owned(to);
                    let i = choose|i: int| 0 <= i < removed.len() && removed[i] == id2;
                    assert(held[i] == id2);
                } else {
                    assert(post.spec_owned(prev) == removed);
                }
            } else if owner == to {
                let i = choose|i: int|
                    0 <= i < pre.spec_owned(to).len() && pre.spec_owned(to)[i] == id2;
                assert(post.spec_owned(to)[i] == id2);
            } else {
                assert(post.spec_owned(owner) == pre.spec_owned(owner));
            }
        }
    }
    assert forall|a: u64| (#[trigger] post.spec_owned(a)).no_duplicates() by {
        if a == to {
            let base: Seq<u64> = if to == prev {
                removed
            } else {
                pre.spec_owned(to)
            };
            assert(base.no_duplicates());
            assert(!base.contains(task_id));
            let held = post.spec_owned(to);
            assert(held == base.push(task_id));
            assert forall|i: int, j: int|
                0 <= i < held.len() && 0 <= j < held.len() && i != j implies held[i]
                != held[j] by {
                if i < base.len() && j < base.len() {
                    assert(held[i] == base[i]);
                    assert(held[j] == base[j]);
                } else if i == base.len() {
                    assert(held[j] == base[j]);
                    assert(base.contains(held[j]));
                } else {
                    assert(held[i] == base[i]);
                    assert(base.contains(held[i]));
                }
            }
        } else if a == prev {
            assert(post.spec_owned(prev) == removed);
        } else {
            assert(post.spec_owned(a) == pre.spec_owned(a));
        }
    }
}

/// Completing a task preserves the ownership invariant: the id leaves the
/// completer's index entry in the same step in which it returns to the
/// initiator's.
pub proof fn lemma_ownership_after_complete(pre: Pallet, post: Pallet, caller: u64, task_id: u64)
    requires
        pre.ownership_consistent(),
        completed_task(pre, post, caller, task_id),
    ensures
        post.ownership_consistent(),
{
    let t = pre.spec_tasks()[task_id];
    let init = t.initiator;
    lemma_consistent_member(pre, caller, task_id);
    lemma_swap_removed_facts(pre.spec_owned(caller), task_id);
    let removed = swap_removed(pre.spec_owned(caller), task_id);
    assert(!pre.spec_owned(init).contains(task_id) || init == caller) by {
        if pre.spec_owned(init).contains(task_id) {
            lemma_consistent_member(pre, init, task_id);
        }
    }
    assert forall|a: u64, i: int| 0 <= i < post.spec_owned(a).len() implies {
        &&& post.spec_tasks().contains_key(#[trigger] post.spec_owned(a)[i])
        &&& post.spec_tasks()[post.spec_owned(a)[i]].current_owner == a
    } by {
        let x = post.spec_owned(a)[i];
        if a == init && i == post.spec_owned(init).len() - 1 && x == task_id {
            assert(post.spec_tasks()[task_id].current_owner == init);
        } else {
            if a == init {
                if init == caller {
                    if i < removed.len() {
                        assert(x == removed[i]);
                        assert(removed.contains(x));
                        assert(pre.spec_owned(caller).contains(x) && x != task_id);
                    } else {
                        assert(x == task_id);
                    }
                } else {
                    if i < pre.spec_owned(init).len() {
                        assert(x == pre.spec_owned(init)[i]);
                        assert(pre.spec_owned(init).contains(x));
                        assert(x != task_id);
                    } else {
                        assert(x == task_id);
                    }
                }
            } else if a == caller {
                assert(x == removed[i]);
                assert(removed.contains(x));
                assert(pre.spec_owned(caller).contains(x) && x != task_id);
            } else {
                assert(x == pre.spec_owned(a)[i]);
                assert(pre.spec_owned(a).contains(x));
            }
            if x != task_id {
                let source: u64 = if a == init && init == caller {
                    caller
                } else {
                    a
                };
                lemma_consistent_member(pre, source, x);
                assert(post.spec_tasks()[x] == pre.spec_tasks()[x]);
            } else {
                assert(post.spec_tasks()[task_id].current_owner == init);
            }
        }
    }
    assert forall|id2: u64| #[trigger] post.spec_tasks().contains_key(id2) implies post.spec_owned(
        post.spec_tasks()[id2].current_owner,
    ).contains(id2) by {
        if id2 == task_id {
            let held = post.spec_owned(init);
            assert(held[held.len() - 1] == task_id);
        } else {
            assert(pre.spec_tasks().contains_key(id2));
            let owner = pre.spec_tasks()[id2].current_owner;
            assert(pre.spec_owned(owner).contains(id2));
            if owner == caller {
                assert(removed.contains(id2));
                if init == caller {
                    let held = post.spec_owned(init);
                    let i = choose|i: int| 0 <= i < removed.len() && removed[i] == id2;
                    assert(held[i] == id2);
                } else {
                    assert(post.spec_owned(caller) == removed);
                }
            } else if owner == init {
                let i = choose|i: int|
                    0 <= i < pre.spec_owned(init).len() && pre.spec_owned(init)[i] == id2;
                assert(post.spec_owned(init)[i] == id2);
            } else {
                assert(post.spec_owned(owner) == pre.spec_owned(owner));
            }
        }
    }
    assert forall|a: u64| (#[trigger] post.spec_owned(a)).no_duplicates() by {
        if a == init {
            let base: Seq<u64> = if init == caller {
                removed
            } else {
                pre.spec_owned(init)
            };
            assert(base.no_duplicates());
            assert(!base.contains(task_id));
            let held = post.spec_owned(init);
            assert(held == base.push(task_id));
            assert forall|i: int, j: int|
                0 <= i < held.len() && 0 <= j < held.len() && i != j implies held[i]
                != held[j] by {
                if i < base.len() && j < base.len() {
                    assert(held[i] == base[i]);
                    assert(held[j] == base[j]);
                } else if i == base.len() {
                    assert(held[j] == base[j]);
                    assert(base.contains(held[j]));
                } else {
                    assert(held[i] == base[i]);
                    assert(base.contains(held[i]));
                }
            }
        } else if a == caller {
            assert(post.spec_owned(caller) == removed);
        } else {
            assert(post.spec_owned(a) == pre.spec_owned(a));
        }
    }
}

/// Removing a task preserves the ownership invariant: the record and its
/// single index entry disappear together.
pub proof fn lemma_ownership_after_remove(pre: Pallet, post: Pallet, task_id: u64)
    requires
        pre.ownership_consistent(),
        removed_task(pre, post, task_id),
    ensures
        post.ownership_consistent(),
{
    let holder = pre.spec_tasks()[task_id].current_owner;
    lemma_swap_removed_facts(pre.spec_owned(holder), task_id);
    let removed = swap_removed(pre.spec_owned(holder), task_id);
    assert forall|a: u64, i: int| 0 <= i < post.spec_owned(a).len() implies {
        &&& post.spec_tasks().contains_key(#[trigger] post.spec_owned(a)[i])
        &&& post.spec_tasks()[post.spec_owned(a)[i]].current_owner == a
    } by {
        let x = post.spec_owned(a)[i];
        if a == holder {
            assert(x == removed[i]);
            assert(removed.contains(x));
            assert(pre.spec_owned(holder).contains(x) && x != task_id);
        } else {
            assert(x == pre.spec_owned(a)[i]);
            assert(pre.spec_owned(a).contains(x));
            lemma_consistent_member(pre, a, x);
            assert(x != task_id);
        }
        lemma_consistent_member(pre, a, x);
        assert(post.spec_tasks()[x] == pre.spec_tasks()[x]);
    }
    assert forall|id2: u64| #[trigger] post.spec_tasks().contains_key(id2) implies post.spec_owned(
        post.spec_tasks()[id2].current_owner,
    ).contains(id2) by {
        assert(id2 != task_id);
        assert(pre.spec_tasks().contains_key(id2));
        let owner = pre.spec_tasks()[id2].current_owner;
        assert(pre.spec_owned(owner).contains(id2));
        if owner == holder {
            assert(removed.contains(id2));
        } else {
            assert(post.spec_owned(owner) == pre.spec_owned(owner));
        }
    }
    assert forall|a: u64| (#[trigger] post.spec_owned(a)).no_duplicates() by {
        if a == holder {
            assert(post.spec_owned(holder) == removed);
        } else {
            assert(post.spec_owned(a) == pre.spec_owned(a));
        }
    }
}

/// A task's status only moves forward when it is assigned to a volunteer,
/// provided it is not reopened from `Closed` (starting a closed task is
/// accepted by the store and sets it back to `InProgress`; that is the
/// one step the lifecycle order does not cover). Every other stored task
/// is untouched.
pub proof fn lemma_status_forward_assign(pre: Pallet, post: Pallet, to: u64, task_id: u64)
    requires
        assigned_task(pre, post, to, task_id),
        pre.spec_tasks()[task_id].status != TaskStatus::Closed,
    ensures
        post.spec_tasks()[task_id].status == TaskStatus::InProgress,
        forall|id: u64|
            pre.spec_tasks().contains_key(id) && #[trigger] post.spec_tasks().contains_key(id)
                ==> status_rank(post.spec_tasks()[id].status) >= status_rank(
                pre.spec_tasks()[id].status,
            ),
{
}

/// Completion moves a task from exactly `InProgress` to `Closed`; every
/// other stored task is untouched.
pub proof fn lemma_status_forward_complete(pre: Pallet, post: Pallet, caller: u64, task_id: u64)
    requires
        completed_task(pre, post, caller, task_id),
    ensures
        pre.spec_tasks()[task_id].status == TaskStatus::InProgress,
        post.spec_tasks()[task_id].status == TaskStatus::Closed,
        forall|id: u64|
            pre.spec_tasks().contains_key(id) && #[trigger] post.spec_tasks().contains_key(id)
                ==> status_rank(post.spec_tasks()[id].status) >= status_rank(
                pre.spec_tasks()[id].status,
            ),
{
}

/// A fresh task enters the lifecycle at `Created`; every other stored
/// task is untouched. (As with the ownership invariant, this needs the
/// minted id to be fresh.)
pub proof fn lemma_status_forward_create(
    pre: Pallet,
    post: Pallet,
    initiator: u64,
    requirements: Seq<u8>,
    budget: u64,
    deadline: u64,
)
    requires
        created_task(pre, post, initiator, requirements, budget, deadline),
        !pre.spec_tasks().contains_key(
            spec_task_id_of(initiator, requirements, budget, deadline),
        ),
    ensures
        post.spec_tasks()[spec_task_id_of(initiator, requirements, budget, deadline)].status
            == TaskStatus::Created,
        forall|id: u64|
            pre.spec_tasks().contains_key(id) && #[trigger] post.spec_tasks().contains_key(id)
                ==> post.spec_tasks()[id].status == pre.spec_tasks()[id].status,
{
}

/// Removal is not a status transition: every remaining task keeps its
/// status.
pub proof fn lemma_status_forward_remove(pre: Pallet, post: Pallet, task_id: u64)
    requires
        removed_task(pre, post, task_id),
    ensures
        forall|id: u64|
            #[trigger] post.spec_tasks().contains_key(id) ==> pre.spec_tasks().contains_key(id)
                && post.spec_tasks()[id].status == pre.spec_tasks()[id].status,
{
}

/// Reputation is granted exactly once per completion: one unit to the
/// initiator's profile and one to the completer's (two to the same
/// profile when they coincide), nothing to anyone else. Creation,
/// assignment and removal do not touch the profile store at all: those
/// operations do not even receive it.
pub proof fn lemma_reputation_exactly_once(
    prof_pre: profile::Pallet,
    prof_post: profile::Pallet,
    initiator: u64,
    completer: u64,
)
    requires
        reputation_granted(prof_pre, prof_post, initiator, completer),
        prof_pre.spec_profiles().contains_key(initiator) ==> prof_pre.spec_profiles()[
            initiator
        ].reputation + if initiator == completer {
            2int
        } else {
            1int
        } <= u32::MAX,
        initiator != completer && prof_pre.spec_profiles().contains_key(completer)
            ==> prof_pre.spec_profiles()[completer].reputation < u32::MAX,
    ensures
        initiator != completer ==> {
            &&& prof_post.spec_reputation(initiator) == prof_pre.spec_reputation(initiator)
                + if prof_pre.spec_profiles().contains_key(initiator) {
                1int
            } else {
                0int
            }
            &&& prof_post.spec_reputation(completer) == prof_pre.spec_reputation(completer)
                + if prof_pre.spec_profiles().contains_key(completer) {
                1int
            } else {
                0int
            }
        },
        initiator == completer ==> prof_post.spec_reputation(initiator)
            == prof_pre.spec_reputation(initiator) + if prof_pre.spec_profiles().contains_key(
            initiator,
        ) {
            2int
        } else {
            0int
        },
        forall|a: u64|
            a != initiator && a != completer ==> #[trigger] prof_post.spec_reputation(a)
                == prof_pre.spec_reputation(a),
{
    assert forall|a: u64|
        a != initiator && a != completer implies #[trigger] prof_post.spec_reputation(a)
        == prof_pre.spec_reputation(a) by {
        if prof_pre.spec_profiles().contains_key(a) {
            assert(prof_post.spec_profiles()[a] == prof_pre.spec_profiles()[a]);
        }
    }
}

/// A closed task cannot be completed again: completion demands the
/// `InProgress` status, so no second reputation grant can come from the
/// same task unless it is first reopened by a start request.
pub proof fn lemma_closed_not_completable(pre: Pallet, post: Pallet, caller: u64, task_id: u64)
    requires
        pre.spec_tasks().contains_key(task_id),
        pre.spec_tasks()[task_id].status == TaskStatus::Closed,
    ensures
        !completed_task(pre, post, caller, task_id),
{
}

} // verus!
