use taskdao::ledger::Ledger;
use taskdao::profile;
use taskdao::task::{Error, Event, Pallet, TaskStatus};

const DEADLINE: u64 = 77;

fn task_env() -> (Pallet, profile::Pallet, Ledger) {
    let mut ledger = Ledger::new(1);
    ledger.set_balance(1, 1000);
    ledger.set_balance(2, 1000);
    ledger.set_balance(10, 1000);
    (Pallet::new(77), profile::Pallet::new(), ledger)
}

#[test]
fn create_new_task() {
    let (mut task, mut profile, ledger) = task_env();

    // A profile is customary before task creation
    assert!(profile.create_profile(&ledger, 1, Vec::new()).is_ok());

    let mut vec = Vec::new();
    vec.push(2);

    // Ensure a new task can be created with [signer, requirements vector, budget, deadline]
    assert!(task.create_task(1, vec, 7, DEADLINE).is_ok());
}

#[test]
fn increase_task_count_when_creating_task() {
    let (mut task, mut profile, ledger) = task_env();

    assert!(profile.create_profile(&ledger, 1, Vec::new()).is_ok());

    let mut vec = Vec::new();
    vec.push(2);

    assert!(task.create_task(1, vec, 7, DEADLINE).is_ok());

    // Assert that the count is incremented by 1 after task creation
    assert_eq!(task.task_count(), 1);
}

#[test]
fn increase_task_count_when_creating_two_tasks() {
    let (mut task, mut profile, ledger) = task_env();

    assert!(profile.create_profile(&ledger, 1, Vec::new()).is_ok());

    let mut vec1 = Vec::new();
    vec1.push(2);

    let mut vec2 = Vec::new();
    vec2.push(7);

    assert!(task.create_task(1, vec1, 7, DEADLINE).is_ok());
    assert!(task.create_task(1, vec2, 99, DEADLINE).is_ok());

    // Assert that the count is incremented to 2 after task creation
    assert_eq!(task.task_count(), 2);
}

#[test]
fn cant_own_more_tax_than_max_tasks() {
    let (mut task, mut profile, ledger) = task_env();

    assert!(profile.create_profile(&ledger, 1, Vec::new()).is_ok());

    // Create 77 tasks, filling the ownership index entry to its bound
    for n in 0..77 {
        let mut vec1 = Vec::new();
        vec1.push(n);

        assert!(task.create_task(1, vec1, 7, DEADLINE).is_ok());
    }

    assert_eq!(task.task_count(), 77);

    let mut vec2 = Vec::new();
    vec2.push(7);

    // Assert that creating one more task is rejected and changes nothing
    assert_eq!(
        task.create_task(1, vec2, 7, DEADLINE),
        Err(Error::ExceedMaxTasksOwned)
    );
    assert_eq!(task.task_count(), 77);
    assert_eq!(task.tasks_owned(1).len(), 77);
}

#[test]
fn assign_task_to_current_owner() {
    let (mut task, mut profile, ledger) = task_env();

    assert!(profile.create_profile(&ledger, 10, Vec::new()).is_ok());

    let mut vec1 = Vec::new();
    vec1.push(2);

    assert!(task.create_task(10, vec1, 7, DEADLINE).is_ok());

    // Get the task through its hash
    let hash = task.tasks_owned(10)[0];
    let stored = task.tasks(hash).expect("should found the task");

    assert_eq!(stored.current_owner, 10);
}

#[test]
fn verify_inputs_outputs_to_tasks() {
    let (mut task, mut profile, ledger) = task_env();

    assert!(profile.create_profile(&ledger, 10, Vec::new()).is_ok());

    let mut vec1 = Vec::new();
    vec1.push(2);

    assert!(task.create_task(10, vec1, 7, DEADLINE).is_ok());

    // Get the task through its hash
    let hash = task.tasks_owned(10)[0];
    let stored = task.tasks(hash).expect("should found the task");

    // Ensure that task properties are assigned correctly
    assert_eq!(stored.current_owner, 10);
    assert_eq!(stored.budget, 7);
}

#[test]
fn start_tasks_assigns_new_current_owner() {
    let (mut task, mut profile, mut ledger) = task_env();

    assert!(profile.create_profile(&ledger, 1, Vec::new()).is_ok());
    assert!(profile.create_profile(&ledger, 2, Vec::new()).is_ok());

    let mut vec1 = Vec::new();
    vec1.push(2);

    assert!(task.create_task(1, vec1, 7, DEADLINE).is_ok());

    // Ensure the new task is held by its creator (user 1)
    let hash = task.tasks_owned(1)[0];
    let stored = task.tasks(hash).expect("should found the task");
    assert_eq!(stored.current_owner, 1);
    assert_eq!(task.tasks_owned(1).len(), 1);

    // Ensure the task is started by the new current owner (user 2)
    assert!(task.start_task(&mut ledger, 2, hash).is_ok());

    // Ensure that when the task is started user 1 holds 0 tasks and user 2 holds 1
    assert_eq!(task.tasks_owned(1).len(), 0);
    assert_eq!(task.tasks_owned(2).len(), 1);
}

#[test]
fn start_tasks_assigns_task_to_volunteer() {
    let (mut task, mut profile, mut ledger) = task_env();

    assert!(profile.create_profile(&ledger, 1, Vec::new()).is_ok());

    let mut vec1 = Vec::new();
    vec1.push(2);

    assert!(task.create_task(1, vec1, 7, DEADLINE).is_ok());

    // Ensure the new task is held by its creator (user 1)
    let hash = task.tasks_owned(1)[0];
    let stored = task.tasks(hash).expect("should found the task");
    assert_eq!(stored.current_owner, 1);
    assert_eq!(task.tasks_owned(1).len(), 1);

    // Ensure the task is started by the new current owner (user 2)
    assert!(task.start_task(&mut ledger, 2, hash).is_ok());

    // The snapshot taken at creation still shows the creator as volunteer
    assert_eq!(stored.volunteer, 1);
    assert_eq!(task.tasks_owned(2).len(), 1);
    assert_eq!(task.tasks_owned(1).len(), 0);
}

#[test]
fn completing_tasks_assigns_new_current_owner() {
    let (mut task, mut profile, mut ledger) = task_env();

    assert!(profile.create_profile(&ledger, 1, Vec::new()).is_ok());

    let mut vec1 = Vec::new();
    vec1.push(2);

    assert!(task.create_task(1, vec1, 7, DEADLINE).is_ok());

    // Ensure the new task is held by its creator (user 1)
    let hash = task.tasks_owned(1)[0];
    let stored = task.tasks(hash).expect("should found the task");
    assert_eq!(stored.current_owner, 1);
    assert_eq!(task.tasks_owned(1).len(), 1);

    // Ensure the task is started by the new current owner (user 2)
    assert!(task.start_task(&mut ledger, 2, hash).is_ok());

    // Ensure that when the task is started user 1 holds 0 tasks and user 2 holds 1
    assert_eq!(task.tasks_owned(1).len(), 0);
    assert_eq!(task.tasks_owned(2).len(), 1);

    // Ensure the task is completed by the current owner (user 2)
    assert!(task.complete_task(&mut profile, 2, hash).is_ok());

    // The snapshot taken at creation still shows the creator as owner,
    // and the holding is reversed again
    assert_eq!(stored.current_owner, 1);
    assert_eq!(task.tasks_owned(1).len(), 1);
    assert_eq!(task.tasks_owned(2).len(), 0);
}

#[test]
fn only_creator_deletes_task() {
    let (mut task, mut profile, mut ledger) = task_env();

    assert!(profile.create_profile(&ledger, 1, Vec::new()).is_ok());
    assert!(profile.create_profile(&ledger, 2, Vec::new()).is_ok());

    let mut vec1 = Vec::new();
    vec1.push(2);

    assert!(task.create_task(1, vec1, 7, DEADLINE).is_ok());

    // Ensure the new task is held by its creator (user 1)
    let hash = task.tasks_owned(1)[0];
    let stored = task.tasks(hash).expect("should found the task");
    assert_eq!(stored.current_owner, 1);
    assert_eq!(task.tasks_owned(1).len(), 1);

    // Ensure the task is started by the new current owner (user 2)
    assert!(task.start_task(&mut ledger, 2, hash).is_ok());

    assert_eq!(task.tasks_owned(1).len(), 0);
    assert_eq!(task.tasks_owned(2).len(), 1);

    // Ensure the task is completed by the current owner (user 2)
    assert!(task.complete_task(&mut profile, 2, hash).is_ok());

    assert_eq!(task.tasks_owned(1).len(), 1);
    assert_eq!(task.tasks_owned(2).len(), 0);

    // Ensure the task can only be removed by its creator (user 1)
    assert_eq!(task.remove_task(2, hash), Err(Error::OnlyInitiatorClosesTask));
    assert!(task.remove_task(1, hash).is_ok());
}

#[test]
fn only_started_task_can_be_completed() {
    let (mut task, mut profile, mut ledger) = task_env();

    assert!(profile.create_profile(&ledger, 1, Vec::new()).is_ok());
    assert!(profile.create_profile(&ledger, 2, Vec::new()).is_ok());

    let mut vec1 = Vec::new();
    vec1.push(2);

    assert!(task.create_task(1, vec1, 7, DEADLINE).is_ok());

    // Ensure the new task is held by its creator (user 1)
    let hash = task.tasks_owned(1)[0];
    let stored = task.tasks(hash).expect("should found the task");
    assert_eq!(stored.current_owner, 1);
    assert_eq!(task.tasks_owned(1).len(), 1);

    assert_eq!(
        task.complete_task(&mut profile, 2, hash),
        Err(Error::NoPermissionToComplete)
    );

    // Ensure the task is started by the new current owner (user 2)
    assert!(task.start_task(&mut ledger, 2, hash).is_ok());

    // Ensure the task is completed by the current owner (user 2)
    assert!(task.complete_task(&mut profile, 2, hash).is_ok());
}

#[test]
fn when_task_is_removed_ownership_is_cleared() {
    let (mut task, mut profile, mut ledger) = task_env();

    assert!(profile.create_profile(&ledger, 1, Vec::new()).is_ok());
    assert!(profile.create_profile(&ledger, 2, Vec::new()).is_ok());

    let mut vec1 = Vec::new();
    vec1.push(2);

    assert!(task.create_task(1, vec1, 7, DEADLINE).is_ok());

    // Ensure the new task is held by its creator (user 1)
    let hash = task.tasks_owned(1)[0];
    let stored = task.tasks(hash).expect("should found the task");
    assert_eq!(stored.current_owner, 1);
    assert_eq!(task.tasks_owned(1).len(), 1);

    // Ensure the task is started by the new current owner (user 2)
    assert!(task.start_task(&mut ledger, 2, hash).is_ok());

    assert_eq!(task.tasks_owned(1).len(), 0);
    assert_eq!(task.tasks_owned(2).len(), 1);

    // Ensure the task is completed by the current owner (user 2)
    assert!(task.complete_task(&mut profile, 2, hash).is_ok());

    assert_eq!(task.tasks_owned(1).len(), 1);
    assert_eq!(task.tasks_owned(2).len(), 0);

    // Ensure the task is removed by its creator (user 1)
    assert!(task.remove_task(1, hash).is_ok());

    // Ensure ownership of the task is cleared
    assert_eq!(task.tasks_owned(1).len(), 0);
    assert_eq!(task.tasks_owned(2).len(), 0);
}

#[test]
fn decrease_task_count_when_removing_task() {
    let (mut task, mut profile, ledger) = task_env();

    assert!(profile.create_profile(&ledger, 1, Vec::new()).is_ok());

    let mut vec = Vec::new();
    vec.push(2);

    assert!(task.create_task(1, vec, 8, DEADLINE).is_ok());

    // Get the hash of the owned task
    let hash = task.tasks_owned(1)[0];
    let _stored = task.tasks(hash).expect("should found the task");

    // Removing the task decreases the count
    assert!(task.remove_task(1, hash).is_ok());
    assert_eq!(task.task_count(), 0);
}

#[test]
fn increase_profile_reputation_when_task_completed() {
    let (mut task, mut profile, mut ledger) = task_env();

    assert!(profile.create_profile(&ledger, 1, Vec::new()).is_ok());
    assert!(profile.create_profile(&ledger, 2, Vec::new()).is_ok());

    let mut vec1 = Vec::new();
    vec1.push(2);

    assert!(task.create_task(1, vec1, 7, DEADLINE).is_ok());

    // Ensure the new task is held by its creator (user 1)
    let hash = task.tasks_owned(1)[0];
    let stored = task.tasks(hash).expect("should found the task");
    assert_eq!(stored.current_owner, 1);

    // Ensure the task is started by the new current owner (user 2)
    assert!(task.start_task(&mut ledger, 2, hash).is_ok());

    // Ensure the task is completed by the current owner (user 2)
    assert!(task.complete_task(&mut profile, 2, hash).is_ok());

    // Ensure the task is removed by its creator (user 1)
    assert!(task.remove_task(1, hash).is_ok());

    let profile1 = profile.profiles(1).expect("should find the profile");
    let profile2 = profile.profiles(2).expect("should find the profile");

    // Ensure that the reputation has been added to both profiles
    assert_eq!(profile1.reputation, 1);
    assert_eq!(profile2.reputation, 1);
}

#[test]
fn only_add_reputation_when_task_has_been_completed() {
    let (mut task, mut profile, ledger) = task_env();

    assert!(profile.create_profile(&ledger, 1, Vec::new()).is_ok());

    let mut vec = Vec::new();
    vec.push(2);

    assert!(task.create_task(1, vec, 8, DEADLINE).is_ok());

    // Get the hash of the owned task
    let hash = task.tasks_owned(1)[0];
    let _stored = task.tasks(hash).expect("should found the task");

    // Removing the task decreases the count
    assert!(task.remove_task(1, hash).is_ok());
    assert_eq!(task.task_count(), 0);

    // Reputation should remain 0 since the task was removed without being completed
    let stored_profile = profile.profiles(1).expect("should find the profile");
    assert_eq!(stored_profile.reputation, 0);
}

#[test]
fn start_task_fails_without_enough_balance() {
    let (mut task, mut profile, mut ledger) = task_env();

    assert!(profile.create_profile(&ledger, 1, Vec::new()).is_ok());
    assert!(task.create_task(1, vec![2], 7, DEADLINE).is_ok());
    let hash = task.tasks_owned(1)[0];

    // Account 3 has no balance, so it cannot fund the budget
    assert_eq!(
        task.start_task(&mut ledger, 3, hash),
        Err(Error::NotEnoughBalance)
    );

    // Nothing changed: the creator still holds the task
    assert_eq!(task.tasks_owned(1).len(), 1);
    assert_eq!(task.tasks_owned(3).len(), 0);
    let stored = task.tasks(hash).expect("should found the task");
    assert_eq!(stored.status, TaskStatus::Created);
}

#[test]
fn start_task_transfers_budget_to_initiator() {
    let (mut task, mut profile, mut ledger) = task_env();

    assert!(profile.create_profile(&ledger, 1, Vec::new()).is_ok());
    assert!(task.create_task(1, vec![2], 7, DEADLINE).is_ok());
    let hash = task.tasks_owned(1)[0];

    assert!(task.start_task(&mut ledger, 2, hash).is_ok());

    // The volunteer paid the budget to the initiator
    assert_eq!(ledger.free_balance(2), 993);
    assert_eq!(ledger.free_balance(1), 1007);
}

#[test]
fn task_operations_on_missing_task_fail() {
    let (mut task, mut profile, mut ledger) = task_env();

    assert_eq!(
        task.start_task(&mut ledger, 1, 12345),
        Err(Error::TaskNotExist)
    );
    assert_eq!(
        task.complete_task(&mut profile, 1, 12345),
        Err(Error::TaskNotExist)
    );
    assert_eq!(task.remove_task(1, 12345), Err(Error::TaskNotExist));
    assert_eq!(task.is_task_initiator(12345, 1), Err(Error::TaskNotExist));
}

#[test]
fn task_status_moves_forward_through_the_lifecycle() {
    let (mut task, mut profile, mut ledger) = task_env();

    assert!(profile.create_profile(&ledger, 1, Vec::new()).is_ok());
    assert!(task.create_task(1, vec![2], 7, DEADLINE).is_ok());
    let hash = task.tasks_owned(1)[0];

    assert_eq!(
        task.tasks(hash).expect("should found the task").status,
        TaskStatus::Created
    );

    assert!(task.start_task(&mut ledger, 2, hash).is_ok());
    assert_eq!(
        task.tasks(hash).expect("should found the task").status,
        TaskStatus::InProgress
    );

    assert!(task.complete_task(&mut profile, 2, hash).is_ok());
    assert_eq!(
        task.tasks(hash).expect("should found the task").status,
        TaskStatus::Closed
    );

    // A closed task cannot be completed again
    assert_eq!(
        task.complete_task(&mut profile, 2, hash),
        Err(Error::NoPermissionToComplete)
    );
}

#[test]
fn each_task_is_held_by_exactly_one_account() {
    let (mut task, mut profile, mut ledger) = task_env();

    assert!(profile.create_profile(&ledger, 1, Vec::new()).is_ok());
    assert!(task.create_task(1, vec![2], 7, DEADLINE).is_ok());
    assert!(task.create_task(1, vec![3], 9, DEADLINE).is_ok());
    let first = task.tasks_owned(1)[0];

    assert!(task.start_task(&mut ledger, 2, first).is_ok());

    // Each of the two ids appears exactly once over all index entries,
    // under its task's current owner
    for account in 0u64..12 {
        let held = task.tasks_owned(account);
        for id in held.iter() {
            let stored = task.tasks(*id).expect("should found the task");
            assert_eq!(stored.current_owner, account);
        }
        for i in 0..held.len() {
            for j in 0..held.len() {
                if i != j {
                    assert_ne!(held[i], held[j]);
                }
            }
        }
    }
    assert_eq!(task.tasks_owned(1).len(), 1);
    assert_eq!(task.tasks_owned(2).len(), 1);
}

#[test]
fn task_events_record_each_successful_request() {
    let (mut task, mut profile, mut ledger) = task_env();

    assert!(profile.create_profile(&ledger, 1, Vec::new()).is_ok());
    assert!(task.create_task(1, vec![2], 7, DEADLINE).is_ok());
    let hash = task.tasks_owned(1)[0];

    // A failed request records nothing
    assert!(task.remove_task(2, hash).is_err());
    assert_eq!(task.events().len(), 1);

    assert!(task.start_task(&mut ledger, 2, hash).is_ok());
    assert!(task.complete_task(&mut profile, 2, hash).is_ok());
    assert!(task.remove_task(1, hash).is_ok());

    assert_eq!(
        task.events().as_slice(),
        &[
            Event::TaskCreated(1, hash),
            Event::TaskAssigned(2, hash),
            Event::TaskCompleted(2, hash),
            Event::TaskRemoved(1, hash),
        ]
    );
}

#[test]
fn task_id_mixes_creation_fields() {
    // One exact value of the identifier fold: the initiator, budget,
    // deadline, requirement length and requirement bytes enter in turn
    assert_eq!(taskdao::task_id_of(1, &vec![2], 7, 77), 16884447121178849963);
}
