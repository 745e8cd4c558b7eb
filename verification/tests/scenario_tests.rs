use taskdao::dao;
use taskdao::ledger::Ledger;
use taskdao::profile;
use taskdao::task;

#[test]
fn scenario_task_lifecycle() {
    let mut ledger = Ledger::new(1);
    ledger.set_balance(1, 100);
    ledger.set_balance(2, 100);
    let mut profiles = profile::Pallet::new();
    let mut tasks = task::Pallet::new(77);

    // Account 1 creates a profile, then a task with budget 7
    assert!(profiles.create_profile(&ledger, 1, Vec::new()).is_ok());
    assert!(tasks.create_task(1, vec![2], 7, 77).is_ok());
    assert_eq!(tasks.task_count(), 1);
    assert_eq!(tasks.tasks_owned(1).len(), 1);
    let id = tasks.tasks_owned(1)[0];

    // Account 2 creates a profile and starts the task
    assert!(profiles.create_profile(&ledger, 2, Vec::new()).is_ok());
    assert!(tasks.start_task(&mut ledger, 2, id).is_ok());
    assert_eq!(tasks.tasks_owned(1).len(), 0);
    assert_eq!(tasks.tasks_owned(2).len(), 1);
    assert_eq!(tasks.tasks(id).expect("should found the task").current_owner, 2);

    // Account 2 completes the task
    assert!(tasks.complete_task(&mut profiles, 2, id).is_ok());
    assert_eq!(tasks.tasks_owned(1).len(), 1);
    assert_eq!(tasks.tasks_owned(2).len(), 0);
    assert_eq!(profiles.profiles(1).expect("should find the profile").reputation, 1);
    assert_eq!(profiles.profiles(2).expect("should find the profile").reputation, 1);

    // Account 1 removes the task
    assert!(tasks.remove_task(1, id).is_ok());
    assert_eq!(tasks.task_count(), 0);
    assert_eq!(tasks.tasks_owned(1).len(), 0);
}

#[test]
fn scenario_capacity() {
    let ledger = Ledger::new(1);
    let mut profiles = profile::Pallet::new();
    let mut tasks = task::Pallet::new(77);

    assert!(profiles.create_profile(&ledger, 1, Vec::new()).is_ok());

    // Account 1 creates 77 tasks, with distinguishing requirement bytes
    for n in 0u8..77 {
        assert!(tasks.create_task(1, vec![n], 7, 77).is_ok());
    }
    assert_eq!(tasks.task_count(), 77);

    // The 78th creation is rejected and the count is unchanged
    assert_eq!(
        tasks.create_task(1, vec![78], 7, 77),
        Err(task::Error::ExceedMaxTasksOwned)
    );
    assert_eq!(tasks.task_count(), 77);
}

#[test]
fn scenario_organization() {
    let mut orgs = dao::Pallet::new();
    let name = b"X".to_vec();

    // Account 1 creates the organization
    assert!(orgs.create_organization(1, name.clone()).is_ok());
    assert_eq!(orgs.organization(&name).len(), 1);

    // Account 2 cannot dissolve it
    assert_eq!(
        orgs.dissolve_organization(2, name.clone()),
        Err(dao::Error::NotOrganizationCreator)
    );

    // Account 1 dissolves it; the lookup then returns an empty list
    assert!(orgs.dissolve_organization(1, name.clone()).is_ok());
    assert_eq!(orgs.organization(&name), Vec::<u64>::new());
}

#[test]
fn scenario_vision_sign_unsign() {
    let mut orgs = dao::Pallet::new();
    let document = vec![7u8];

    // Account 1 creates and signs the vision
    assert!(orgs.create_vision(1, document.clone(), 1).is_ok());
    assert!(orgs.sign_vision(1, document.clone()).is_ok());
    assert!(orgs.vision_signer(&document).contains(&1));

    // Account 1 unsigns; the signer list no longer holds it
    assert!(orgs.unsign_vision(1, document.clone()).is_ok());
    assert!(!orgs.vision_signer(&document).contains(&1));

    // Unsigning again is rejected
    assert_eq!(
        orgs.unsign_vision(1, document.clone()),
        Err(dao::Error::NotSigned)
    );
}

#[test]
fn transfer_keeps_the_payer_alive() {
    let mut ledger = Ledger::new(5);
    ledger.set_balance(1, 10);
    ledger.set_balance(2, 3);

    // Moving 7 would leave the payer below the existential deposit
    assert!(!ledger.transfer_keep_alive(1, 2, 7));
    assert_eq!(ledger.free_balance(1), 10);
    assert_eq!(ledger.free_balance(2), 3);

    // Moving 5 keeps the payer exactly at the deposit
    assert!(ledger.transfer_keep_alive(1, 2, 5));
    assert_eq!(ledger.free_balance(1), 5);
    assert_eq!(ledger.free_balance(2), 8);
}

#[test]
fn removing_a_task_never_grants_reputation() {
    let mut ledger = Ledger::new(1);
    ledger.set_balance(1, 100);
    ledger.set_balance(2, 100);
    let mut profiles = profile::Pallet::new();
    let mut tasks = task::Pallet::new(77);

    assert!(profiles.create_profile(&ledger, 1, Vec::new()).is_ok());
    assert!(profiles.create_profile(&ledger, 2, Vec::new()).is_ok());
    assert!(tasks.create_task(1, vec![2], 7, 77).is_ok());
    let id = tasks.tasks_owned(1)[0];

    // Start the task: no reputation yet
    assert!(tasks.start_task(&mut ledger, 2, id).is_ok());
    assert_eq!(profiles.profiles(1).expect("should find the profile").reputation, 0);
    assert_eq!(profiles.profiles(2).expect("should find the profile").reputation, 0);

    // Complete and remove: reputation is granted once, at completion
    assert!(tasks.complete_task(&mut profiles, 2, id).is_ok());
    assert!(tasks.remove_task(1, id).is_ok());
    assert_eq!(profiles.profiles(1).expect("should find the profile").reputation, 1);
    assert_eq!(profiles.profiles(2).expect("should find the profile").reputation, 1);
}

#[test]
fn removing_an_in_progress_task_clears_the_holder() {
    let mut ledger = Ledger::new(1);
    ledger.set_balance(1, 100);
    ledger.set_balance(2, 100);
    let mut profiles = profile::Pallet::new();
    let mut tasks = task::Pallet::new(77);

    assert!(profiles.create_profile(&ledger, 1, Vec::new()).is_ok());
    assert!(tasks.create_task(1, vec![2], 7, 77).is_ok());
    let id = tasks.tasks_owned(1)[0];
    assert!(tasks.start_task(&mut ledger, 2, id).is_ok());

    // The initiator removes the task while the volunteer holds it: the id
    // leaves the current holder's index entry
    assert!(tasks.remove_task(1, id).is_ok());
    assert_eq!(tasks.tasks_owned(1).len(), 0);
    assert_eq!(tasks.tasks_owned(2).len(), 0);
    assert_eq!(tasks.task_count(), 0);
    assert!(tasks.tasks(id).is_none());
}

#[test]
fn creating_an_organization_under_a_taken_name_appends() {
    let mut orgs = dao::Pallet::new();
    let name = b"X".to_vec();

    // There is no duplicate-name check: a second creation under the same
    // name appends its caller, and the founder stays at position zero
    assert!(orgs.create_organization(1, name.clone()).is_ok());
    assert!(orgs.create_organization(2, name.clone()).is_ok());
    assert_eq!(orgs.organization(&name), vec![1, 2]);
    assert_eq!(
        orgs.dissolve_organization(2, name.clone()),
        Err(dao::Error::NotOrganizationCreator)
    );
}

#[test]
fn dao_events_record_each_successful_request() {
    let mut orgs = dao::Pallet::new();
    let name = b"X".to_vec();

    assert!(orgs.create_organization(1, name.clone()).is_ok());
    assert!(orgs.add_members(1, name.clone(), 4).is_ok());
    assert!(orgs.add_members(2, name.clone(), 5).is_err());

    // A failed request records nothing
    assert_eq!(
        orgs.events().as_slice(),
        &[
            dao::Event::OrganizationCreated(1, name.clone()),
            dao::Event::MemberAdded(1, 4),
        ]
    );
}

#[test]
fn profile_events_record_each_successful_request() {
    let ledger = Ledger::new(1);
    let mut profiles = profile::Pallet::new();

    assert!(profiles.create_profile(&ledger, 1, Vec::new()).is_ok());
    assert!(profiles.create_profile(&ledger, 1, Vec::new()).is_err());
    assert!(profiles.remove_profile(1).is_ok());

    let events = profiles.events();
    assert_eq!(events.len(), 2);
    assert!(matches!(events[0], profile::Event::ProfileCreated(1, _)));
    assert_eq!(events[1], profile::Event::ProfileDeleted(1));
}
