use taskdao::ledger::Ledger;
use taskdao::profile::{Error, Pallet};

fn profile_env() -> (Pallet, Ledger) {
    let mut ledger = Ledger::new(1);
    ledger.set_balance(1, 1000);
    ledger.set_balance(2, 1000);
    ledger.set_balance(10, 1000);
    (Pallet::new(), ledger)
}

#[test]
fn create_profile_works() {
    let (mut profiles, ledger) = profile_env();
    let mut vec = Vec::new();
    vec.push(7);

    // Ensure the user can create a profile
    assert!(profiles.create_profile(&ledger, 1, vec).is_ok());
}

#[test]
fn verify_inputs_outputs_to_profile() {
    let (mut profiles, ledger) = profile_env();
    const INTERESTS: &[u8] = &[7];

    // Create a profile
    assert!(profiles.create_profile(&ledger, 10, INTERESTS.to_vec()).is_ok());

    // Get the profile for the current account
    let profile = profiles.profiles(10).expect("should found the profile");

    // Ensure that profile properties are assigned correctly
    assert_eq!(profile.owner, 10);
    assert_eq!(profile.reputation, 0);
    assert_eq!(profile.interests, &[7]);
}

#[test]
fn create_profile_increases_profile_count() {
    let (mut profiles, ledger) = profile_env();
    let mut vec = Vec::new();
    vec.push(7);

    // Ensure the user can create a profile
    assert!(profiles.create_profile(&ledger, 1, vec).is_ok());

    // Ensure the count has increased
    assert_eq!(profiles.profile_count(), 1);
}

#[test]
fn only_one_profile_per_account_allowed() {
    let (mut profiles, ledger) = profile_env();
    let mut vec = Vec::new();
    vec.push(7);

    // Ensure the user can create a profile
    assert!(profiles.create_profile(&ledger, 1, vec).is_ok());

    let mut vec = Vec::new();
    vec.push(7);

    assert_eq!(
        profiles.create_profile(&ledger, 1, vec),
        Err(Error::ProfileAlreadyCreated)
    );
}

#[test]
fn delete_profile_works() {
    let (mut profiles, ledger) = profile_env();
    let mut vec = Vec::new();
    vec.push(7);

    // Ensure the user can create a profile
    assert!(profiles.create_profile(&ledger, 1, vec).is_ok());

    // Ensure the user can delete their profile
    assert!(profiles.remove_profile(1).is_ok());
}

#[test]
fn delete_profile_decreases_profile_count() {
    let (mut profiles, ledger) = profile_env();
    let mut vec = Vec::new();
    vec.push(7);

    // Ensure the user can create a profile
    assert!(profiles.create_profile(&ledger, 1, vec).is_ok());

    // Ensure the user can delete their profile
    assert!(profiles.remove_profile(1).is_ok());

    // Ensure the count is reduced when removing the profile
    assert_eq!(profiles.profile_count(), 0);
}

#[test]
fn user_can_only_delete_own_profile() {
    let (mut profiles, ledger) = profile_env();
    let mut vec = Vec::new();
    vec.push(7);

    // Ensure the user can create a profile
    assert!(profiles.create_profile(&ledger, 1, vec).is_ok());

    // Ensure another user can NOT delete someone else's profile
    assert_eq!(profiles.remove_profile(2), Err(Error::NoDeletionAuthority));

    // Ensure the count is NOT reduced
    assert_eq!(profiles.profile_count(), 1);
}

#[test]
fn user_can_update_profile() {
    let (mut profiles, ledger) = profile_env();
    let mut vec = Vec::new();
    vec.push(7);

    // Ensure the user can create a profile
    assert!(profiles.create_profile(&ledger, 1, vec).is_ok());

    let mut vec2 = Vec::new();
    vec2.push(99);

    // Ensure the user can update the profile with new interests
    assert!(profiles.update_profile(&ledger, 1, vec2).is_ok());

    // Ensure the count is unchanged by the update
    assert_eq!(profiles.profile_count(), 1);
}

#[test]
fn user_can_only_update_own_profile() {
    let (mut profiles, ledger) = profile_env();
    let mut vec = Vec::new();
    vec.push(7);

    // Ensure the user can create a profile
    assert!(profiles.create_profile(&ledger, 1, vec).is_ok());

    let mut vec2 = Vec::new();
    vec2.push(99);

    // Ensure another user can NOT update someone else's profile
    assert_eq!(
        profiles.update_profile(&ledger, 2, vec2),
        Err(Error::NoUpdateAuthority)
    );
}

#[test]
fn update_replaces_interests_and_keeps_reputation() {
    let (mut profiles, ledger) = profile_env();
    assert!(profiles.create_profile(&ledger, 1, vec![7]).is_ok());
    assert!(profiles.update_profile(&ledger, 1, vec![99]).is_ok());

    let profile = profiles.profiles(1).expect("should found the profile");
    assert_eq!(profile.interests, &[99]);
    assert_eq!(profile.reputation, 0);
    assert_eq!(profile.balance, Some(1000));
}

#[test]
fn profile_methods_change_single_fields() {
    let (mut profiles, ledger) = profile_env();
    assert!(profiles.create_profile(&ledger, 1, vec![7]).is_ok());

    let mut profile = profiles.profiles(1).expect("should found the profile");
    profile.change_interests(vec![5]);
    assert_eq!(profile.interests, &[5]);
    assert_eq!(profile.reputation, 0);

    profile.change_reputation();
    assert_eq!(profile.reputation, 1);
    assert_eq!(profile.owner, 1);
}

#[test]
fn update_without_profile_changes_nothing() {
    let (mut profiles, ledger) = profile_env();
    assert_eq!(
        profiles.update_profile(&ledger, 3, vec![1]),
        Err(Error::NoUpdateAuthority)
    );
    assert_eq!(profiles.profile_count(), 0);
    assert!(profiles.profiles(3).is_none());
    assert!(profiles.events().is_empty());
}
