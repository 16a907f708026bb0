use gitpm::commands::{
    add_custom_profile, add_service_profile, first_valid_choice, has_identity, is_yes,
    parse_choice, plan_switch, profile_file_name, remove_all_profiles, remove_profile,
    service_prefix, switch_apply, switch_start, version_string, GitAction, RemoveOutcome,
    SwitchStart,
};
use gitpm::profile::Profile;
use gitpm::store::ProfileStore;

fn profile(pn: &str, name: &str, email: &str, remote: &str) -> Profile {
    Profile::new(pn.to_string(), name.to_string(), email.to_string(), remote.to_string())
}

#[test]
fn version_is_fixed() {
    assert_eq!(version_string(), "0.1.0");
    assert_eq!(profile_file_name(), "profiles.json");
}

#[test]
fn service_prefix_cases() {
    assert_eq!(service_prefix("1"), Some("GitHub"));
    assert_eq!(service_prefix("2"), Some("GitLab"));
    assert_eq!(service_prefix("3"), None);
    assert_eq!(service_prefix(""), None);
    assert_eq!(service_prefix("12"), None);
    assert_eq!(service_prefix("work"), None);
}

#[test]
fn add_service_profile_github_alice() {
    let mut store = ProfileStore::new();
    add_service_profile(
        &mut store,
        "GitHub",
        "alice".to_string(),
        "alice@x.com".to_string(),
        "".to_string(),
    );
    assert_eq!(store.len(), 1);
    let p = store.get("GitHub_alice").expect("the service key must be present");
    assert_eq!(p.profile_name, "GitHub_alice");
    assert_eq!(p.name, "alice");
    assert_eq!(p.email, "alice@x.com");
}

#[test]
fn add_overwrites_existing_key_silently() {
    let mut store = ProfileStore::new();
    add_service_profile(&mut store, "GitHub", "alice".to_string(), "old@x".to_string(), "".to_string());
    add_service_profile(&mut store, "GitHub", "alice".to_string(), "new@x".to_string(), "".to_string());
    assert_eq!(store.len(), 1);
    assert_eq!(store.get("GitHub_alice").unwrap().email, "new@x");
}

#[test]
fn add_custom_profile_work() {
    let mut store = ProfileStore::new();
    add_custom_profile(
        &mut store,
        "work".to_string(),
        "Wanda".to_string(),
        "w@x.com".to_string(),
        "https://x/w.git".to_string(),
    );
    assert_eq!(store.len(), 1);
    let p = store.get("work").expect("the custom key must be present");
    assert_eq!(p.profile_name, "work");
    assert_eq!(p.name, "Wanda");
}

#[test]
fn add_keeps_other_entries() {
    let mut store = ProfileStore::new();
    add_custom_profile(&mut store, "one".to_string(), "A".to_string(), "a@x".to_string(), "".to_string());
    add_custom_profile(&mut store, "two".to_string(), "B".to_string(), "b@x".to_string(), "".to_string());
    assert_eq!(store.len(), 2);
    assert_eq!(store.get("one").unwrap().name, "A");
    assert_eq!(store.get("two").unwrap().name, "B");
}

#[test]
fn switch_on_empty_store_plans_nothing() {
    let store = ProfileStore::new();
    assert_eq!(switch_start(&store), SwitchStart::NoProfiles);
}

#[test]
fn switch_lists_keys_when_nonempty() {
    let mut store = ProfileStore::new();
    add_custom_profile(&mut store, "one".to_string(), "A".to_string(), "a@x".to_string(), "".to_string());
    match switch_start(&store) {
        SwitchStart::NoProfiles => panic!("a non-empty store must offer a choice"),
        SwitchStart::Choose(keys) => assert_eq!(keys, vec!["one".to_string()]),
    }
}

#[test]
fn switch_scenario_bob_without_remote() {
    let mut store = ProfileStore::new();
    store.insert(
        "GitHub_bob".to_string(),
        profile("GitHub_bob", "Bob", "bob@x.com", ""),
    );
    let (key, actions) = switch_apply(&store, 1);
    assert_eq!(key, "GitHub_bob");
    assert_eq!(
        actions,
        vec![
            GitAction::SetUserName("Bob".to_string()),
            GitAction::SetUserEmail("bob@x.com".to_string()),
        ]
    );
}

#[test]
fn switch_plans_remote_only_when_present() {
    let with_remote = profile("k", "N", "e@x", "https://x/r.git");
    let actions = plan_switch(&with_remote);
    assert_eq!(
        actions,
        vec![
            GitAction::SetUserName("N".to_string()),
            GitAction::SetUserEmail("e@x".to_string()),
            GitAction::SetRemoteUrl("https://x/r.git".to_string()),
        ]
    );
}

#[test]
fn parse_choice_rejects_invalid_input() {
    assert_eq!(parse_choice("0", 3), None);
    assert_eq!(parse_choice("-1", 3), None);
    assert_eq!(parse_choice("abc", 3), None);
    assert_eq!(parse_choice("", 3), None);
    assert_eq!(parse_choice("4", 3), None);
    assert_eq!(parse_choice("1.5", 3), None);
    assert_eq!(parse_choice("2 ", 3), None);
    assert_eq!(parse_choice("999999999999999999999999999999", 3), None);
}

#[test]
fn parse_choice_accepts_numbers_in_range() {
    assert_eq!(parse_choice("1", 3), Some(1));
    assert_eq!(parse_choice("3", 3), Some(3));
    assert_eq!(parse_choice("+2", 3), Some(2));
    assert_eq!(parse_choice("007", 10), Some(7));
}

#[test]
fn first_valid_choice_skips_invalid_inputs() {
    let inputs = vec![
        "0".to_string(),
        "abc".to_string(),
        "9".to_string(),
        "2".to_string(),
        "1".to_string(),
    ];
    assert_eq!(first_valid_choice(&inputs, 3), Some((2, 3)));
    let all_bad = vec!["0".to_string(), "x".to_string()];
    assert_eq!(first_valid_choice(&all_bad, 3), None);
}

#[test]
fn confirm_accepts_only_the_letter_y() {
    assert!(is_yes("y"));
    assert!(is_yes("Y"));
    assert!(!is_yes("yes"));
    assert!(!is_yes("n"));
    assert!(!is_yes(""));
    assert!(!is_yes("N"));
    assert!(!is_yes("yy"));
}

#[test]
fn has_identity_needs_both_fields() {
    assert!(has_identity("Bob", "bob@x.com"));
    assert!(!has_identity("", "bob@x.com"));
    assert!(!has_identity("Bob", ""));
    assert!(!has_identity("", ""));
}

#[test]
fn remove_profile_outcomes() {
    let mut store = ProfileStore::new();
    add_custom_profile(&mut store, "k".to_string(), "N".to_string(), "e@x".to_string(), "".to_string());
    assert_eq!(remove_profile(&mut store, "k", false), RemoveOutcome::Cancelled);
    assert_eq!(store.len(), 1);
    assert_eq!(remove_profile(&mut store, "missing", true), RemoveOutcome::NotFound);
    assert_eq!(store.len(), 1);
    assert_eq!(remove_profile(&mut store, "k", true), RemoveOutcome::Removed);
    assert_eq!(store.len(), 0);
}

#[test]
fn remove_all_twice_leaves_empty_both_times() {
    let mut store = ProfileStore::new();
    add_custom_profile(&mut store, "a".to_string(), "A".to_string(), "a@x".to_string(), "".to_string());
    add_custom_profile(&mut store, "b".to_string(), "B".to_string(), "b@x".to_string(), "".to_string());
    assert!(remove_all_profiles(&mut store, true));
    assert!(store.is_empty());
    assert!(remove_all_profiles(&mut store, true));
    assert!(store.is_empty());
}

#[test]
fn remove_all_cancelled_changes_nothing() {
    let mut store = ProfileStore::new();
    add_custom_profile(&mut store, "a".to_string(), "A".to_string(), "a@x".to_string(), "".to_string());
    assert!(!remove_all_profiles(&mut store, false));
    assert_eq!(store.len(), 1);
}
