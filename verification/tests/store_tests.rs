use gitpm::commands::render_listing;
use gitpm::profile::Profile;
use gitpm::store::ProfileStore;

fn profile(pn: &str, name: &str, email: &str, remote: &str) -> Profile {
    Profile::new(pn.to_string(), name.to_string(), email.to_string(), remote.to_string())
}

#[test]
fn new_store_is_empty() {
    let store = ProfileStore::new();
    assert!(store.is_empty());
    assert_eq!(store.len(), 0);
    assert!(store.get("anything").is_none());
}

#[test]
fn insert_then_get() {
    let mut store = ProfileStore::new();
    store.insert("k".to_string(), profile("k", "N", "e@x", "r"));
    assert_eq!(store.len(), 1);
    assert!(!store.is_empty());
    assert!(store.contains_key("k"));
    let p = store.get("k").unwrap();
    assert_eq!(p.name, "N");
    assert_eq!(p.remote, "r");
}

#[test]
fn insert_replaces_in_place() {
    let mut store = ProfileStore::new();
    store.insert("a".to_string(), profile("a", "A1", "a@x", ""));
    store.insert("b".to_string(), profile("b", "B", "b@x", ""));
    store.insert("a".to_string(), profile("a", "A2", "a2@x", ""));
    assert_eq!(store.len(), 2);
    assert_eq!(store.get("a").unwrap().name, "A2");
    let keys = store.keys();
    assert_eq!(keys, vec!["a".to_string(), "b".to_string()]);
}

#[test]
fn remove_drops_only_the_named_entry() {
    let mut store = ProfileStore::new();
    store.insert("a".to_string(), profile("a", "A", "a@x", ""));
    store.insert("b".to_string(), profile("b", "B", "b@x", ""));
    assert!(store.remove("a"));
    assert_eq!(store.len(), 1);
    assert!(store.get("a").is_none());
    assert_eq!(store.get("b").unwrap().name, "B");
    assert!(!store.remove("a"));
}

#[test]
fn keys_and_positions_follow_insertion_order() {
    let mut store = ProfileStore::new();
    store.insert("first".to_string(), profile("first", "F", "f@x", ""));
    store.insert("second".to_string(), profile("second", "S", "s@x", ""));
    assert_eq!(store.key_at(0), "first");
    assert_eq!(store.key_at(1), "second");
    assert_eq!(store.profile_at(1).name, "S");
}

#[test]
fn listing_empty_store() {
    let store = ProfileStore::new();
    assert_eq!(render_listing(&store), "No profiles found.\n");
}

#[test]
fn listing_shows_every_field() {
    let mut store = ProfileStore::new();
    store.insert("k".to_string(), profile("k", "N", "e@x", "r"));
    let expected = "\nYour Profiles:\n--------------\nProfile Name: k\nService_User: k\nUser Name: N\nEmail: e@x\nRemote: r\n\n";
    assert_eq!(render_listing(&store), expected);
}
