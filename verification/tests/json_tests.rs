use gitpm::json::{load_store, store_to_json};
use gitpm::profile::Profile;
use gitpm::store::ProfileStore;

fn profile(pn: &str, name: &str, email: &str, remote: &str) -> Profile {
    Profile::new(pn.to_string(), name.to_string(), email.to_string(), remote.to_string())
}

#[test]
fn round_trip_single_profile() {
    let mut store = ProfileStore::new();
    store.insert(
        "GitHub_bob".to_string(),
        profile("GitHub_bob", "Bob", "bob@x.com", ""),
    );
    let text = store_to_json(&store);
    let loaded = load_store(&text);
    assert_eq!(loaded.len(), 1);
    let p = loaded.get("GitHub_bob").expect("key must survive the round trip");
    assert_eq!(p.profile_name, "GitHub_bob");
    assert_eq!(p.name, "Bob");
    assert_eq!(p.email, "bob@x.com");
    assert_eq!(p.remote, "");
}

#[test]
fn round_trip_many_profiles() {
    let mut store = ProfileStore::new();
    store.insert("a".to_string(), profile("a", "Anna", "a@x.com", "https://x/a.git"));
    store.insert("b".to_string(), profile("b", "Ben", "b@x.com", ""));
    store.insert("c".to_string(), profile("c", "Cleo", "c@x.com", "git@x:c.git"));
    let text = store_to_json(&store);
    let loaded = load_store(&text);
    assert_eq!(loaded.len(), 3);
    assert_eq!(loaded.get("a").unwrap().name, "Anna");
    assert_eq!(loaded.get("b").unwrap().remote, "");
    assert_eq!(loaded.get("c").unwrap().remote, "git@x:c.git");
}

#[test]
fn round_trip_special_characters() {
    let mut store = ProfileStore::new();
    store.insert(
        "quo\"te_\\key".to_string(),
        profile("quo\"te_\\key", "Na\\me\"q", "a\"b@\\x.com", "https://x/\"q\\.git"),
    );
    store.insert("unicode_ü".to_string(), profile("unicode_ü", "Ünïcodé", "u@x.com", ""));
    let text = store_to_json(&store);
    let loaded = load_store(&text);
    assert_eq!(loaded.len(), 2);
    let p = loaded.get("quo\"te_\\key").unwrap();
    assert_eq!(p.name, "Na\\me\"q");
    assert_eq!(p.email, "a\"b@\\x.com");
    assert_eq!(p.remote, "https://x/\"q\\.git");
    assert_eq!(loaded.get("unicode_ü").unwrap().name, "Ünïcodé");
}

#[test]
fn empty_store_writes_bare_braces() {
    let store = ProfileStore::new();
    assert_eq!(store_to_json(&store), "{}");
}

#[test]
fn empty_document_loads_empty() {
    assert!(load_store("{}").is_empty());
    assert!(load_store("  {  }  ").is_empty());
}

#[test]
fn unparsable_document_loads_empty() {
    assert!(load_store("").is_empty());
    assert!(load_store("not json at all").is_empty());
    assert!(load_store("{\"a\": 1}").is_empty());
    assert!(load_store("[1, 2, 3]").is_empty());
    assert!(load_store("{\"a\": {\"profile_name\": \"a\"}}").is_empty());
}

#[test]
fn trailing_garbage_loads_empty() {
    let mut store = ProfileStore::new();
    store.insert("a".to_string(), profile("a", "Anna", "a@x.com", ""));
    let mut text = store_to_json(&store);
    text.push_str("garbage");
    assert!(load_store(&text).is_empty());
}

#[test]
fn whitespace_between_tokens_is_ignored() {
    let text = "  {\n   \"k\" :\t{ \"profile_name\" : \"k\" ,\n \"name\": \"N\",\r\n \"email\": \"e@x\", \"remote\": \"\" }\n }  ";
    let loaded = load_store(text);
    assert_eq!(loaded.len(), 1);
    assert_eq!(loaded.get("k").unwrap().name, "N");
}

#[test]
fn escaped_characters_are_decoded() {
    let text = "{\"k\\\"1\": {\"profile_name\": \"k\\\"1\", \"name\": \"a\\\\b\", \"email\": \"e\", \"remote\": \"\"}}";
    let loaded = load_store(text);
    assert_eq!(loaded.len(), 1);
    let p = loaded.get("k\"1").unwrap();
    assert_eq!(p.name, "a\\b");
}

#[test]
fn duplicate_keys_last_one_wins() {
    let text = "{\"k\": {\"profile_name\": \"k\", \"name\": \"first\", \"email\": \"e\", \"remote\": \"\"}, \"k\": {\"profile_name\": \"k\", \"name\": \"second\", \"email\": \"e\", \"remote\": \"\"}}";
    let loaded = load_store(text);
    assert_eq!(loaded.len(), 1);
    assert_eq!(loaded.get("k").unwrap().name, "second");
}

#[test]
fn written_form_is_valid_json() {
    let mut store = ProfileStore::new();
    store.insert(
        "GitHub_bob".to_string(),
        profile("GitHub_bob", "Bo\"b", "bob@x.com", "https://x/b.git"),
    );
    let text = store_to_json(&store);
    let value: serde_json::Value = serde_json::from_str(&text).expect("the written form must be JSON");
    let entry = value.get("GitHub_bob").expect("the key must be a top-level member");
    assert_eq!(entry.get("profile_name").unwrap().as_str().unwrap(), "GitHub_bob");
    assert_eq!(entry.get("name").unwrap().as_str().unwrap(), "Bo\"b");
    assert_eq!(entry.get("email").unwrap().as_str().unwrap(), "bob@x.com");
    assert_eq!(entry.get("remote").unwrap().as_str().unwrap(), "https://x/b.git");
}

#[test]
fn written_form_is_pretty_printed() {
    let mut store = ProfileStore::new();
    store.insert("k".to_string(), profile("k", "N", "e@x", ""));
    let expected = "{\n  \"k\": {\n    \"profile_name\": \"k\",\n    \"name\": \"N\",\n    \"email\": \"e@x\",\n    \"remote\": \"\"\n  }\n}";
    assert_eq!(store_to_json(&store), expected);
}
