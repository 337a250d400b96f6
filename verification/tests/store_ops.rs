use wikigraph::models::{LookupEntry, RedirectEntry};
use wikigraph::store::{InsertOutcome, LookupStore};

fn lookup(title: &str, byte_offset: u32, length: u32) -> LookupEntry {
    LookupEntry { title: title.to_string(), byte_offset, length }
}

fn redirect(from: &str, to: &str) -> RedirectEntry {
    RedirectEntry { redirect_from: from.to_string(), redirect_to: to.to_string() }
}

#[test]
fn first_insert_wins_duplicate_is_noop() {
    let mut store = LookupStore::new();
    assert_eq!(store.add_lookup_entry(lookup("foo", 16, 20)), InsertOutcome::Inserted);
    assert_eq!(store.add_lookup_entry(lookup("foo", 999, 8)), InsertOutcome::DuplicateKey);
    let e = store.look_up_lookup_entry("foo").unwrap();
    assert_eq!(e.byte_offset, 16);
    assert_eq!(e.length, 20);
}

#[test]
fn redirect_duplicate_is_noop() {
    let mut store = LookupStore::new();
    assert_eq!(store.add_redirect_entry(redirect("a", "b")), InsertOutcome::Inserted);
    assert_eq!(store.add_redirect_entry(redirect("a", "c")), InsertOutcome::DuplicateKey);
    assert_eq!(store.add_lookup_entry(lookup("b", 128, 20)), InsertOutcome::Inserted);
    assert_eq!(store.resolve("a"), Some(128));
}

#[test]
fn resolve_follows_redirect_first() {
    let mut store = LookupStore::new();
    store.add_lookup_entry(lookup("bar", 128, 20));
    store.add_redirect_entry(redirect("foo", "bar"));
    assert_eq!(store.resolve("Foo"), Some(128));
}

#[test]
fn resolve_sanitizes_its_input() {
    let mut store = LookupStore::new();
    store.add_lookup_entry(lookup("new york", 52, 24));
    assert_eq!(store.resolve(" New_York\n"), Some(52));
}

#[test]
fn resolve_direct_when_no_redirect() {
    let mut store = LookupStore::new();
    store.add_lookup_entry(lookup("plain", 16, 20));
    assert_eq!(store.resolve("plain"), Some(16));
}

#[test]
fn redirect_to_missing_target_is_dangling() {
    let mut store = LookupStore::new();
    store.add_redirect_entry(redirect("foo", "gone"));
    store.add_lookup_entry(lookup("foo", 16, 20));
    assert_eq!(store.resolve("foo"), None);
}

#[test]
fn unknown_title_is_dangling() {
    let store = LookupStore::new();
    assert_eq!(store.resolve("never seen"), None);
}

#[test]
fn single_hop_redirects_only() {
    let mut store = LookupStore::new();
    store.add_redirect_entry(redirect("a", "b"));
    store.add_redirect_entry(redirect("b", "c"));
    store.add_lookup_entry(lookup("c", 300, 20));
    assert_eq!(store.resolve("a"), None);
    assert_eq!(store.resolve("b"), Some(300));
}

#[test]
fn offsets_bulk_load_matches_entries() {
    let mut store = LookupStore::new();
    store.add_lookup_entry(lookup("one", 16, 20));
    store.add_lookup_entry(lookup("two", 36, 24));
    let mut all = store.read_offsets_into_memory();
    all.sort();
    assert_eq!(all, vec![("one".to_string(), 16), ("two".to_string(), 36)]);
}

#[test]
fn lookup_with_redirects_returns_entry() {
    let mut store = LookupStore::new();
    store.add_lookup_entry(lookup("target", 72, 32));
    store.add_redirect_entry(redirect("source", "target"));
    let e = store.lookup_with_redirects("source").unwrap();
    assert_eq!(e.byte_offset, 72);
    assert_eq!(e.length, 32);
    assert!(store.lookup_with_redirects("nobody").is_none());
}
