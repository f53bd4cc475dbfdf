use demo_api::items::{create, list, Item, Repository};
use demo_api::reply::Failure;

fn item(key: &str, value: &str) -> Item {
    Item { key: key.to_string(), value: value.to_string() }
}

fn value_of(snapshot: &Vec<Item>, key: &str) -> Option<String> {
    let mut found: Option<String> = None;
    let mut hits = 0;
    for entry in snapshot {
        if entry.key == key {
            found = Some(entry.value.clone());
            hits += 1;
        }
    }
    assert!(hits <= 1, "key {} is held {} times", key, hits);
    found
}

#[test]
fn new_store_is_empty() {
    let repo = Repository::new();
    assert!(repo.list().is_empty());
}

#[test]
fn fresh_store_holds_the_author_only() {
    let repo = Repository::seeded();
    let snapshot = repo.list();
    assert_eq!(snapshot, vec![item("Author", "Leo")]);
}

#[test]
fn second_put_on_a_key_wins() {
    let mut repo = Repository::seeded();
    repo.put(item("k", "first"));
    repo.put(item("k", "second"));
    let snapshot = repo.list();
    assert_eq!(value_of(&snapshot, "k"), Some("second".to_string()));
    assert_eq!(snapshot.len(), 2);
}

#[test]
fn put_on_the_seeded_key_replaces_the_seed() {
    let mut repo = Repository::seeded();
    repo.put(item("Author", "Ada"));
    assert_eq!(repo.list(), vec![item("Author", "Ada")]);
}

#[test]
fn keys_differ_by_case() {
    let mut repo = Repository::seeded();
    repo.put(item("author", "Ada"));
    let snapshot = repo.list();
    assert_eq!(snapshot.len(), 2);
    assert_eq!(value_of(&snapshot, "Author"), Some("Leo".to_string()));
    assert_eq!(value_of(&snapshot, "author"), Some("Ada".to_string()));
}

#[test]
fn every_listing_holds_whole_puts_only() {
    let mut repo = Repository::new();
    let puts = [("a", "1"), ("b", "2"), ("a", "3"), ("c", "4"), ("b", "5"), ("a", "6")];
    for done in 0..puts.len() {
        repo.put(item(puts[done].0, puts[done].1));
        let snapshot = repo.list();
        for entry in &snapshot {
            let mut last: Option<&str> = None;
            for earlier in 0..=done {
                if puts[earlier].0 == entry.key {
                    last = Some(puts[earlier].1);
                }
            }
            assert_eq!(last, Some(entry.value.as_str()));
        }
        for earlier in 0..=done {
            assert!(value_of(&snapshot, puts[earlier].0).is_some());
        }
    }
    assert_eq!(repo.list().len(), 3);
}

#[test]
fn listing_is_a_snapshot() {
    let mut repo = Repository::new();
    repo.put(item("a", "1"));
    let before = repo.list();
    repo.put(item("a", "2"));
    repo.put(item("b", "3"));
    assert_eq!(before, vec![item("a", "1")]);
    assert_eq!(repo.list().len(), 2);
}

#[test]
fn empty_key_and_value_are_stored() {
    let mut repo = Repository::new();
    repo.put(item("", ""));
    assert_eq!(repo.list(), vec![item("", "")]);
}

#[test]
fn create_stores_and_answers_201() {
    let mut repo = Repository::seeded();
    let outcome = create(&mut repo, Some("k1".to_string()), Some("v1".to_string()));
    assert_eq!(outcome, Ok(201));
    let snapshot = list(&repo);
    assert!(snapshot.contains(&item("k1", "v1")));
    assert!(snapshot.contains(&item("Author", "Leo")));
    assert_eq!(snapshot.len(), 2);
}

#[test]
fn create_without_a_field_stores_nothing() {
    let mut repo = Repository::seeded();
    assert_eq!(create(&mut repo, None, Some("v".to_string())), Err(Failure::MalformedBody));
    assert_eq!(create(&mut repo, Some("k".to_string()), None), Err(Failure::MalformedBody));
    assert_eq!(create(&mut repo, None, None), Err(Failure::MalformedBody));
    assert_eq!(list(&repo), vec![item("Author", "Leo")]);
}

#[test]
fn item_bind_needs_both_fields() {
    assert_eq!(Item::bind(Some("k".to_string()), Some("v".to_string())), Ok(item("k", "v")));
    assert_eq!(Item::bind(Some("k".to_string()), None), Err(Failure::MalformedBody));
    assert_eq!(Item::bind(None, Some("v".to_string())), Err(Failure::MalformedBody));
}

#[test]
fn item_clone_keeps_both_fields() {
    let original = item("k", "v");
    assert_eq!(original.clone(), original);
}
