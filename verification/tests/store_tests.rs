//! Tests for the persistence store and the user registry: idempotent
//! registration, the write policy, and the cascade on author removal.
use musicalist::codec::get_content;
use musicalist::model::{ListItem, MusicaList};
use musicalist::store::{add_user, add_user_and_content, delete_user, get_users, LocalStore};

fn authored_list(author: &str) -> MusicaList {
    MusicaList {
        version: 1,
        author: author.to_string(),
        items: vec![ListItem { id: 1, musical_id: 2, viewed: false, rating: 1 }],
    }
}

#[test]
fn add_user_registers_once() {
    let mut store = LocalStore::new();
    add_user(&mut store, &"alice".to_string());
    add_user(&mut store, &"alice".to_string());
    let users = get_users(&store);
    assert_eq!(users.items, vec!["alice".to_string()]);
}

#[test]
fn add_user_keeps_first_insertion_position() {
    let mut store = LocalStore::new();
    add_user(&mut store, &"alice".to_string());
    add_user(&mut store, &"bob".to_string());
    add_user(&mut store, &"alice".to_string());
    let users = get_users(&store);
    assert_eq!(users.items, vec!["alice".to_string(), "bob".to_string()]);
}

#[test]
fn content_is_saved_under_both_slots() {
    let mut store = LocalStore::new();
    let list = authored_list("ann");
    let token = get_content(&list);
    store.set_anon_content(token.clone());
    add_user_and_content(&mut store, &list, &token);
    assert_eq!(store.anon, Some(token.clone()));
    assert_eq!(
        store.get_content_local_storage(&Some("ann".to_string())),
        Some(token)
    );
    assert_eq!(get_users(&store).items, vec!["ann".to_string()]);
}

#[test]
fn empty_author_never_persists() {
    let mut store = LocalStore::new();
    let list = MusicaList { version: 1, author: String::new(), items: vec![] };
    let token = get_content(&list);
    add_user_and_content(&mut store, &list, &token);
    assert_eq!(store.anon, None);
    assert_eq!(store.users, None);
    assert!(get_users(&store).items.is_empty());
}

#[test]
fn cascade_delete_clears_everything() {
    let mut store = LocalStore::new();
    let list = authored_list("ann");
    let token = get_content(&list);
    store.set_anon_content(token.clone());
    add_user_and_content(&mut store, &list, &token);

    delete_user(&mut store, &"ann".to_string());
    assert!(get_users(&store).items.is_empty());
    assert_eq!(store.get_content_local_storage(&Some("ann".to_string())), None);
    assert_eq!(store.anon, None);
}

#[test]
fn delete_keeps_other_authors() {
    let mut store = LocalStore::new();
    let ann = authored_list("ann");
    let bob = authored_list("bob");
    let ann_token = get_content(&ann);
    let bob_token = get_content(&bob);
    store.set_anon_content(ann_token.clone());
    add_user_and_content(&mut store, &ann, &ann_token);
    store.set_anon_content(bob_token.clone());
    add_user_and_content(&mut store, &bob, &bob_token);

    delete_user(&mut store, &"ann".to_string());
    let users = get_users(&store);
    assert_eq!(users.items, vec!["bob".to_string()]);
    assert_eq!(store.get_content_local_storage(&Some("ann".to_string())), None);
    assert_eq!(
        store.get_content_local_storage(&Some("bob".to_string())),
        Some(bob_token.clone())
    );
    // the registry still holds bob, so the anonymous slot survives
    assert_eq!(store.anon, Some(bob_token));
}

#[test]
fn delete_unknown_author_changes_nothing() {
    let mut store = LocalStore::new();
    let list = authored_list("ann");
    let token = get_content(&list);
    add_user_and_content(&mut store, &list, &token);
    let users_before = store.users.clone();

    delete_user(&mut store, &"zoe".to_string());
    assert_eq!(store.users, users_before);
    assert_eq!(
        store.get_content_local_storage(&Some("ann".to_string())),
        Some(token)
    );
}

#[test]
fn updating_a_slot_replaces_its_token() {
    let mut store = LocalStore::new();
    let first = authored_list("ann");
    let first_token = get_content(&first);
    add_user_and_content(&mut store, &first, &first_token);

    let second = first.update_rating(1, 1);
    let second_token = get_content(&second);
    add_user_and_content(&mut store, &second, &second_token);

    assert_ne!(first_token, second_token);
    assert_eq!(
        store.get_content_local_storage(&Some("ann".to_string())),
        Some(second_token)
    );
    assert_eq!(get_users(&store).items, vec!["ann".to_string()]);
}
