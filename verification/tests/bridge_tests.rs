//! Tests for the bridge and history: the read path's token resolution and
//! self-healing, the write path, edit-mode toggling, undo/redo, and the
//! end-to-end editing scenario.
use musicalist::bridge::{change_edit, read_current, redo, undo, update_list};
use musicalist::catalog::{first_id, parse_catalog};
use musicalist::codec::{get_content, get_list_value};
use musicalist::history::History;
use musicalist::model::{ListItem, MusicaList, Query};
use musicalist::store::{add_user_and_content, get_users, LocalStore};

fn empty_query() -> Query {
    Query { content: None, edit: None, user: None }
}

fn default_list() -> MusicaList {
    MusicaList { version: 1, author: String::new(), items: vec![] }
}

#[test]
fn read_prefers_the_content_parameter() {
    let mut store = LocalStore::new();
    let list = MusicaList {
        version: 1,
        author: String::new(),
        items: vec![ListItem { id: 1, musical_id: 1, viewed: false, rating: 2 }],
    };
    let token = get_content(&list);
    store.set_anon_content("stale".to_string());
    let q = Query { content: Some(token), edit: None, user: None };
    assert_eq!(read_current(&mut store, &q), list);
}

#[test]
fn read_falls_back_to_the_selected_user_slot() {
    let mut store = LocalStore::new();
    let list = MusicaList {
        version: 1,
        author: "ann".to_string(),
        items: vec![ListItem { id: 1, musical_id: 3, viewed: true, rating: 4 }],
    };
    let token = get_content(&list);
    add_user_and_content(&mut store, &list, &token);
    let q = Query { content: None, edit: None, user: Some("ann".to_string()) };
    assert_eq!(read_current(&mut store, &q), list);
}

#[test]
fn read_falls_back_to_the_anonymous_slot() {
    let mut store = LocalStore::new();
    let list = MusicaList {
        version: 1,
        author: String::new(),
        items: vec![ListItem { id: 1, musical_id: 9, viewed: false, rating: 0 }],
    };
    let token = get_content(&list);
    store.set_anon_content(token);
    assert_eq!(read_current(&mut store, &empty_query()), list);
}

#[test]
fn read_with_nothing_stored_is_default() {
    let mut store = LocalStore::new();
    assert_eq!(read_current(&mut store, &empty_query()), default_list());
}

#[test]
fn read_self_heals_a_shared_link() {
    let mut store = LocalStore::new();
    let list = MusicaList {
        version: 1,
        author: "guest".to_string(),
        items: vec![ListItem { id: 1, musical_id: 1, viewed: false, rating: 1 }],
    };
    let token = get_content(&list);
    let q = Query { content: Some(token.clone()), edit: None, user: None };
    let loaded = read_current(&mut store, &q);
    assert_eq!(loaded, list);
    // visiting the link registered the author and cached the content
    assert_eq!(get_users(&store).items, vec!["guest".to_string()]);
    assert_eq!(
        store.get_content_local_storage(&Some("guest".to_string())),
        Some(token.clone())
    );
    assert_eq!(store.anon, Some(token));
}

#[test]
fn update_pushes_a_new_history_entry() {
    let mut store = LocalStore::new();
    let mut history = History::new(empty_query());
    let list = default_list().add_item(1);
    let (url, token) = update_list(&mut store, &mut history, &list, Some(true));
    assert_eq!(url, format!("?content={}", token));
    assert_eq!(history.len(), 2);
    let current = history.current();
    assert_eq!(current.content, Some(token));
    assert_eq!(current.edit, Some(true));
    assert_eq!(current.user, None);
}

#[test]
fn change_edit_flips_the_flag_and_keeps_the_token() {
    let mut history = History::new(empty_query());
    let list = default_list().add_item(1);
    let token = get_content(&list);
    change_edit(&mut history, &list, Some(true));
    assert_eq!(history.current().edit, Some(false));
    assert_eq!(history.current().content, Some(token.clone()));
    change_edit(&mut history, &list, None);
    assert_eq!(history.current().edit, Some(true));
    assert_eq!(history.current().content, Some(token));
}

#[test]
fn undo_and_redo_rederive_state_from_the_address() {
    let mut store = LocalStore::new();
    let mut history = History::new(empty_query());
    let list = default_list().add_item(7);
    let (_, _token) = update_list(&mut store, &mut history, &list, None);

    // anonymous state: nothing was persisted, so stepping back shows default
    let before = undo(&mut store, &mut history);
    assert_eq!(before, default_list());
    let after = redo(&mut store, &mut history);
    assert_eq!(after, list);
}

#[test]
fn undo_at_the_oldest_entry_is_a_no_op() {
    let mut store = LocalStore::new();
    let mut history = History::new(empty_query());
    let first = undo(&mut store, &mut history);
    assert_eq!(first, default_list());
    assert_eq!(history.len(), 1);
}

#[test]
fn pushing_after_undo_discards_the_redo_branch() {
    let mut store = LocalStore::new();
    let mut history = History::new(empty_query());
    let one = default_list().add_item(1);
    update_list(&mut store, &mut history, &one, None);
    let two = one.add_item(1);
    update_list(&mut store, &mut history, &two, None);
    assert_eq!(history.len(), 3);

    undo(&mut store, &mut history);
    let three = one.add_item(2);
    update_list(&mut store, &mut history, &three, None);
    assert_eq!(history.len(), 3);
    let redone = redo(&mut store, &mut history);
    // forward past the newest entry is a no-op: still the replacement branch
    assert_eq!(redone, three);
}

#[test]
fn end_to_end_edit_session() {
    let catalog = parse_catalog(
        b"3\tCats\tCats_(musical)\n5\tEvita\tEvita_(musical)\n",
    );
    let first = first_id(&catalog);
    assert_eq!(first, 3);

    // start with the default state and add an item
    let state = default_list();
    let state = state.add_item(first);
    assert_eq!(
        state.items,
        vec![ListItem { id: 1, musical_id: 3, viewed: false, rating: 0 }]
    );

    // raise the rating three times
    let state = state.update_rating(1, 1).update_rating(1, 1).update_rating(1, 1);
    assert_eq!(state.items[0].rating, 3);

    // share and reload
    let token = get_content(&state);
    let reloaded = get_list_value(&Some(token));
    assert_eq!(reloaded, state);

    // delete the item again
    let state = state.delete_item(1);
    assert!(state.items.is_empty());
}
