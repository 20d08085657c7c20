//! Tests for the pure edit transforms: wraparound ratings, clamped moves,
//! tolerant deletes, and the append policy.
use musicalist::model::{ListItem, MusicaList};

fn three_items() -> MusicaList {
    MusicaList {
        version: 1,
        author: "a".to_string(),
        items: vec![
            ListItem { id: 1, musical_id: 10, viewed: false, rating: 0 },
            ListItem { id: 2, musical_id: 20, viewed: true, rating: 5 },
            ListItem { id: 3, musical_id: 30, viewed: false, rating: 10 },
        ],
    }
}

#[test]
fn rating_wraps_below_zero() {
    let list = three_items();
    let out = list.update_rating(1, -1);
    assert_eq!(out.items[0].rating, 10);
}

#[test]
fn rating_wraps_above_ten() {
    let list = three_items();
    let out = list.update_rating(3, 1);
    assert_eq!(out.items[2].rating, 0);
}

#[test]
fn rating_steps_in_range() {
    let list = three_items();
    let out = list.update_rating(2, 1);
    assert_eq!(out.items[1].rating, 6);
    let out = list.update_rating(2, -1);
    assert_eq!(out.items[1].rating, 4);
}

#[test]
fn rating_touches_only_the_matching_item() {
    let list = three_items();
    let out = list.update_rating(2, 1);
    assert_eq!(out.items[0], list.items[0]);
    assert_eq!(out.items[2], list.items[2]);
}

#[test]
fn move_up_from_top_is_a_no_op() {
    let list = three_items();
    let out = list.move_item(0, -1);
    assert_eq!(out.items, list.items);
}

#[test]
fn move_down_from_bottom_is_a_no_op() {
    let list = three_items();
    let out = list.move_item(2, 1);
    assert_eq!(out.items, list.items);
}

#[test]
fn move_down_swaps_neighbours() {
    let list = three_items();
    let out = list.move_item(0, 1);
    assert_eq!(out.items[0].id, 2);
    assert_eq!(out.items[1].id, 1);
    assert_eq!(out.items[2].id, 3);
}

#[test]
fn delete_removes_the_matching_item() {
    let list = three_items();
    let out = list.delete_item(2);
    assert_eq!(out.items.len(), 2);
    assert_eq!(out.items[0].id, 1);
    assert_eq!(out.items[1].id, 3);
}

#[test]
fn delete_absent_id_leaves_list_unchanged() {
    let list = three_items();
    let out = list.delete_item(42);
    assert_eq!(out.items.len(), list.items.len());
    for (a, b) in out.items.iter().zip(list.items.iter()) {
        assert_eq!(a.id, b.id);
        assert_eq!(a, b);
    }
}

#[test]
fn add_item_appends_with_fresh_id_and_defaults() {
    let list = three_items();
    let out = list.add_item(10);
    assert_eq!(out.items.len(), 4);
    assert_eq!(
        out.items[3],
        ListItem { id: 4, musical_id: 10, viewed: false, rating: 0 }
    );
}

#[test]
fn toggle_viewed_flips_only_the_matching_item() {
    let list = three_items();
    let out = list.toggle_viewed(1);
    assert!(out.items[0].viewed);
    assert_eq!(out.items[1], list.items[1]);
    let again = out.toggle_viewed(1);
    assert!(!again.items[0].viewed);
}

#[test]
fn change_catalog_sets_the_reference_without_validation() {
    let list = three_items();
    let out = list.change_catalog(2, 999_999);
    assert_eq!(out.items[1].musical_id, 999_999);
    assert_eq!(out.items[0], list.items[0]);
}

#[test]
fn with_author_renames_without_touching_items() {
    let list = three_items();
    let out = list.with_author("zoe".to_string());
    assert_eq!(out.author, "zoe");
    assert_eq!(out.items, list.items);
    assert_eq!(out.version, list.version);
}
