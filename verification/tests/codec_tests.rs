//! Tests for the token codec: round trips, total fallback on malformed
//! input, and byte-level compatibility with an independent writer of the
//! same wire format.
use base64::Engine;
use musicalist::codec::{
    encode_then_decode, encode_then_decode_users, encode_users, get_content, get_list_value,
    get_url, get_users_value,
};
use musicalist::model::{ListItem, MusicaList, Users};

fn sample_list() -> MusicaList {
    MusicaList {
        version: 1,
        author: "alice".to_string(),
        items: vec![
            ListItem { id: 1, musical_id: 5, viewed: true, rating: 3 },
            ListItem { id: 2, musical_id: 7, viewed: false, rating: 10 },
        ],
    }
}

fn default_list() -> MusicaList {
    MusicaList { version: 1, author: String::new(), items: vec![] }
}

#[test]
fn round_trip_simple() {
    let list = sample_list();
    let token = get_content(&list);
    let back = get_list_value(&Some(token));
    assert_eq!(back, list);
}

#[test]
fn round_trip_law_function() {
    let list = sample_list();
    assert_eq!(encode_then_decode(&list), list);
    let empty = default_list();
    assert_eq!(encode_then_decode(&empty), empty);
}

#[test]
fn round_trip_unicode_author() {
    let list = MusicaList {
        version: 1,
        author: "ch\u{0153}ur \u{1F3B5}".to_string(),
        items: vec![ListItem { id: 1, musical_id: 1, viewed: false, rating: 0 }],
    };
    let token = get_content(&list);
    assert_eq!(get_list_value(&Some(token)), list);
}

#[test]
fn decode_absent_is_default() {
    assert_eq!(get_list_value(&None), default_list());
}

#[test]
fn decode_garbage_is_default() {
    assert_eq!(get_list_value(&Some("not a token!!!".to_string())), default_list());
    assert_eq!(get_list_value(&Some(String::new())), default_list());
    // valid base64, but not a valid payload
    assert_eq!(get_list_value(&Some("aGVsbG8=".to_string())), default_list());
}

#[test]
fn decode_foreign_version_is_default() {
    let bytes =
        rmp_serde::to_vec(&(2u8, "bob", Vec::<(u64, u64, bool, u8)>::new())).unwrap();
    let token = base64::engine::general_purpose::STANDARD.encode(&bytes);
    assert_eq!(get_list_value(&Some(token)), default_list());
}

#[test]
fn decode_out_of_range_rating_is_default() {
    let bytes = rmp_serde::to_vec(&(1u8, "bob", vec![(1u64, 1u64, false, 11u8)])).unwrap();
    let token = base64::engine::general_purpose::STANDARD.encode(&bytes);
    assert_eq!(get_list_value(&Some(token)), default_list());
}

#[test]
fn wire_format_matches_independent_writer() {
    let list = sample_list();
    let bytes = rmp_serde::to_vec(&(
        1u8,
        "alice",
        vec![(1u64, 5u64, true, 3u8), (2u64, 7u64, false, 10u8)],
    ))
    .unwrap();
    let expected = base64::engine::general_purpose::STANDARD.encode(&bytes);
    assert_eq!(get_content(&list), expected);
}

#[test]
fn decode_reads_independent_writer() {
    let bytes = rmp_serde::to_vec(&(1u8, "carol", vec![(1u64, 300u64, true, 7u8)])).unwrap();
    let token = base64::engine::general_purpose::STANDARD.encode(&bytes);
    let list = get_list_value(&Some(token));
    assert_eq!(list.version, 1);
    assert_eq!(list.author, "carol");
    assert_eq!(
        list.items,
        vec![ListItem { id: 1, musical_id: 300, viewed: true, rating: 7 }]
    );
}

#[test]
fn decode_ignores_trailing_bytes() {
    let mut bytes = rmp_serde::to_vec(&(1u8, "dee", vec![(1u64, 2u64, false, 4u8)])).unwrap();
    bytes.push(0xc0);
    bytes.push(0xff);
    let token = base64::engine::general_purpose::STANDARD.encode(&bytes);
    let list = get_list_value(&Some(token));
    assert_eq!(list.author, "dee");
    assert_eq!(list.items.len(), 1);
}

#[test]
fn url_carries_the_token() {
    let list = sample_list();
    let (url, token) = get_url(&list);
    assert_eq!(url, format!("?content={}", token));
}

#[test]
fn users_round_trip() {
    let users = Users { version: 1, items: vec!["alice".to_string(), "bob".to_string()] };
    let token = encode_users(&users);
    assert_eq!(get_users_value(&Some(token)), users);
    assert_eq!(encode_then_decode_users(&users), users);
}

#[test]
fn users_wire_format_matches_independent_writer() {
    let users = Users { version: 1, items: vec!["alice".to_string(), "bob".to_string()] };
    let bytes = rmp_serde::to_vec(&(1u8, vec!["alice", "bob"])).unwrap();
    let expected = base64::engine::general_purpose::STANDARD.encode(&bytes);
    assert_eq!(encode_users(&users), expected);
}

#[test]
fn users_decode_fallback() {
    let empty = Users { version: 1, items: vec![] };
    assert_eq!(get_users_value(&None), empty);
    assert_eq!(get_users_value(&Some("###".to_string())), empty);
}

#[test]
fn round_trip_wide_integers() {
    let list = MusicaList {
        version: 1,
        author: "w".to_string(),
        items: vec![
            ListItem { id: 200, musical_id: 70_000, viewed: false, rating: 0 },
            ListItem { id: 5_000_000_000, musical_id: u64::MAX, viewed: true, rating: 9 },
        ],
    };
    let token = get_content(&list);
    assert_eq!(get_list_value(&Some(token)), list);
}

#[test]
fn decode_accepts_non_minimal_forms() {
    // the same payload a writer would emit as fixed-width forms, spelled out
    // with wide headers instead: still one version, one author, one item
    let mut bytes: Vec<u8> = Vec::new();
    bytes.extend_from_slice(&[0xdc, 0x00, 0x03]); // array of 3, 16-bit form
    bytes.extend_from_slice(&[0xcc, 0x01]); // version 1, 8-bit form
    bytes.extend_from_slice(&[0xd9, 0x02, b'j', b'o']); // author, 8-bit length
    bytes.extend_from_slice(&[0xdd, 0x00, 0x00, 0x00, 0x01]); // items, 32-bit form
    bytes.extend_from_slice(&[0x94, 0xcd, 0x00, 0x01, 0x02, 0xc3, 0xcc, 0x07]); // one item
    let token = base64::engine::general_purpose::STANDARD.encode(&bytes);
    let list = get_list_value(&Some(token));
    assert_eq!(list.author, "jo");
    assert_eq!(
        list.items,
        vec![ListItem { id: 1, musical_id: 2, viewed: true, rating: 7 }]
    );
}
