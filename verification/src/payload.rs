//! The byte layout of the two payloads the library stores: a list state and
//! a user registry. Each is a fixed-width array of fields over the wire
//! primitives. This module is pure specification and proof: the byte layout,
//! the structural parsers, and the round-trip and length lemmas the codec
//! relies on.
use vstd::prelude::*;

verus! {

use vstd::utf8::{encode_utf8, decode_utf8, valid_utf8};
use crate::model::{ListItem, MusicaListV, UsersV};
use crate::wire::{
    uint_bytes,
    bool_bytes,
    str_bytes,
    array_header,
    parse_uint,
    parse_bool,
    parse_array_len,
    parse_str_bytes,
    lemma_parse_uint_at,
    lemma_parse_bool_at,
    lemma_parse_array_header_at,
    lemma_parse_str_at,
};

// ---------------------------------------------------------------------------
// Byte layout
// ---------------------------------------------------------------------------
/// One list item: an array of four fields.
pub open spec fn item_bytes(it: ListItem) -> Seq<u8> {
    array_header(4) + uint_bytes(it.id) + uint_bytes(it.musical_id) + bool_bytes(it.viewed)
        + uint_bytes(it.rating as u64)
}

/// The items of a list, back to back.
pub open spec fn items_bytes(items: Seq<ListItem>) -> Seq<u8>
    decreases items.len(),
{
    if items.len() == 0 {
        Seq::empty()
    } else {
        item_bytes(items[0]) + items_bytes(items.drop_first())
    }
}

/// A whole list state: an array of version, author and the item array.
pub open spec fn state_bytes(s: MusicaListV) -> Seq<u8> {
    array_header(3) + uint_bytes(s.version as u64) + str_bytes(encode_utf8(s.author))
        + array_header(s.items.len()) + items_bytes(s.items)
}

/// The names of a registry, back to back, each as a string value.
pub open spec fn names_bytes(names: Seq<Seq<char>>) -> Seq<u8>
    decreases names.len(),
{
    if names.len() == 0 {
        Seq::empty()
    } else {
        str_bytes(encode_utf8(names[0])) + names_bytes(names.drop_first())
    }
}

/// A whole registry: an array of version and the name array.
pub open spec fn users_bytes(u: UsersV) -> Seq<u8> {
    array_header(2) + uint_bytes(u.version as u64) + array_header(u.names.len()) + names_bytes(
        u.names,
    )
}

/// The total length of the encoded names of a registry.
pub open spec fn names_utf8_total(names: Seq<Seq<char>>) -> nat
    decreases names.len(),
{
    if names.len() == 0 {
        0
    } else {
        encode_utf8(names[0]).len() + names_utf8_total(names.drop_first())
    }
}

// ---------------------------------------------------------------------------
// Structural parsers
// ---------------------------------------------------------------------------
/// Reads one list item at `pos`: an array of exactly four fields, with the
/// rating small enough for its byte-sized field.
pub open spec fn parse_item(b: Seq<u8>, pos: int) -> Option<(ListItem, int)> {
    match parse_array_len(b, pos) {
        None => None,
        Some((n, p0)) => if n != 4 {
            None
        } else {
            match parse_uint(b, p0) {
                None => None,
                Some((id, p1)) => match parse_uint(b, p1) {
                    None => None,
                    Some((mid, p2)) => match parse_bool(b, p2) {
                        None => None,
                        Some((vw, p3)) => match parse_uint(b, p3) {
                            None => None,
                            Some((rat, p4)) => if rat <= 0xff {
                                Some(
                                    (
                                        ListItem {
                                            id,
                                            musical_id: mid,
                                            viewed: vw,
                                            rating: rat as u8,
                                        },
                                        p4,
                                    ),
                                )
                            } else {
                                None
                            },
                        },
                    },
                },
            }
        },
    }
}

/// Reads `n` list items back to back starting at `pos`.
pub open spec fn parse_items(b: Seq<u8>, pos: int, n: int) -> Option<(Seq<ListItem>, int)>
    decreases n,
{
    if n <= 0 {
        Some((Seq::empty(), pos))
    } else {
        match parse_item(b, pos) {
            None => None,
            Some((it, p)) => match parse_items(b, p, n - 1) {
                None => None,
                Some((rest, q)) => Some((seq![it] + rest, q)),
            },
        }
    }
}

/// Reads a whole list state from the start of `b`. Trailing bytes are
/// ignored. The version must fit a byte and the author must be valid UTF-8.
pub open spec fn parse_state(b: Seq<u8>) -> Option<MusicaListV> {
    match parse_array_len(b, 0) {
        None => None,
        Some((n, p0)) => if n != 3 {
            None
        } else {
            match parse_uint(b, p0) {
                None => None,
                Some((ver, p1)) => if ver > 0xff {
                    None
                } else {
                    match parse_str_bytes(b, p1) {
                        None => None,
                        Some((ab, p2)) => if !valid_utf8(ab) {
                            None
                        } else {
                            match parse_array_len(b, p2) {
                                None => None,
                                Some((cnt, p3)) => match parse_items(b, p3, cnt as int) {
                                    None => None,
                                    Some((items, _p4)) => Some(
                                        MusicaListV {
                                            version: ver as u8,
                                            author: decode_utf8(ab),
                                            items,
                                        },
                                    ),
                                },
                            }
                        },
                    }
                },
            }
        },
    }
}

/// Reads `n` names back to back starting at `pos`, each a valid UTF-8 string.
pub open spec fn parse_names(b: Seq<u8>, pos: int, n: int) -> Option<(Seq<Seq<char>>, int)>
    decreases n,
{
    if n <= 0 {
        Some((Seq::empty(), pos))
    } else {
        match parse_str_bytes(b, pos) {
            None => None,
            Some((nb, p)) => if !valid_utf8(nb) {
                None
            } else {
                match parse_names(b, p, n - 1) {
                    None => None,
                    Some((rest, q)) => Some((seq![decode_utf8(nb)] + rest, q)),
                }
            },
        }
    }
}

/// Reads a whole registry from the start of `b`. Trailing bytes are ignored.
pub open spec fn parse_users(b: Seq<u8>) -> Option<UsersV> {
    match parse_array_len(b, 0) {
        None => None,
        Some((n, p0)) => if n != 2 {
            None
        } else {
            match parse_uint(b, p0) {
                None => None,
                Some((ver, p1)) => if ver > 0xff {
                    None
                } else {
                    match parse_array_len(b, p1) {
                        None => None,
                        Some((cnt, p2)) => match parse_names(b, p2, cnt as int) {
                            None => None,
                            Some((names, _p3)) => Some(UsersV { version: ver as u8, names }),
                        },
                    }
                },
            }
        },
    }
}

// ---------------------------------------------------------------------------
// Helper lemmas about pieces of a larger buffer
// ---------------------------------------------------------------------------
/// When `whole` sits at `pos` in `b` and `piece` sits at `off` in `whole`,
/// `piece` sits at `pos + off` in `b`.
pub proof fn lemma_piece_at(b: Seq<u8>, pos: int, whole: Seq<u8>, off: int, piece: Seq<u8>)
    requires
        0 <= pos,
        pos + whole.len() <= b.len(),
        b.subrange(pos, pos + whole.len() as int) == whole,
        0 <= off,
        off + piece.len() <= whole.len(),
        piece == whole.subrange(off, off + piece.len() as int),
    ensures
        b.subrange(pos + off, pos + off + piece.len() as int) == piece,
{
    let sub = b.subrange(pos + off, pos + off + piece.len() as int);
    assert forall|i: int| 0 <= i < piece.len() implies sub[i] == piece[i] by {
        assert(b.subrange(pos, pos + whole.len() as int)[off + i] == b[pos + off + i]);
        assert(piece[i] == whole.subrange(off, off + piece.len() as int)[i]);
    }
    assert(sub =~= piece);
}

/// Splits a concatenation back into its two halves.
pub proof fn lemma_concat_pieces(a: Seq<u8>, c: Seq<u8>)
    ensures
        (a + c).subrange(0, a.len() as int) == a,
        (a + c).subrange(a.len() as int, (a + c).len() as int) == c,
{
    assert((a + c).subrange(0, a.len() as int) =~= a);
    assert((a + c).subrange(a.len() as int, (a + c).len() as int) =~= c);
}

// ---------------------------------------------------------------------------
// Length bounds
// ---------------------------------------------------------------------------
/// An encoded unsigned integer takes at most nine bytes.
pub proof fn lemma_uint_bytes_len(n: u64)
    ensures
        1 <= uint_bytes(n).len() <= 9,
{
}

/// An encoded item takes at most 22 bytes.
pub proof fn lemma_item_bytes_len(it: ListItem)
    ensures
        1 <= item_bytes(it).len() <= 22,
{
    lemma_uint_bytes_len(it.id);
    lemma_uint_bytes_len(it.musical_id);
    lemma_uint_bytes_len(it.rating as u64);
}

/// Encoded items take at most 22 bytes each.
pub proof fn lemma_items_bytes_len(items: Seq<ListItem>)
    ensures
        items_bytes(items).len() <= 22 * items.len(),
    decreases items.len(),
{
    if items.len() == 0 {
    } else {
        lemma_item_bytes_len(items[0]);
        lemma_items_bytes_len(items.drop_first());
    }
}

/// A whole encoded list state stays within a small envelope around the
/// author bytes and the item count.
pub proof fn lemma_state_bytes_len(s: MusicaListV)
    requires
        encode_utf8(s.author).len() < 0x1_0000_0000,
        s.items.len() < 0x1_0000_0000,
    ensures
        state_bytes(s).len() <= 25 + encode_utf8(s.author).len() + 22 * s.items.len(),
{
    lemma_uint_bytes_len(s.version as u64);
    lemma_items_bytes_len(s.items);
}

/// Encoded names take at most five header bytes plus their UTF-8 bytes each.
pub proof fn lemma_names_bytes_len(names: Seq<Seq<char>>)
    ensures
        names_bytes(names).len() <= 5 * names.len() + names_utf8_total(names),
    decreases names.len(),
{
    if names.len() == 0 {
    } else {
        lemma_names_bytes_len(names.drop_first());
    }
}

/// A whole encoded registry stays within a small envelope around the name
/// count and the total name bytes.
pub proof fn lemma_users_bytes_len(u: UsersV)
    requires
        u.names.len() < 0x1_0000_0000,
    ensures
        users_bytes(u).len() <= 20 + 5 * u.names.len() + names_utf8_total(u.names),
{
    lemma_uint_bytes_len(u.version as u64);
    lemma_names_bytes_len(u.names);
}

/// Every single name is no longer than the total over all names.
pub proof fn lemma_name_le_total(names: Seq<Seq<char>>, i: int)
    requires
        0 <= i < names.len(),
    ensures
        encode_utf8(names[i]).len() <= names_utf8_total(names),
    decreases names.len(),
{
    if i == 0 {
    } else {
        lemma_name_le_total(names.drop_first(), i - 1);
        assert(names.drop_first()[i - 1] == names[i]);
    }
}

/// The total over a prefix is no longer than the total over all names.
pub proof fn lemma_names_total_prefix(names: Seq<Seq<char>>, i: int)
    requires
        0 <= i <= names.len(),
    ensures
        names_utf8_total(names.take(i)) <= names_utf8_total(names),
    decreases names.len(),
{
    if i == 0 {
        assert(names.take(0) =~= Seq::<Seq<char>>::empty());
    } else {
        assert(names.take(i)[0] == names[0]);
        assert(names.take(i).drop_first() =~= names.drop_first().take(i - 1));
        lemma_names_total_prefix(names.drop_first(), i - 1);
    }
}

/// Appending a name adds its length to the total.
pub proof fn lemma_names_total_push(names: Seq<Seq<char>>, x: Seq<char>)
    ensures
        names_utf8_total(names.push(x)) == names_utf8_total(names) + encode_utf8(x).len(),
    decreases names.len(),
{
    if names.len() == 0 {
        assert(names.push(x)[0] == x);
        assert(names.push(x).drop_first() =~= Seq::<Seq<char>>::empty());
        assert(names_utf8_total(names.push(x)) == encode_utf8(x).len() + names_utf8_total(
            Seq::<Seq<char>>::empty(),
        ));
        assert(names_utf8_total(Seq::<Seq<char>>::empty()) == 0);
    } else {
        assert(names.push(x)[0] == names[0]);
        assert(names.push(x).drop_first() =~= names.drop_first().push(x));
        lemma_names_total_push(names.drop_first(), x);
        assert(names_utf8_total(names.push(x)) == encode_utf8(names[0]).len()
            + names_utf8_total(names.drop_first().push(x)));
        assert(names_utf8_total(names) == encode_utf8(names[0]).len() + names_utf8_total(
            names.drop_first(),
        ));
    }
}

// ---------------------------------------------------------------------------
// Appending one element to an encoded run
// ---------------------------------------------------------------------------
/// Appending an item appends its bytes.
pub proof fn lemma_items_bytes_push(items: Seq<ListItem>, x: ListItem)
    ensures
        items_bytes(items.push(x)) == items_bytes(items) + item_bytes(x),
    decreases items.len(),
{
    if items.len() == 0 {
        assert(items.push(x)[0] == x);
        assert(items.push(x).drop_first() =~= Seq::<ListItem>::empty());
        assert(items_bytes(items.push(x)) == item_bytes(x) + items_bytes(
            Seq::<ListItem>::empty(),
        ));
        assert(items_bytes(Seq::<ListItem>::empty()) =~= Seq::<u8>::empty());
        assert(items_bytes(items) =~= Seq::<u8>::empty());
        assert(items_bytes(items.push(x)) =~= items_bytes(items) + item_bytes(x));
    } else {
        assert(items.push(x)[0] == items[0]);
        assert(items.push(x).drop_first() =~= items.drop_first().push(x));
        lemma_items_bytes_push(items.drop_first(), x);
        assert(items_bytes(items.push(x)) == item_bytes(items[0]) + items_bytes(
            items.drop_first().push(x),
        ));
        assert(items_bytes(items) == item_bytes(items[0]) + items_bytes(items.drop_first()));
        assert(items_bytes(items.push(x)) =~= items_bytes(items) + item_bytes(x));
    }
}

/// Appending a name appends its bytes.
pub proof fn lemma_names_bytes_push(names: Seq<Seq<char>>, x: Seq<char>)
    ensures
        names_bytes(names.push(x)) == names_bytes(names) + str_bytes(encode_utf8(x)),
    decreases names.len(),
{
    if names.len() == 0 {
        assert(names.push(x)[0] == x);
        assert(names.push(x).drop_first() =~= Seq::<Seq<char>>::empty());
        assert(names_bytes(names.push(x)) == str_bytes(encode_utf8(x)) + names_bytes(
            Seq::<Seq<char>>::empty(),
        ));
        assert(names_bytes(Seq::<Seq<char>>::empty()) =~= Seq::<u8>::empty());
        assert(names_bytes(names) =~= Seq::<u8>::empty());
        assert(names_bytes(names.push(x)) =~= names_bytes(names) + str_bytes(encode_utf8(x)));
    } else {
        assert(names.push(x)[0] == names[0]);
        assert(names.push(x).drop_first() =~= names.drop_first().push(x));
        lemma_names_bytes_push(names.drop_first(), x);
        assert(names_bytes(names.push(x)) == str_bytes(encode_utf8(names[0])) + names_bytes(
            names.drop_first().push(x),
        ));
        assert(names_bytes(names) == str_bytes(encode_utf8(names[0])) + names_bytes(
            names.drop_first(),
        ));
        assert(names_bytes(names.push(x)) =~= names_bytes(names) + str_bytes(encode_utf8(x)));
    }
}

// ---------------------------------------------------------------------------
// Parsed runs have the announced length
// ---------------------------------------------------------------------------
/// A successful run parse yields exactly `n` items, at a position no earlier
/// than where it started.
pub proof fn lemma_parse_items_shape(b: Seq<u8>, pos: int, n: int)
    ensures
        parse_items(b, pos, n) matches Some(t) ==> t.0.len() == if n <= 0 {
            0
        } else {
            n
        },
    decreases n,
{
    if n <= 0 {
    } else {
        match parse_item(b, pos) {
            None => {},
            Some((it, p)) => {
                lemma_parse_items_shape(b, p, n - 1);
            },
        }
    }
}

/// A successful name run parse yields exactly `n` names.
pub proof fn lemma_parse_names_shape(b: Seq<u8>, pos: int, n: int)
    ensures
        parse_names(b, pos, n) matches Some(t) ==> t.0.len() == if n <= 0 {
            0
        } else {
            n
        },
    decreases n,
{
    if n <= 0 {
    } else {
        match parse_str_bytes(b, pos) {
            None => {},
            Some((nb, p)) => {
                lemma_parse_names_shape(b, p, n - 1);
            },
        }
    }
}


// ---------------------------------------------------------------------------
// Round trips: written payloads parse back
// ---------------------------------------------------------------------------
/// When the encoding of an item sits at `pos`, parsing an item there yields
/// it back.
pub proof fn lemma_parse_item_at(b: Seq<u8>, pos: int, it: ListItem)
    requires
        0 <= pos,
        pos + item_bytes(it).len() <= b.len(),
        b.subrange(pos, pos + item_bytes(it).len() as int) == item_bytes(it),
    ensures
        parse_item(b, pos) == Some((it, pos + item_bytes(it).len() as int)),
{
    let h = array_header(4);
    let u1 = uint_bytes(it.id);
    let u2 = uint_bytes(it.musical_id);
    let bb = bool_bytes(it.viewed);
    let u3 = uint_bytes(it.rating as u64);
    let w1 = h + u1;
    let w2 = w1 + u2;
    let w3 = w2 + bb;
    let e = item_bytes(it);
    assert(e == w3 + u3);
    lemma_concat_pieces(w3, u3);
    lemma_piece_at(b, pos, e, w3.len() as int, u3);
    lemma_piece_at(b, pos, e, 0, w3);
    lemma_concat_pieces(w2, bb);
    lemma_piece_at(b, pos, w3, w2.len() as int, bb);
    lemma_piece_at(b, pos, w3, 0, w2);
    lemma_concat_pieces(w1, u2);
    lemma_piece_at(b, pos, w2, w1.len() as int, u2);
    lemma_piece_at(b, pos, w2, 0, w1);
    lemma_concat_pieces(h, u1);
    lemma_piece_at(b, pos, w1, h.len() as int, u1);
    lemma_piece_at(b, pos, w1, 0, h);
    lemma_parse_array_header_at(b, pos, 4);
    lemma_parse_uint_at(b, pos + h.len(), it.id);
    lemma_parse_uint_at(b, pos + w1.len(), it.musical_id);
    lemma_parse_bool_at(b, pos + w2.len(), it.viewed);
    lemma_parse_uint_at(b, pos + w3.len(), it.rating as u64);
}

/// When the encodings of a run of items sit at `pos`, parsing that many
/// items there yields them back.
pub proof fn lemma_parse_items_at(b: Seq<u8>, pos: int, items: Seq<ListItem>)
    requires
        0 <= pos,
        pos + items_bytes(items).len() <= b.len(),
        b.subrange(pos, pos + items_bytes(items).len() as int) == items_bytes(items),
    ensures
        parse_items(b, pos, items.len() as int) == Some(
            (items, pos + items_bytes(items).len() as int),
        ),
    decreases items.len(),
{
    if items.len() == 0 {
        assert(items =~= Seq::<ListItem>::empty());
    } else {
        let first = item_bytes(items[0]);
        let rest = items_bytes(items.drop_first());
        let e = items_bytes(items);
        assert(e == first + rest);
        lemma_concat_pieces(first, rest);
        lemma_piece_at(b, pos, e, 0, first);
        lemma_piece_at(b, pos, e, first.len() as int, rest);
        lemma_parse_item_at(b, pos, items[0]);
        lemma_parse_items_at(b, pos + first.len(), items.drop_first());
        assert(seq![items[0]] + items.drop_first() =~= items);
    }
}

/// A written list state parses back to itself.
pub proof fn lemma_parse_state_rt(s: MusicaListV)
    requires
        encode_utf8(s.author).len() < 0x1_0000_0000,
        s.items.len() < 0x1_0000_0000,
    ensures
        parse_state(state_bytes(s)) == Some(s),
{
    let h = array_header(3);
    let uv = uint_bytes(s.version as u64);
    let sb = str_bytes(encode_utf8(s.author));
    let ah = array_header(s.items.len());
    let ib = items_bytes(s.items);
    let w1 = h + uv;
    let w2 = w1 + sb;
    let w3 = w2 + ah;
    let b = state_bytes(s);
    assert(b == w3 + ib);
    assert(b.subrange(0, b.len() as int) =~= b);
    lemma_concat_pieces(w3, ib);
    lemma_piece_at(b, 0, b, w3.len() as int, ib);
    lemma_piece_at(b, 0, b, 0, w3);
    lemma_concat_pieces(w2, ah);
    lemma_piece_at(b, 0, w3, w2.len() as int, ah);
    lemma_piece_at(b, 0, w3, 0, w2);
    lemma_concat_pieces(w1, sb);
    lemma_piece_at(b, 0, w2, w1.len() as int, sb);
    lemma_piece_at(b, 0, w2, 0, w1);
    lemma_concat_pieces(h, uv);
    lemma_piece_at(b, 0, w1, h.len() as int, uv);
    lemma_piece_at(b, 0, w1, 0, h);
    lemma_parse_array_header_at(b, 0, 3);
    lemma_parse_uint_at(b, h.len() as int, s.version as u64);
    lemma_parse_str_at(b, w1.len() as int, encode_utf8(s.author));
    vstd::utf8::encode_utf8_valid_utf8(s.author);
    vstd::utf8::encode_utf8_decode_utf8(s.author);
    lemma_parse_array_header_at(b, w2.len() as int, s.items.len());
    lemma_parse_items_at(b, w3.len() as int, s.items);
    assert(parse_state(b) matches Some(t) && t =~= s);
}

/// When the encodings of a run of names sit at `pos`, parsing that many
/// names there yields them back.
pub proof fn lemma_parse_names_at(b: Seq<u8>, pos: int, names: Seq<Seq<char>>)
    requires
        0 <= pos,
        pos + names_bytes(names).len() <= b.len(),
        b.subrange(pos, pos + names_bytes(names).len() as int) == names_bytes(names),
        forall|i: int|
            0 <= i < names.len() ==> encode_utf8(#[trigger] names[i]).len() < 0x1_0000_0000,
    ensures
        parse_names(b, pos, names.len() as int) == Some(
            (names, pos + names_bytes(names).len() as int),
        ),
    decreases names.len(),
{
    if names.len() == 0 {
        assert(names =~= Seq::<Seq<char>>::empty());
    } else {
        let first = str_bytes(encode_utf8(names[0]));
        let rest = names_bytes(names.drop_first());
        let e = names_bytes(names);
        assert(e == first + rest);
        lemma_concat_pieces(first, rest);
        lemma_piece_at(b, pos, e, 0, first);
        lemma_piece_at(b, pos, e, first.len() as int, rest);
        lemma_parse_str_at(b, pos, encode_utf8(names[0]));
        vstd::utf8::encode_utf8_valid_utf8(names[0]);
        vstd::utf8::encode_utf8_decode_utf8(names[0]);
        assert(forall|i: int|
            0 <= i < names.drop_first().len() ==> encode_utf8(
                #[trigger] names.drop_first()[i],
            ).len() < 0x1_0000_0000);
        lemma_parse_names_at(b, pos + first.len(), names.drop_first());
        assert(seq![names[0]] + names.drop_first() =~= names);
    }
}

/// A written registry parses back to itself.
pub proof fn lemma_parse_users_rt(u: UsersV)
    requires
        u.names.len() < 0x1_0000_0000,
        names_utf8_total(u.names) < 0x1_0000_0000,
    ensures
        parse_users(users_bytes(u)) == Some(u),
{
    let h = array_header(2);
    let uv = uint_bytes(u.version as u64);
    let ah = array_header(u.names.len());
    let nb = names_bytes(u.names);
    let w1 = h + uv;
    let w2 = w1 + ah;
    let b = users_bytes(u);
    assert(b == w2 + nb);
    assert(b.subrange(0, b.len() as int) =~= b);
    lemma_concat_pieces(w2, nb);
    lemma_piece_at(b, 0, b, w2.len() as int, nb);
    lemma_piece_at(b, 0, b, 0, w2);
    lemma_concat_pieces(w1, ah);
    lemma_piece_at(b, 0, w2, w1.len() as int, ah);
    lemma_piece_at(b, 0, w2, 0, w1);
    lemma_concat_pieces(h, uv);
    lemma_piece_at(b, 0, w1, h.len() as int, uv);
    lemma_piece_at(b, 0, w1, 0, h);
    lemma_parse_array_header_at(b, 0, 2);
    lemma_parse_uint_at(b, h.len() as int, u.version as u64);
    lemma_parse_array_header_at(b, w1.len() as int, u.names.len());
    assert forall|i: int| 0 <= i < u.names.len() implies encode_utf8(
        #[trigger] u.names[i],
    ).len() < 0x1_0000_0000 by {
        lemma_name_le_total(u.names, i);
    }
    lemma_parse_names_at(b, w2.len() as int, u.names);
    assert(parse_users(b) matches Some(t) && t =~= u);
}

} // verus!
