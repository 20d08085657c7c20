//! The codec between structured values and opaque URL-safe tokens.
//!
//! Encoding writes the compact byte payload and wraps it in a base64 text;
//! decoding is total and never fails: a missing token, malformed text,
//! malformed payload, an unknown format version or an out-of-range field all
//! degrade to the canonical default value.
use vstd::prelude::*;

verus! {

use vstd::utf8::{encode_utf8, decode_utf8, valid_utf8};
use vstd::string::{StrSliceExecFns, StringExecFns};
use crate::CURRENT_VERSION;
use crate::model::{
    ListItem,
    MusicaList,
    MusicaListV,
    Users,
    UsersV,
    default_list,
    default_users,
    spec_default_list,
    spec_default_users,
};
use crate::wire::{read_uint, read_bool, read_array_len, read_str_bytes};
use crate::wire::{push_uint, push_bool, push_str_bytes, push_array_header};
use crate::payload::{
    item_bytes,
    items_bytes,
    state_bytes,
    names_bytes,
    users_bytes,
    names_utf8_total,
    parse_item,
    parse_items,
    parse_state,
    parse_names,
    parse_users,
    lemma_items_bytes_push,
    lemma_names_bytes_push,
    lemma_names_total_push,
    lemma_names_total_prefix,
    lemma_name_le_total,
    lemma_state_bytes_len,
    lemma_users_bytes_len,
    lemma_parse_items_shape,
    lemma_parse_names_shape,
    lemma_parse_state_rt,
    lemma_parse_users_rt,
};

// ---------------------------------------------------------------------------
// Size limits
// ---------------------------------------------------------------------------
// The byte format stores lengths in at most four bytes, and every encoded
// payload must fit comfortably in memory on any supported target. These caps
// keep every intermediate length within `usize` and well under the format
// limits; the decoder enforces them, so everything it accepts can be encoded
// again.
/// Longest accepted author name, in UTF-8 bytes.
pub const AUTHOR_BYTES_MAX: usize = 0x0FFF_FFFF;

/// Largest accepted number of list items.
pub const ITEMS_MAX: usize = 0x00FF_FFFF;

/// Largest accepted number of registry names.
pub const REG_COUNT_MAX: usize = 0x000F_FFFF;

/// Longest accepted total of all registry names, in UTF-8 bytes.
pub const REG_BYTES_MAX: usize = 0x0FFF_FFFF;

/// A list state small enough to encode.
pub open spec fn state_encodable(s: MusicaListV) -> bool {
    encode_utf8(s.author).len() <= AUTHOR_BYTES_MAX && s.items.len() <= ITEMS_MAX
}

/// A registry small enough to encode.
pub open spec fn users_encodable(u: UsersV) -> bool {
    u.names.len() <= REG_COUNT_MAX && names_utf8_total(u.names) <= REG_BYTES_MAX
}

// ---------------------------------------------------------------------------
// Trusted items: the base64 text transform and UTF-8 string building
// ---------------------------------------------------------------------------
/// The base64 text of a byte sequence, under the standard alphabet with
/// padding. Named rather than spelled out: it is a function of the bytes
/// alone.
pub uninterp spec fn b64_of(bytes: Seq<u8>) -> Seq<char>;

/// Relies on base64's `Engine::encode` with the `STANDARD` engine: the
/// result is a deterministic function of the input bytes.
#[verifier::external_body]
fn b64_encode(bytes: &Vec<u8>) -> (r: String)
    requires
        bytes@.len() <= usize::MAX / 2,
    ensures
        r@ == b64_of(bytes@),
{
    base64::engine::Engine::encode(&base64::engine::general_purpose::STANDARD, bytes.as_slice())
}

/// Relies on base64's `Engine::decode` with the `STANDARD` engine: decoding
/// is deterministic, inverts `encode`, and with this engine's canonical
/// padding rules it succeeds exactly on the texts that `encode` produces.
#[verifier::external_body]
fn b64_decode(text: &String) -> (r: Option<Vec<u8>>)
    ensures
        r matches Some(v) ==> text@ == b64_of(v@) && forall|b: Seq<u8>|
            text@ == b64_of(b) ==> b == v@,
        r is None ==> forall|b: Seq<u8>| text@ != b64_of(b),
{
    match base64::engine::Engine::decode(
        &base64::engine::general_purpose::STANDARD,
        text.as_str(),
    ) {
        Ok(v) => Some(v),
        Err(_) => None,
    }
}

/// Relies on `String::from_utf8`: builds the string whose UTF-8 encoding is
/// the given bytes, failing exactly when the bytes are not valid UTF-8.
#[verifier::external_body]
pub(crate) fn bytes_to_string(v: Vec<u8>) -> (r: Option<String>)
    ensures
        r matches Some(s) ==> encode_utf8(s@) == v@,
        r is None ==> !valid_utf8(v@),
{
    match String::from_utf8(v) {
        Ok(s) => Some(s),
        Err(_) => None,
    }
}

// ---------------------------------------------------------------------------
// Writers
// ---------------------------------------------------------------------------
/// Appends the byte encoding of one list item.
fn push_item(out: &mut Vec<u8>, it: ListItem)
    ensures
        final(out)@ == old(out)@ + item_bytes(it),
{
    push_array_header(out, 4);
    push_uint(out, it.id);
    push_uint(out, it.musical_id);
    push_bool(out, it.viewed);
    push_uint(out, it.rating as u64);
    proof {
        assert(out@ =~= old(out)@ + item_bytes(it));
    }
}

/// Writes the byte payload of a list state.
fn state_to_bytes(list: &MusicaList) -> (r: Vec<u8>)
    requires
        state_encodable(list@),
    ensures
        r@ == state_bytes(list@),
{
    let mut out: Vec<u8> = Vec::new();
    push_array_header(&mut out, 3);
    push_uint(&mut out, list.version as u64);
    let author_bytes = list.author.as_str().as_bytes_vec();
    push_str_bytes(&mut out, &author_bytes);
    let n = list.items.len();
    push_array_header(&mut out, n);
    let ghost head = out@;
    let mut i: usize = 0;
    while i < n
        invariant
            i <= n,
            n == list.items.len(),
            state_encodable(list@),
            out@ == head + items_bytes(list@.items.take(i as int)),
        decreases n - i,
    {
        let it = list.items[i];
        push_item(&mut out, it);
        proof {
            lemma_items_bytes_push(list@.items.take(i as int), list@.items[i as int]);
            assert(list@.items.take(i as int).push(list@.items[i as int]) =~= list@.items.take(
                i + 1 as int,
            ));
            assert(out@ =~= head + items_bytes(list@.items.take(i + 1 as int)));
        }
        i += 1;
    }
    proof {
        assert(list@.items.take(n as int) =~= list@.items);
        assert(out@ =~= state_bytes(list@));
    }
    out
}

/// Writes the byte payload of a registry.
fn users_to_bytes(users: &Users) -> (r: Vec<u8>)
    requires
        users_encodable(users@),
    ensures
        r@ == users_bytes(users@),
{
    let mut out: Vec<u8> = Vec::new();
    push_array_header(&mut out, 2);
    push_uint(&mut out, users.version as u64);
    let n = users.items.len();
    proof {
        assert(users@.names.len() == n);
    }
    push_array_header(&mut out, n);
    let ghost head = out@;
    let ghost names = users@.names;
    let mut i: usize = 0;
    while i < n
        invariant
            i <= n,
            n == users.items.len(),
            names == users@.names,
            names.len() == n,
            forall|j: int| 0 <= j < n ==> names[j] == users.items@[j]@,
            names_utf8_total(names) <= REG_BYTES_MAX,
            out@ == head + names_bytes(names.take(i as int)),
        decreases n - i,
    {
        let name_bytes = users.items[i].as_str().as_bytes_vec();
        proof {
            assert(name_bytes@ == encode_utf8(names[i as int]));
            lemma_name_le_total(names, i as int);
        }
        push_str_bytes(&mut out, &name_bytes);
        proof {
            lemma_names_bytes_push(names.take(i as int), names[i as int]);
            assert(names.take(i as int).push(names[i as int]) =~= names.take(i + 1 as int));
            assert(out@ =~= head + names_bytes(names.take(i + 1 as int)));
        }
        i += 1;
    }
    proof {
        assert(names.take(n as int) =~= names);
        assert(out@ =~= users_bytes(users@));
    }
    out
}

// ---------------------------------------------------------------------------
// Readers
// ---------------------------------------------------------------------------
/// Reads one list item at `pos`.
fn read_item(b: &Vec<u8>, pos: usize) -> (r: Option<(ListItem, usize)>)
    ensures
        r matches Some(e) ==> parse_item(b@, pos as int) == Some((e.0, e.1 as int)) && e.1
            <= b@.len(),
        r is None ==> parse_item(b@, pos as int) is None,
{
    let (n, p0) = match read_array_len(b, pos) {
        None => {
            return None;
        },
        Some(t) => t,
    };
    if n != 4 {
        return None;
    }
    let (id, p1) = match read_uint(b, p0) {
        None => {
            return None;
        },
        Some(t) => t,
    };
    let (mid, p2) = match read_uint(b, p1) {
        None => {
            return None;
        },
        Some(t) => t,
    };
    let (vw, p3) = match read_bool(b, p2) {
        None => {
            return None;
        },
        Some(t) => t,
    };
    let (rat, p4) = match read_uint(b, p3) {
        None => {
            return None;
        },
        Some(t) => t,
    };
    if rat > 0xff {
        return None;
    }
    Some((ListItem { id, musical_id: mid, viewed: vw, rating: rat as u8 }, p4))
}

/// Reads `n` list items back to back starting at `pos`.
fn read_items(b: &Vec<u8>, pos: usize, n: usize) -> (r: Option<(Vec<ListItem>, usize)>)
    ensures
        r matches Some(e) ==> (parse_items(b@, pos as int, n as int) matches Some(t) && e.0@ == t.0
            && e.1 as int == t.1),
        r is None ==> parse_items(b@, pos as int, n as int) is None,
{
    let mut acc: Vec<ListItem> = Vec::new();
    let mut p = pos;
    let mut i: usize = 0;
    while i < n
        invariant
            i <= n,
            acc@.len() == i,
            (parse_items(b@, p as int, (n - i) as int) matches Some(t) ==> (parse_items(
                b@,
                pos as int,
                n as int,
            ) matches Some(t2) && t2.0 == acc@ + t.0 && t2.1 == t.1)),
            (parse_items(b@, p as int, (n - i) as int) is None ==> parse_items(
                b@,
                pos as int,
                n as int,
            ) is None),
        decreases n - i,
    {
        match read_item(b, p) {
            None => {
                proof {
                    assert(parse_items(b@, p as int, (n - i) as int) is None);
                }
                return None;
            },
            Some((it, p2)) => {
                let ghost old_p = p as int;
                let ghost old_acc = acc@;
                let ghost m = (n - i) as int;
                acc.push(it);
                p = p2;
                i += 1;
                proof {
                    assert(acc@ =~= old_acc + seq![it]);
                    match parse_items(b@, p as int, (n - i) as int) {
                        Some(t) => {
                            assert(parse_items(b@, old_p, m) == Some((seq![it] + t.0, t.1)));
                            assert(old_acc + (seq![it] + t.0) =~= acc@ + t.0);
                        },
                        None => {
                            assert(parse_items(b@, old_p, m) is None);
                        },
                    }
                }
            },
        }
    }
    proof {
        assert(parse_items(b@, p as int, 0) == Some((Seq::<ListItem>::empty(), p as int)));
        assert(acc@ + Seq::<ListItem>::empty() =~= acc@);
    }
    Some((acc, p))
}

/// Reads `n` names back to back starting at `pos`, each a valid UTF-8 string.
fn read_names(b: &Vec<u8>, pos: usize, n: usize) -> (r: Option<(Vec<String>, usize)>)
    ensures
        r matches Some(e) ==> (parse_names(b@, pos as int, n as int) matches Some(t)
            && e.0.deep_view() == t.0 && e.1 as int == t.1),
        r is None ==> parse_names(b@, pos as int, n as int) is None,
{
    let mut acc: Vec<String> = Vec::new();
    let mut p = pos;
    let mut i: usize = 0;
    while i < n
        invariant
            i <= n,
            acc@.len() == i,
            (parse_names(b@, p as int, (n - i) as int) matches Some(t) ==> (parse_names(
                b@,
                pos as int,
                n as int,
            ) matches Some(t2) && t2.0 == acc.deep_view() + t.0 && t2.1 == t.1)),
            (parse_names(b@, p as int, (n - i) as int) is None ==> parse_names(
                b@,
                pos as int,
                n as int,
            ) is None),
        decreases n - i,
    {
        match read_str_bytes(b, p) {
            None => {
                proof {
                    assert(parse_names(b@, p as int, (n - i) as int) is None);
                }
                return None;
            },
            Some((nb, p2)) => {
                let ghost nbv = nb@;
                match bytes_to_string(nb) {
                    None => {
                        proof {
                            assert(parse_names(b@, p as int, (n - i) as int) is None);
                        }
                        return None;
                    },
                    Some(name) => {
                        proof {
                            vstd::utf8::encode_utf8_valid_utf8(name@);
                            vstd::utf8::encode_utf8_decode_utf8(name@);
                            assert(decode_utf8(nbv) == name@);
                        }
                        let ghost old_p = p as int;
                        let ghost old_acc = acc.deep_view();
                        let ghost m = (n - i) as int;
                        acc.push(name);
                        p = p2;
                        i += 1;
                        proof {
                            assert(acc.deep_view() =~= old_acc + seq![decode_utf8(nbv)]);
                            match parse_names(b@, p as int, (n - i) as int) {
                                Some(t) => {
                                    assert(parse_names(b@, old_p, m) == Some(
                                        (seq![decode_utf8(nbv)] + t.0, t.1),
                                    ));
                                    assert(old_acc + (seq![decode_utf8(nbv)] + t.0)
                                        =~= acc.deep_view() + t.0);
                                },
                                None => {
                                    assert(parse_names(b@, old_p, m) is None);
                                },
                            }
                        }
                    },
                }
            },
        }
    }
    proof {
        assert(parse_names(b@, p as int, 0) == Some((Seq::<Seq<char>>::empty(), p as int)));
        assert(acc.deep_view() + Seq::<Seq<char>>::empty() =~= acc.deep_view());
    }
    Some((acc, p))
}

/// True when every rating is in range.
fn ratings_ok(items: &Vec<ListItem>) -> (r: bool)
    ensures
        r == crate::model::items_wf(items@),
{
    let m = items.len();
    let mut i: usize = 0;
    while i < m
        invariant
            i <= m,
            m == items.len(),
            forall|j: int| 0 <= j < i ==> crate::model::item_wf(#[trigger] items@[j]),
        decreases m - i,
    {
        if items[i].rating > 10 {
            return false;
        }
        i += 1;
    }
    true
}

/// True when the total UTF-8 length of the names stays within the limit.
fn names_total_ok(names: &Vec<String>) -> (r: bool)
    ensures
        r == (names_utf8_total(names.deep_view()) <= REG_BYTES_MAX),
{
    let ghost namesv = names.deep_view();
    let m = names.len();
    proof {
        assert(namesv.len() == m);
    }
    let mut total: u64 = 0;
    let mut i: usize = 0;
    while i < m
        invariant
            i <= m,
            m == names.len(),
            namesv == names.deep_view(),
            namesv.len() == m,
            total == names_utf8_total(namesv.take(i as int)),
            total <= REG_BYTES_MAX as u64,
        decreases m - i,
    {
        let len = names[i].as_str().as_bytes().len();
        proof {
            assert(names@[i as int]@ == namesv[i as int]);
            assert(len == encode_utf8(namesv[i as int]).len());
            lemma_names_total_push(namesv.take(i as int), namesv[i as int]);
            assert(namesv.take(i as int).push(namesv[i as int]) =~= namesv.take(i + 1 as int));
        }
        if len > REG_BYTES_MAX {
            proof {
                lemma_name_le_total(namesv, i as int);
            }
            return false;
        }
        let new_total = total + (len as u64);
        if new_total > REG_BYTES_MAX as u64 {
            proof {
                lemma_names_total_prefix(namesv, i + 1 as int);
            }
            return false;
        }
        total = new_total;
        i += 1;
    }
    proof {
        assert(namesv.take(m as int) =~= namesv);
    }
    true
}

/// Parses a byte payload into a list state, accepting it only when it is
/// well formed and within the size limits.
fn bytes_to_state(b: &Vec<u8>) -> (r: Option<MusicaList>)
    ensures
        r matches Some(l) ==> parse_state(b@) == Some(l@) && l@.wf() && state_encodable(l@),
        r is None ==> (match parse_state(b@) {
            Some(s) => !(s.wf() && state_encodable(s)),
            None => true,
        }),
{
    let (n, p0) = match read_array_len(b, 0) {
        None => {
            return None;
        },
        Some(t) => t,
    };
    if n != 3 {
        return None;
    }
    let (ver, p1) = match read_uint(b, p0) {
        None => {
            return None;
        },
        Some(t) => t,
    };
    if ver > 0xff {
        return None;
    }
    let (ab, p2) = match read_str_bytes(b, p1) {
        None => {
            return None;
        },
        Some(t) => t,
    };
    let ghost abv = ab@;
    if ab.len() > AUTHOR_BYTES_MAX {
        proof {
            if valid_utf8(abv) {
                vstd::utf8::decode_utf8_encode_utf8(abv);
            }
        }
        return None;
    }
    let author = match bytes_to_string(ab) {
        None => {
            return None;
        },
        Some(s) => s,
    };
    proof {
        vstd::utf8::encode_utf8_valid_utf8(author@);
        vstd::utf8::encode_utf8_decode_utf8(author@);
        assert(decode_utf8(abv) == author@);
    }
    let (cnt, p3) = match read_array_len(b, p2) {
        None => {
            return None;
        },
        Some(t) => t,
    };
    if cnt > ITEMS_MAX as u64 {
        proof {
            lemma_parse_items_shape(b@, p3 as int, cnt as int);
        }
        return None;
    }
    let (items, _p4) = match read_items(b, p3, cnt as usize) {
        None => {
            return None;
        },
        Some(t) => t,
    };
    if ver as u8 != CURRENT_VERSION {
        return None;
    }
    if !ratings_ok(&items) {
        return None;
    }
    let list = MusicaList { version: ver as u8, author, items };
    proof {
        lemma_parse_items_shape(b@, p3 as int, cnt as int);
        assert(parse_state(b@) matches Some(s) && s =~= list@);
    }
    Some(list)
}

/// Parses a byte payload into a registry, accepting it only when it is well
/// formed and within the size limits.
fn bytes_to_users(b: &Vec<u8>) -> (r: Option<Users>)
    ensures
        r matches Some(u) ==> parse_users(b@) == Some(u@) && u@.wf() && users_encodable(u@),
        r is None ==> (match parse_users(b@) {
            Some(u) => !(u.wf() && users_encodable(u)),
            None => true,
        }),
{
    let (n, p0) = match read_array_len(b, 0) {
        None => {
            return None;
        },
        Some(t) => t,
    };
    if n != 2 {
        return None;
    }
    let (ver, p1) = match read_uint(b, p0) {
        None => {
            return None;
        },
        Some(t) => t,
    };
    if ver > 0xff {
        return None;
    }
    let (cnt, p2) = match read_array_len(b, p1) {
        None => {
            return None;
        },
        Some(t) => t,
    };
    if cnt > REG_COUNT_MAX as u64 {
        proof {
            lemma_parse_names_shape(b@, p2 as int, cnt as int);
        }
        return None;
    }
    let (names, _p3) = match read_names(b, p2, cnt as usize) {
        None => {
            return None;
        },
        Some(t) => t,
    };
    if ver as u8 != CURRENT_VERSION {
        return None;
    }
    proof {
        lemma_parse_names_shape(b@, p2 as int, cnt as int);
    }
    if !names_total_ok(&names) {
        return None;
    }
    let users = Users { version: ver as u8, items: names };
    proof {
        assert(parse_users(b@) matches Some(u) && u =~= users@);
    }
    Some(users)
}

// ---------------------------------------------------------------------------
// The token codec
// ---------------------------------------------------------------------------
/// What a token decodes to: the parsed value when the text is a canonical
/// base64 encoding of a well-formed payload within the size limits, and the
/// canonical default otherwise.
pub open spec fn decoded_state_or_default(t: Seq<char>) -> MusicaListV {
    if exists|bb: Seq<u8>| t == b64_of(bb) {
        let bb = choose|bb: Seq<u8>| t == b64_of(bb);
        match parse_state(bb) {
            Some(s) => if s.wf() && state_encodable(s) {
                s
            } else {
                spec_default_list()
            },
            None => spec_default_list(),
        }
    } else {
        spec_default_list()
    }
}

/// What an optional token decodes to: absent means the canonical default.
pub open spec fn spec_get_list_value(c: Option<Seq<char>>) -> MusicaListV {
    match c {
        None => spec_default_list(),
        Some(t) => decoded_state_or_default(t),
    }
}

/// The view of an optional string.
pub open spec fn opt_str_view(c: Option<String>) -> Option<Seq<char>> {
    match c {
        Some(s) => Some(s@),
        None => None,
    }
}

/// Encodes a list state into its token.
pub fn get_content(list: &MusicaList) -> (r: String)
    requires
        state_encodable(list@),
    ensures
        r@ == b64_of(state_bytes(list@)),
{
    let bytes = state_to_bytes(list);
    proof {
        lemma_state_bytes_len(list@);
    }
    b64_encode(&bytes)
}

/// Decodes an optional token into a list state. Total: a missing token,
/// malformed text, a malformed payload, a foreign format version or an
/// out-of-range rating all yield the canonical default. A token produced by
/// [`get_content`] from a well-formed state decodes back to that state.
pub fn get_list_value(content: &Option<String>) -> (r: MusicaList)
    ensures
        r@ == spec_get_list_value(opt_str_view(*content)),
        r@.wf(),
        state_encodable(r@),
        (*content matches Some(t) ==> forall|s: MusicaListV|
            (s.wf() && state_encodable(s) && t@ == b64_of(state_bytes(s))) ==> r@ == s),
{
    match content {
        None => default_list(),
        Some(t) => {
            match b64_decode(t) {
                None => {
                    proof {
                        assert forall|s: MusicaListV|
                            (s.wf() && state_encodable(s) && t@ == b64_of(
                                state_bytes(s),
                            )) implies spec_default_list() == s by {
                            assert(t@ != b64_of(state_bytes(s)));
                        }
                    }
                    default_list()
                },
                Some(bytes) => {
                    proof {
                        let bb = choose|bb: Seq<u8>| t@ == b64_of(bb);
                        assert(t@ == b64_of(bytes@));
                        assert(bb == bytes@);
                    }
                    let r = match bytes_to_state(&bytes) {
                        None => default_list(),
                        Some(list) => list,
                    };
                    proof {
                        assert forall|s: MusicaListV|
                            (s.wf() && state_encodable(s) && t@ == b64_of(
                                state_bytes(s),
                            )) implies r@ == s by {
                            assert(state_bytes(s) == bytes@);
                            lemma_parse_state_rt(s);
                        }
                    }
                    r
                },
            }
        },
    }
}

/// Encodes a registry into its token.
pub fn encode_users(users: &Users) -> (r: String)
    requires
        users_encodable(users@),
    ensures
        r@ == b64_of(users_bytes(users@)),
{
    let bytes = users_to_bytes(users);
    proof {
        lemma_users_bytes_len(users@);
    }
    b64_encode(&bytes)
}

/// What a registry token decodes to, with the same fallback policy as
/// [`decoded_state_or_default`].
pub open spec fn decoded_users_or_default(t: Seq<char>) -> UsersV {
    if exists|bb: Seq<u8>| t == b64_of(bb) {
        let bb = choose|bb: Seq<u8>| t == b64_of(bb);
        match parse_users(bb) {
            Some(u) => if u.wf() && users_encodable(u) {
                u
            } else {
                spec_default_users()
            },
            None => spec_default_users(),
        }
    } else {
        spec_default_users()
    }
}

/// What an optional registry token decodes to.
pub open spec fn spec_get_users_value(c: Option<Seq<char>>) -> UsersV {
    match c {
        None => spec_default_users(),
        Some(t) => decoded_users_or_default(t),
    }
}

/// Decodes an optional token into a registry, with the same total fallback
/// policy as [`get_list_value`].
pub fn get_users_value(content: &Option<String>) -> (r: Users)
    ensures
        r@ == spec_get_users_value(opt_str_view(*content)),
        r@.wf(),
        users_encodable(r@),
        (*content matches Some(t) ==> forall|u: UsersV|
            (u.wf() && users_encodable(u) && t@ == b64_of(users_bytes(u))) ==> r@ == u),
{
    match content {
        None => default_users(),
        Some(t) => {
            match b64_decode(t) {
                None => {
                    proof {
                        assert forall|u: UsersV|
                            (u.wf() && users_encodable(u) && t@ == b64_of(
                                users_bytes(u),
                            )) implies spec_default_users() == u by {
                            assert(t@ != b64_of(users_bytes(u)));
                        }
                    }
                    default_users()
                },
                Some(bytes) => {
                    proof {
                        let bb = choose|bb: Seq<u8>| t@ == b64_of(bb);
                        assert(t@ == b64_of(bytes@));
                        assert(bb == bytes@);
                    }
                    let r = match bytes_to_users(&bytes) {
                        None => default_users(),
                        Some(u) => u,
                    };
                    proof {
                        assert forall|u: UsersV|
                            (u.wf() && users_encodable(u) && t@ == b64_of(
                                users_bytes(u),
                            )) implies r@ == u by {
                            assert(users_bytes(u) == bytes@);
                            lemma_parse_users_rt(u);
                        }
                    }
                    r
                },
            }
        },
    }
}

/// The bookmarkable address of a list state: a query string carrying the
/// token, returned together with the token itself.
pub fn get_url(list: &MusicaList) -> (r: (String, String))
    requires
        state_encodable(list@),
    ensures
        r.1@ == b64_of(state_bytes(list@)),
        r.0@ == "?content="@ + r.1@,
{
    let token = get_content(list);
    let url = String::from_str("?content=").concat(token.as_str());
    (url, token)
}

// ---------------------------------------------------------------------------
// Decode robustness and round-trip laws
// ---------------------------------------------------------------------------
/// Law: a missing token decodes to the canonical default, and so does any
/// text that is not the base64 form of any byte sequence.
pub proof fn lemma_decode_robust(t: Seq<char>)
    ensures
        spec_get_list_value(None) == spec_default_list(),
        (forall|bb: Seq<u8>| t != b64_of(bb)) ==> decoded_state_or_default(t)
            == spec_default_list(),
        spec_get_users_value(None) == spec_default_users(),
        (forall|bb: Seq<u8>| t != b64_of(bb)) ==> decoded_users_or_default(t)
            == spec_default_users(),
{
}


/// Law: decoding an encoded list state yields the state back, for every
/// well-formed state within the size limits.
pub fn encode_then_decode(list: &MusicaList) -> (r: MusicaList)
    requires
        list@.wf(),
        state_encodable(list@),
    ensures
        r@ == list@,
{
    let token = get_content(list);
    get_list_value(&Some(token))
}

/// Law: decoding an encoded registry yields the registry back, for every
/// well-formed registry within the size limits.
pub fn encode_then_decode_users(users: &Users) -> (r: Users)
    requires
        users@.wf(),
        users_encodable(users@),
    ensures
        r@ == users@,
{
    let token = encode_users(users);
    get_users_value(&Some(token))
}

} // verus!
