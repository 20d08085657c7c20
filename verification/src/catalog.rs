//! The reference catalog: a tab-separated table with columns id, name and
//! link target, loaded once at startup into an immutable table. A malformed
//! row — wrong field count, an id that is not a decimal number, or text that
//! is not valid UTF-8 — is skipped, never fatal. Lookups by id degrade
//! gracefully: a dangling reference yields an empty name and an empty link
//! target, not an error.
use vstd::prelude::*;

verus! {

use vstd::utf8::{encode_utf8, decode_utf8, valid_utf8};
use vstd::string::{StringExecFns, StrSliceExecFns};
use vstd::slice::slice_to_vec;
use crate::model::{Musical, MusicalV};
use crate::codec::bytes_to_string;

// ---------------------------------------------------------------------------
// Decimal numbers
// ---------------------------------------------------------------------------
/// An ASCII decimal digit.
pub open spec fn is_digit(c: u8) -> bool {
    0x30 <= c <= 0x39
}

/// The value of a digit byte.
pub open spec fn digit_val(c: u8) -> int {
    c as int - 0x30
}

/// The value of a decimal numeral, read left to right.
pub open spec fn dec_val(s: Seq<u8>) -> int
    decreases s.len(),
{
    if s.len() == 0 {
        0
    } else {
        dec_val(s.drop_last()) * 10 + digit_val(s.last())
    }
}

/// A decimal numeral parses when it is non-empty, all digits, and its value
/// fits the target.
pub open spec fn spec_parse_u64(s: Seq<u8>) -> Option<u64> {
    if s.len() > 0 && (forall|j: int| 0 <= j < s.len() ==> is_digit(#[trigger] s[j])) && dec_val(s)
        <= u64::MAX {
        Some(dec_val(s) as u64)
    } else {
        None
    }
}

/// An all-digit numeral is worth at least any of its prefixes.
proof fn lemma_dec_val_prefix(s: Seq<u8>, i: int)
    requires
        0 <= i <= s.len(),
        forall|j: int| 0 <= j < s.len() ==> is_digit(#[trigger] s[j]),
    ensures
        0 <= dec_val(s.take(i)) <= dec_val(s),
    decreases s.len() - i,
{
    if i == s.len() {
        assert(s.take(i) =~= s);
        lemma_dec_val_nonneg(s);
    } else {
        lemma_dec_val_prefix(s, i + 1);
        assert(s.take(i + 1).drop_last() =~= s.take(i));
        assert(s.take(i + 1).last() == s[i]);
        lemma_dec_val_nonneg(s.take(i));
    }
}

/// An all-digit numeral is non-negative.
proof fn lemma_dec_val_nonneg(s: Seq<u8>)
    requires
        forall|j: int| 0 <= j < s.len() ==> is_digit(#[trigger] s[j]),
    ensures
        dec_val(s) >= 0,
    decreases s.len(),
{
    if s.len() == 0 {
    } else {
        assert forall|j: int| 0 <= j < s.drop_last().len() implies is_digit(
            #[trigger] s.drop_last()[j],
        ) by {
            assert(s.drop_last()[j] == s[j]);
        }
        lemma_dec_val_nonneg(s.drop_last());
    }
}

/// Parses an unsigned decimal numeral.
pub fn parse_u64_dec(b: &[u8]) -> (r: Option<u64>)
    ensures
        r == spec_parse_u64(b@),
{
    let n = b.len();
    if n == 0 {
        return None;
    }
    let mut acc: u64 = 0;
    let mut i: usize = 0;
    while i < n
        invariant
            i <= n,
            n == b@.len(),
            n > 0,
            forall|j: int| 0 <= j < i ==> is_digit(#[trigger] b@[j]),
            acc == dec_val(b@.take(i as int)),
        decreases n - i,
    {
        let c = b[i];
        if c < 0x30 || c > 0x39 {
            return None;
        }
        let d = (c - 0x30) as u64;
        proof {
            assert(b@.take(i + 1 as int).drop_last() =~= b@.take(i as int));
            assert(b@.take(i + 1 as int).last() == b@[i as int]);
        }
        if acc > (u64::MAX - d) / 10 {
            proof {
                assert(dec_val(b@.take(i + 1 as int)) > u64::MAX);
                if forall|j: int| 0 <= j < b@.len() ==> is_digit(#[trigger] b@[j]) {
                    lemma_dec_val_prefix(b@, i + 1 as int);
                }
            }
            return None;
        }
        acc = acc * 10 + d;
        i += 1;
    }
    proof {
        assert(b@.take(n as int) =~= b@);
    }
    Some(acc)
}

// ---------------------------------------------------------------------------
// Splitting on a byte
// ---------------------------------------------------------------------------
/// The first index of `c` at or after `from`, or the length when absent.
pub open spec fn find_byte(s: Seq<u8>, c: u8, from: int) -> int
    decreases s.len() - from,
{
    if from < 0 || from >= s.len() {
        s.len() as int
    } else if s[from] == c {
        from
    } else {
        find_byte(s, c, from + 1)
    }
}

/// Finds the first occurrence of `c` at or after `from`.
fn find_byte_from(b: &[u8], c: u8, from: usize) -> (r: usize)
    requires
        from <= b@.len(),
    ensures
        r as int == find_byte(b@, c, from as int),
        from <= r <= b@.len(),
        r < b@.len() ==> b@[r as int] == c,
{
    let n = b.len();
    let mut i = from;
    while i < n
        invariant
            from <= i <= n,
            n == b@.len(),
            find_byte(b@, c, from as int) == find_byte(b@, c, i as int),
        decreases n - i,
    {
        if b[i] == c {
            return i;
        }
        i += 1;
    }
    n
}

// ---------------------------------------------------------------------------
// Rows
// ---------------------------------------------------------------------------
/// What one row yields: exactly three tab-separated fields, a decimal id,
/// and valid UTF-8 text; anything else is skipped.
pub open spec fn spec_parse_line(line: Seq<u8>) -> Option<MusicalV> {
    let t1 = find_byte(line, 0x09, 0);
    if t1 == line.len() {
        None
    } else {
        let t2 = find_byte(line, 0x09, t1 + 1);
        if t2 == line.len() {
            None
        } else {
            let t3 = find_byte(line, 0x09, t2 + 1);
            if t3 != line.len() {
                None
            } else {
                let f0 = line.subrange(0, t1);
                let f1 = line.subrange(t1 + 1, t2);
                let f2 = line.subrange(t2 + 1, line.len() as int);
                match spec_parse_u64(f0) {
                    None => None,
                    Some(id) => if valid_utf8(f1) && valid_utf8(f2) {
                        Some(MusicalV { id, name: decode_utf8(f1), url: decode_utf8(f2) })
                    } else {
                        None
                    },
                }
            }
        }
    }
}

/// Parses one row of the catalog table.
pub fn parse_catalog_line(line: &[u8]) -> (r: Option<Musical>)
    ensures
        r matches Some(m) ==> spec_parse_line(line@) == Some(m@),
        r is None ==> spec_parse_line(line@) is None,
{
    let n = line.len();
    let t1 = find_byte_from(line, 0x09, 0);
    if t1 == n {
        return None;
    }
    let t2 = find_byte_from(line, 0x09, t1 + 1);
    if t2 == n {
        return None;
    }
    let t3 = find_byte_from(line, 0x09, t2 + 1);
    if t3 != n {
        return None;
    }
    let f0: &[u8] = &line[0..t1];
    let id = match parse_u64_dec(f0) {
        None => {
            return None;
        },
        Some(v) => v,
    };
    let f1: &[u8] = &line[t1 + 1..t2];
    let ghost f1v = f1@;
    let name = match bytes_to_string(slice_to_vec(f1)) {
        None => {
            return None;
        },
        Some(s) => s,
    };
    proof {
        vstd::utf8::encode_utf8_valid_utf8(name@);
        vstd::utf8::encode_utf8_decode_utf8(name@);
        assert(decode_utf8(f1v) == name@);
    }
    let f2: &[u8] = &line[t2 + 1..n];
    let ghost f2v = f2@;
    let url = match bytes_to_string(slice_to_vec(f2)) {
        None => {
            return None;
        },
        Some(s) => s,
    };
    proof {
        vstd::utf8::encode_utf8_valid_utf8(url@);
        vstd::utf8::encode_utf8_decode_utf8(url@);
        assert(decode_utf8(f2v) == url@);
    }
    Some(Musical::new(id, name, url))
}

// ---------------------------------------------------------------------------
// The whole table
// ---------------------------------------------------------------------------
/// Searching never moves backwards, and never past the end.
proof fn lemma_find_byte_ge(s: Seq<u8>, c: u8, from: int)
    requires
        0 <= from <= s.len(),
    ensures
        from <= find_byte(s, c, from) <= s.len(),
    decreases s.len() - from,
{
    if from < s.len() && s[from] != c {
        lemma_find_byte_ge(s, c, from + 1);
    }
}

/// The entries of the table from `pos` on: one row per line, rows split on
/// a newline, a trailing carriage return stripped, malformed rows skipped.
pub open spec fn spec_parse_catalog_from(data: Seq<u8>, pos: int) -> Seq<MusicalV>
    decreases data.len() - pos,
    via spec_parse_catalog_from_decreases
{
    if pos < 0 || pos >= data.len() {
        Seq::empty()
    } else {
        let e = find_byte(data, 0x0a, pos);
        let line0 = data.subrange(pos, e);
        let line = if line0.len() > 0 && line0.last() == 0x0d {
            line0.drop_last()
        } else {
            line0
        };
        let head = match spec_parse_line(line) {
            Some(m) => seq![m],
            None => Seq::empty(),
        };
        let next = if e + 1 <= data.len() {
            e + 1
        } else {
            data.len() as int
        };
        head + spec_parse_catalog_from(data, next)
    }
}

#[via_fn]
proof fn spec_parse_catalog_from_decreases(data: Seq<u8>, pos: int) {
    if 0 <= pos < data.len() {
        lemma_find_byte_ge(data, 0x0a, pos);
    }
}

/// Loads the whole catalog table, skipping malformed rows.
pub fn parse_catalog(data: &[u8]) -> (r: Vec<Musical>)
    ensures
        r.deep_view() == spec_parse_catalog_from(data@, 0),
{
    let n = data.len();
    let mut acc: Vec<Musical> = Vec::new();
    let mut pos: usize = 0;
    while pos < n
        invariant
            pos <= n,
            n == data@.len(),
            spec_parse_catalog_from(data@, 0) == acc.deep_view() + spec_parse_catalog_from(
                data@,
                pos as int,
            ),
        decreases n - pos,
    {
        let e = find_byte_from(data, 0x0a, pos);
        let line_end = if e > pos && data[e - 1] == 0x0d {
            e - 1
        } else {
            e
        };
        let line: &[u8] = &data[pos..line_end];
        proof {
            let line0 = data@.subrange(pos as int, e as int);
            if e > pos && data@[e - 1] == 0x0d {
                assert(line0.last() == data@[e - 1]);
                assert(line@ =~= line0.drop_last());
            } else {
                assert(line@ =~= line0);
                if line0.len() > 0 {
                    assert(line0.last() == data@[e - 1]);
                }
            }
        }
        let ghost old_acc = acc.deep_view();
        let ghost head = (match spec_parse_line(line@) {
            Some(m) => seq![m],
            None => Seq::<MusicalV>::empty(),
        });
        match parse_catalog_line(line) {
            Some(m) => {
                let ghost mv = m@;
                acc.push(m);
                proof {
                    assert forall|j: int|
                        0 <= j < acc.deep_view().len() implies acc.deep_view()[j] == old_acc.push(
                        mv,
                    )[j] by {
                        assert(acc.deep_view()[j] == acc@[j]@);
                    }
                    assert(acc.deep_view() =~= old_acc.push(mv));
                    assert(old_acc.push(mv) =~= old_acc + head);
                }
            },
            None => {
                proof {
                    assert(acc.deep_view() =~= old_acc + head);
                }
            },
        }
        let next = if e < n {
            e + 1
        } else {
            n
        };
        proof {
            assert(spec_parse_catalog_from(data@, pos as int) == head + spec_parse_catalog_from(
                data@,
                next as int,
            ));
            assert(old_acc + (head + spec_parse_catalog_from(data@, next as int))
                =~= (old_acc + head) + spec_parse_catalog_from(data@, next as int));
        }
        pos = next;
    }
    proof {
        assert(spec_parse_catalog_from(data@, pos as int) =~= Seq::<MusicalV>::empty());
        assert(acc.deep_view() + Seq::<MusicalV>::empty() =~= acc.deep_view());
    }
    acc
}

// ---------------------------------------------------------------------------
// Lookups
// ---------------------------------------------------------------------------
/// The display name of the first entry with this id; an empty name when no
/// entry matches (a dangling reference renders as empty, never fails).
pub open spec fn catalog_name_of(cat: Seq<MusicalV>, id: u64) -> Seq<char>
    decreases cat.len(),
{
    if cat.len() == 0 {
        Seq::empty()
    } else if cat[0].id == id {
        cat[0].name
    } else {
        catalog_name_of(cat.drop_first(), id)
    }
}

/// The link target of the first entry with this id; empty when no entry
/// matches.
pub open spec fn catalog_url_of(cat: Seq<MusicalV>, id: u64) -> Seq<char>
    decreases cat.len(),
{
    if cat.len() == 0 {
        Seq::empty()
    } else if cat[0].id == id {
        cat[0].url
    } else {
        catalog_url_of(cat.drop_first(), id)
    }
}

/// When the first entry with `id` is at `i`, both lookups read it.
proof fn lemma_catalog_at(cat: Seq<MusicalV>, i: int)
    requires
        0 <= i < cat.len(),
        forall|j: int| 0 <= j < i ==> (#[trigger] cat[j]).id != cat[i].id,
    ensures
        catalog_name_of(cat, cat[i].id) == cat[i].name,
        catalog_url_of(cat, cat[i].id) == cat[i].url,
    decreases cat.len(),
{
    if i == 0 {
    } else {
        assert(cat[0].id != cat[i].id);
        assert forall|j: int|
            0 <= j < i - 1 implies (#[trigger] cat.drop_first()[j]).id != cat.drop_first()[i
            - 1].id by {
            assert(cat.drop_first()[j] == cat[j + 1]);
        }
        lemma_catalog_at(cat.drop_first(), i - 1);
        assert(cat.drop_first()[i - 1] == cat[i]);
    }
}

/// When no entry has `id`, both lookups are empty.
proof fn lemma_catalog_none(cat: Seq<MusicalV>, id: u64)
    requires
        forall|j: int| 0 <= j < cat.len() ==> (#[trigger] cat[j]).id != id,
    ensures
        catalog_name_of(cat, id) == Seq::<char>::empty(),
        catalog_url_of(cat, id) == Seq::<char>::empty(),
    decreases cat.len(),
{
    if cat.len() == 0 {
    } else {
        assert forall|j: int|
            0 <= j < cat.drop_first().len() implies (#[trigger] cat.drop_first()[j]).id != id by {
            assert(cat.drop_first()[j] == cat[j + 1]);
        }
        lemma_catalog_none(cat.drop_first(), id);
    }
}

/// Finds the first entry with this id.
fn find_entry(catalog: &Vec<Musical>, id: u64) -> (r: Option<usize>)
    ensures
        r matches Some(i) ==> i < catalog.deep_view().len() && catalog.deep_view()[i as int].id
            == id && (forall|j: int|
            0 <= j < i ==> (#[trigger] catalog.deep_view()[j]).id != id),
        r is None ==> forall|j: int|
            0 <= j < catalog.deep_view().len() ==> (#[trigger] catalog.deep_view()[j]).id != id,
{
    let n = catalog.len();
    let mut i: usize = 0;
    while i < n
        invariant
            i <= n,
            n == catalog.len(),
            forall|j: int| 0 <= j < i ==> (#[trigger] catalog.deep_view()[j]).id != id,
        decreases n - i,
    {
        proof {
            assert(catalog.deep_view()[i as int] == catalog@[i as int]@);
        }
        if catalog[i].id == id {
            return Some(i);
        }
        i += 1;
    }
    None
}

/// The display name for a catalog id: the matching entry's name, or empty
/// for a dangling reference.
pub fn catalog_name(catalog: &Vec<Musical>, id: u64) -> (r: String)
    ensures
        r@ == catalog_name_of(catalog.deep_view(), id),
{
    match find_entry(catalog, id) {
        Some(i) => {
            proof {
                lemma_catalog_at(catalog.deep_view(), i as int);
                assert(catalog.deep_view()[i as int] == catalog@[i as int]@);
            }
            catalog[i].name().clone()
        },
        None => {
            proof {
                lemma_catalog_none(catalog.deep_view(), id);
            }
            String::new()
        },
    }
}

/// The informational link for a catalog id: an encyclopedia page keyed by
/// the entry's link target; a dangling reference yields the bare page root.
pub fn get_musical_url(catalog: &Vec<Musical>, id: u64) -> (r: String)
    ensures
        r@ == "https://en.wikipedia.org/wiki/"@ + catalog_url_of(catalog.deep_view(), id),
{
    let target = match find_entry(catalog, id) {
        Some(i) => {
            proof {
                lemma_catalog_at(catalog.deep_view(), i as int);
                assert(catalog.deep_view()[i as int] == catalog@[i as int]@);
            }
            catalog[i].url.clone()
        },
        None => {
            proof {
                lemma_catalog_none(catalog.deep_view(), id);
            }
            String::new()
        },
    };
    String::from_str("https://en.wikipedia.org/wiki/").concat(target.as_str())
}

/// The default catalog selection for a fresh item: the first entry's id, or
/// `1` for an empty catalog.
pub fn first_id(catalog: &Vec<Musical>) -> (r: u64)
    ensures
        r == (if catalog.deep_view().len() > 0 {
            catalog.deep_view()[0].id
        } else {
            1
        }),
{
    if catalog.len() > 0 {
        proof {
            assert(catalog.deep_view()[0] == catalog@[0]@);
        }
        catalog[0].id
    } else {
        1
    }
}

} // verus!
