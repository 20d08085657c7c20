//! The binary wire format of encoded payloads.
//!
//! A payload is a single self-describing value: unsigned integers carry a
//! one-byte tag (small values live in the tag itself), strings and arrays
//! carry a tag followed by a big-endian length, booleans are a single tag.
//! Writers always emit the shortest form; the parser accepts every form whose
//! value fits the target, and ignores trailing bytes, so a payload written by
//! a compatible producer still reads back.
use vstd::prelude::*;

verus! {

// ---------------------------------------------------------------------------
// Big-endian byte splits and joins
// ---------------------------------------------------------------------------
/// The two big-endian bytes of a 16-bit value.
pub open spec fn be2(n: u16) -> Seq<u8> {
    seq![((n >> 8) & 0xff) as u8, (n & 0xff) as u8]
}

/// The four big-endian bytes of a 32-bit value.
pub open spec fn be4(n: u32) -> Seq<u8> {
    seq![
        ((n >> 24) & 0xff) as u8,
        ((n >> 16) & 0xff) as u8,
        ((n >> 8) & 0xff) as u8,
        (n & 0xff) as u8,
    ]
}

/// The eight big-endian bytes of a 64-bit value.
pub open spec fn be8(n: u64) -> Seq<u8> {
    seq![
        ((n >> 56) & 0xff) as u8,
        ((n >> 48) & 0xff) as u8,
        ((n >> 40) & 0xff) as u8,
        ((n >> 32) & 0xff) as u8,
        ((n >> 24) & 0xff) as u8,
        ((n >> 16) & 0xff) as u8,
        ((n >> 8) & 0xff) as u8,
        (n & 0xff) as u8,
    ]
}

/// Joins two big-endian bytes into a 16-bit value.
pub open spec fn from_be2(b1: u8, b0: u8) -> u16 {
    (((b1 as u16) << 8) | (b0 as u16)) as u16
}

/// Joins four big-endian bytes into a 32-bit value.
pub open spec fn from_be4(b3: u8, b2: u8, b1: u8, b0: u8) -> u32 {
    (((b3 as u32) << 24) | ((b2 as u32) << 16) | ((b1 as u32) << 8) | (b0 as u32)) as u32
}

/// Joins eight big-endian bytes into a 64-bit value.
pub open spec fn from_be8(
    b7: u8,
    b6: u8,
    b5: u8,
    b4: u8,
    b3: u8,
    b2: u8,
    b1: u8,
    b0: u8,
) -> u64 {
    (((b7 as u64) << 56) | ((b6 as u64) << 48) | ((b5 as u64) << 40) | ((b4 as u64) << 32) | ((
    b3 as u64) << 24) | ((b2 as u64) << 16) | ((b1 as u64) << 8) | (b0 as u64)) as u64
}

/// Splitting a 16-bit value and joining the pieces is the identity, and each
/// piece fits a byte.
pub proof fn lemma_be2_join(n: u16)
    by (bit_vector)
    ensures
        (n >> 8) & 0xff < 256,
        n & 0xff < 256,
        ((((n >> 8) & 0xff) as u16) << 8) | ((n & 0xff) as u16) == n,
{
}

/// Splitting a 32-bit value and joining the pieces is the identity, and each
/// piece fits a byte.
pub proof fn lemma_be4_join(n: u32)
    by (bit_vector)
    ensures
        (n >> 24) & 0xff < 256,
        (n >> 16) & 0xff < 256,
        (n >> 8) & 0xff < 256,
        n & 0xff < 256,
        ((((n >> 24) & 0xff) as u32) << 24) | ((((n >> 16) & 0xff) as u32) << 16) | ((((n >> 8)
            & 0xff) as u32) << 8) | ((n & 0xff) as u32) == n,
{
}

/// Splitting a 64-bit value and joining the pieces is the identity, and each
/// piece fits a byte.
pub proof fn lemma_be8_join(n: u64)
    by (bit_vector)
    ensures
        (n >> 56) & 0xff < 256,
        (n >> 48) & 0xff < 256,
        (n >> 40) & 0xff < 256,
        (n >> 32) & 0xff < 256,
        (n >> 24) & 0xff < 256,
        (n >> 16) & 0xff < 256,
        (n >> 8) & 0xff < 256,
        n & 0xff < 256,
        ((((n >> 56) & 0xff) as u64) << 56) | ((((n >> 48) & 0xff) as u64) << 48) | ((((n >> 40)
            & 0xff) as u64) << 40) | ((((n >> 32) & 0xff) as u64) << 32) | ((((n >> 24)
            & 0xff) as u64) << 24) | ((((n >> 16) & 0xff) as u64) << 16) | ((((n >> 8)
            & 0xff) as u64) << 8) | ((n & 0xff) as u64) == n,
{
}

// ---------------------------------------------------------------------------
// Encodings of the individual value shapes
// ---------------------------------------------------------------------------
/// The shortest encoding of an unsigned integer.
pub open spec fn uint_bytes(n: u64) -> Seq<u8> {
    if n < 0x80 {
        seq![n as u8]
    } else if n < 0x100 {
        seq![0xccu8, n as u8]
    } else if n < 0x10000 {
        seq![0xcdu8] + be2(n as u16)
    } else if n < 0x1_0000_0000 {
        seq![0xceu8] + be4(n as u32)
    } else {
        seq![0xcfu8] + be8(n)
    }
}

/// The encoding of a boolean.
pub open spec fn bool_bytes(b: bool) -> Seq<u8> {
    if b {
        seq![0xc3u8]
    } else {
        seq![0xc2u8]
    }
}

/// The shortest header announcing a string of `len` bytes.
pub open spec fn str_header(len: nat) -> Seq<u8>
    recommends
        len < 0x1_0000_0000,
{
    if len < 32 {
        seq![(0xa0 + len) as u8]
    } else if len < 0x100 {
        seq![0xd9u8, len as u8]
    } else if len < 0x10000 {
        seq![0xdau8] + be2(len as u16)
    } else {
        seq![0xdbu8] + be4(len as u32)
    }
}

/// A string value: header followed by the raw bytes.
pub open spec fn str_bytes(payload: Seq<u8>) -> Seq<u8>
    recommends
        payload.len() < 0x1_0000_0000,
{
    str_header(payload.len()) + payload
}

/// The shortest header announcing an array of `len` elements.
pub open spec fn array_header(len: nat) -> Seq<u8>
    recommends
        len < 0x1_0000_0000,
{
    if len < 16 {
        seq![(0x90 + len) as u8]
    } else if len < 0x10000 {
        seq![0xdcu8] + be2(len as u16)
    } else {
        seq![0xddu8] + be4(len as u32)
    }
}

// ---------------------------------------------------------------------------
// Writers
// ---------------------------------------------------------------------------
/// Appends the two big-endian bytes of a 16-bit value.
pub fn push_be2(out: &mut Vec<u8>, n: u16)
    ensures
        final(out)@ == old(out)@ + be2(n),
{
    proof {
        lemma_be2_join(n);
    }
    out.push(((n >> 8) & 0xff) as u8);
    out.push((n & 0xff) as u8);
    proof {
        assert(out@ =~= old(out)@ + be2(n));
    }
}

/// Appends the four big-endian bytes of a 32-bit value.
pub fn push_be4(out: &mut Vec<u8>, n: u32)
    ensures
        final(out)@ == old(out)@ + be4(n),
{
    proof {
        lemma_be4_join(n);
    }
    out.push(((n >> 24) & 0xff) as u8);
    out.push(((n >> 16) & 0xff) as u8);
    out.push(((n >> 8) & 0xff) as u8);
    out.push((n & 0xff) as u8);
    proof {
        assert(out@ =~= old(out)@ + be4(n));
    }
}

/// Appends the eight big-endian bytes of a 64-bit value.
pub fn push_be8(out: &mut Vec<u8>, n: u64)
    ensures
        final(out)@ == old(out)@ + be8(n),
{
    proof {
        lemma_be8_join(n);
    }
    out.push(((n >> 56) & 0xff) as u8);
    out.push(((n >> 48) & 0xff) as u8);
    out.push(((n >> 40) & 0xff) as u8);
    out.push(((n >> 32) & 0xff) as u8);
    out.push(((n >> 24) & 0xff) as u8);
    out.push(((n >> 16) & 0xff) as u8);
    out.push(((n >> 8) & 0xff) as u8);
    out.push((n & 0xff) as u8);
    proof {
        assert(out@ =~= old(out)@ + be8(n));
    }
}

/// Appends the shortest encoding of an unsigned integer.
pub fn push_uint(out: &mut Vec<u8>, n: u64)
    ensures
        final(out)@ == old(out)@ + uint_bytes(n),
{
    if n < 0x80 {
        out.push(n as u8);
        proof {
            assert(out@ =~= old(out)@ + uint_bytes(n));
        }
    } else if n < 0x100 {
        out.push(0xcc);
        out.push(n as u8);
        proof {
            assert(out@ =~= old(out)@ + uint_bytes(n));
        }
    } else if n < 0x10000 {
        out.push(0xcd);
        push_be2(out, n as u16);
        proof {
            assert(out@ =~= old(out)@ + uint_bytes(n));
        }
    } else if n < 0x1_0000_0000 {
        out.push(0xce);
        push_be4(out, n as u32);
        proof {
            assert(out@ =~= old(out)@ + uint_bytes(n));
        }
    } else {
        out.push(0xcf);
        push_be8(out, n);
        proof {
            assert(out@ =~= old(out)@ + uint_bytes(n));
        }
    }
}

/// Appends the encoding of a boolean.
pub fn push_bool(out: &mut Vec<u8>, b: bool)
    ensures
        final(out)@ == old(out)@ + bool_bytes(b),
{
    if b {
        out.push(0xc3);
    } else {
        out.push(0xc2);
    }
    proof {
        assert(out@ =~= old(out)@ + bool_bytes(b));
    }
}

/// Appends a string value: the shortest header, then the raw bytes.
pub fn push_str_bytes(out: &mut Vec<u8>, payload: &Vec<u8>)
    requires
        payload@.len() < 0x1_0000_0000,
    ensures
        final(out)@ == old(out)@ + str_bytes(payload@),
{
    let len = payload.len();
    if len < 32 {
        out.push(0xa0 + len as u8);
    } else if len < 0x100 {
        out.push(0xd9);
        out.push(len as u8);
    } else if len < 0x10000 {
        out.push(0xda);
        push_be2(out, len as u16);
    } else {
        out.push(0xdb);
        push_be4(out, len as u32);
    }
    proof {
        assert(out@ =~= old(out)@ + str_header(payload@.len()));
    }
    out.extend_from_slice(payload.as_slice());
    proof {
        assert(out@ =~= old(out)@ + str_bytes(payload@));
    }
}

/// Appends the shortest header announcing an array of `len` elements.
pub fn push_array_header(out: &mut Vec<u8>, len: usize)
    requires
        len < 0x1_0000_0000,
    ensures
        final(out)@ == old(out)@ + array_header(len as nat),
{
    if len < 16 {
        out.push(0x90 + len as u8);
    } else if len < 0x10000 {
        out.push(0xdc);
        push_be2(out, len as u16);
    } else {
        out.push(0xdd);
        push_be4(out, len as u32);
    }
    proof {
        assert(out@ =~= old(out)@ + array_header(len as nat));
    }
}


// ---------------------------------------------------------------------------
// Parsers (specification)
// ---------------------------------------------------------------------------
/// Reads an unsigned integer at `pos`: any of the five unsigned forms.
pub open spec fn parse_uint(b: Seq<u8>, pos: int) -> Option<(u64, int)> {
    if pos < 0 || pos >= b.len() {
        None
    } else {
        let tag = b[pos];
        if tag < 0x80 {
            Some((tag as u64, pos + 1))
        } else if tag == 0xcc {
            if pos + 2 <= b.len() {
                Some((b[pos + 1] as u64, pos + 2))
            } else {
                None
            }
        } else if tag == 0xcd {
            if pos + 3 <= b.len() {
                Some((from_be2(b[pos + 1], b[pos + 2]) as u64, pos + 3))
            } else {
                None
            }
        } else if tag == 0xce {
            if pos + 5 <= b.len() {
                Some((from_be4(b[pos + 1], b[pos + 2], b[pos + 3], b[pos + 4]) as u64, pos + 5))
            } else {
                None
            }
        } else if tag == 0xcf {
            if pos + 9 <= b.len() {
                Some(
                    (
                        from_be8(
                            b[pos + 1],
                            b[pos + 2],
                            b[pos + 3],
                            b[pos + 4],
                            b[pos + 5],
                            b[pos + 6],
                            b[pos + 7],
                            b[pos + 8],
                        ),
                        pos + 9,
                    ),
                )
            } else {
                None
            }
        } else {
            None
        }
    }
}

/// Reads a boolean at `pos`.
pub open spec fn parse_bool(b: Seq<u8>, pos: int) -> Option<(bool, int)> {
    if pos < 0 || pos >= b.len() {
        None
    } else if b[pos] == 0xc2 {
        Some((false, pos + 1))
    } else if b[pos] == 0xc3 {
        Some((true, pos + 1))
    } else {
        None
    }
}

/// Reads an array header at `pos`: any of the three array forms.
pub open spec fn parse_array_len(b: Seq<u8>, pos: int) -> Option<(u64, int)> {
    if pos < 0 || pos >= b.len() {
        None
    } else {
        let tag = b[pos];
        if 0x90 <= tag && tag <= 0x9f {
            Some(((tag - 0x90) as u64, pos + 1))
        } else if tag == 0xdc {
            if pos + 3 <= b.len() {
                Some((from_be2(b[pos + 1], b[pos + 2]) as u64, pos + 3))
            } else {
                None
            }
        } else if tag == 0xdd {
            if pos + 5 <= b.len() {
                Some((from_be4(b[pos + 1], b[pos + 2], b[pos + 3], b[pos + 4]) as u64, pos + 5))
            } else {
                None
            }
        } else {
            None
        }
    }
}

/// Reads a string header at `pos`: any of the four string forms.
pub open spec fn parse_str_len(b: Seq<u8>, pos: int) -> Option<(u64, int)> {
    if pos < 0 || pos >= b.len() {
        None
    } else {
        let tag = b[pos];
        if 0xa0 <= tag && tag <= 0xbf {
            Some(((tag - 0xa0) as u64, pos + 1))
        } else if tag == 0xd9 {
            if pos + 2 <= b.len() {
                Some((b[pos + 1] as u64, pos + 2))
            } else {
                None
            }
        } else if tag == 0xda {
            if pos + 3 <= b.len() {
                Some((from_be2(b[pos + 1], b[pos + 2]) as u64, pos + 3))
            } else {
                None
            }
        } else if tag == 0xdb {
            if pos + 5 <= b.len() {
                Some((from_be4(b[pos + 1], b[pos + 2], b[pos + 3], b[pos + 4]) as u64, pos + 5))
            } else {
                None
            }
        } else {
            None
        }
    }
}

/// Reads a whole string value at `pos`: header, then that many raw bytes.
pub open spec fn parse_str_bytes(b: Seq<u8>, pos: int) -> Option<(Seq<u8>, int)> {
    match parse_str_len(b, pos) {
        None => None,
        Some((len, dp)) => if dp + len <= b.len() {
            Some((b.subrange(dp, dp + len), dp + len))
        } else {
            None
        },
    }
}

// ---------------------------------------------------------------------------
// Parsers (executable)
// ---------------------------------------------------------------------------
/// Reads an unsigned integer at `pos`.
pub fn read_uint(b: &Vec<u8>, pos: usize) -> (r: Option<(u64, usize)>)
    ensures
        r matches Some(e) ==> parse_uint(b@, pos as int) == Some((e.0, e.1 as int)) && e.1
            <= b@.len(),
        r is None ==> parse_uint(b@, pos as int) is None,
{
    if pos >= b.len() {
        return None;
    }
    let tag = b[pos];
    if tag < 0x80 {
        Some((tag as u64, pos + 1))
    } else if tag == 0xcc {
        if b.len() - pos >= 2 {
            Some((b[pos + 1] as u64, pos + 2))
        } else {
            None
        }
    } else if tag == 0xcd {
        if b.len() - pos >= 3 {
            let v = ((b[pos + 1] as u16) << 8u16) | (b[pos + 2] as u16);
            Some((v as u64, pos + 3))
        } else {
            None
        }
    } else if tag == 0xce {
        if b.len() - pos >= 5 {
            let v = ((b[pos + 1] as u32) << 24u32) | ((b[pos + 2] as u32) << 16u32) | ((b[pos
                + 3] as u32) << 8u32) | (b[pos + 4] as u32);
            Some((v as u64, pos + 5))
        } else {
            None
        }
    } else if tag == 0xcf {
        if b.len() - pos >= 9 {
            let v = ((b[pos + 1] as u64) << 56u64) | ((b[pos + 2] as u64) << 48u64) | ((b[pos
                + 3] as u64) << 40u64) | ((b[pos + 4] as u64) << 32u64) | ((b[pos + 5] as u64)
                << 24u64) | ((b[pos + 6] as u64) << 16u64) | ((b[pos + 7] as u64) << 8u64) | (b[pos
                + 8] as u64);
            Some((v, pos + 9))
        } else {
            None
        }
    } else {
        None
    }
}

/// Reads a boolean at `pos`.
pub fn read_bool(b: &Vec<u8>, pos: usize) -> (r: Option<(bool, usize)>)
    ensures
        r matches Some(e) ==> parse_bool(b@, pos as int) == Some((e.0, e.1 as int)) && e.1
            <= b@.len(),
        r is None ==> parse_bool(b@, pos as int) is None,
{
    if pos >= b.len() {
        return None;
    }
    let tag = b[pos];
    if tag == 0xc2 {
        Some((false, pos + 1))
    } else if tag == 0xc3 {
        Some((true, pos + 1))
    } else {
        None
    }
}

/// Reads an array header at `pos`.
pub fn read_array_len(b: &Vec<u8>, pos: usize) -> (r: Option<(u64, usize)>)
    ensures
        r matches Some(e) ==> parse_array_len(b@, pos as int) == Some((e.0, e.1 as int)) && e.1
            <= b@.len(),
        r is None ==> parse_array_len(b@, pos as int) is None,
{
    if pos >= b.len() {
        return None;
    }
    let tag = b[pos];
    if 0x90 <= tag && tag <= 0x9f {
        Some(((tag - 0x90) as u64, pos + 1))
    } else if tag == 0xdc {
        if b.len() - pos >= 3 {
            let v = ((b[pos + 1] as u16) << 8u16) | (b[pos + 2] as u16);
            Some((v as u64, pos + 3))
        } else {
            None
        }
    } else if tag == 0xdd {
        if b.len() - pos >= 5 {
            let v = ((b[pos + 1] as u32) << 24u32) | ((b[pos + 2] as u32) << 16u32) | ((b[pos
                + 3] as u32) << 8u32) | (b[pos + 4] as u32);
            Some((v as u64, pos + 5))
        } else {
            None
        }
    } else {
        None
    }
}

/// Reads a whole string value at `pos` and copies out its raw bytes.
pub fn read_str_bytes(b: &Vec<u8>, pos: usize) -> (r: Option<(Vec<u8>, usize)>)
    ensures
        r matches Some(e) ==> (parse_str_bytes(b@, pos as int) matches Some(t) && e.0@ == t.0
            && e.1 as int == t.1 && e.1 <= b@.len()),
        r is None ==> parse_str_bytes(b@, pos as int) is None,
{
    let header: Option<(u64, usize)> = if pos >= b.len() {
        None
    } else {
        let tag = b[pos];
        if 0xa0 <= tag && tag <= 0xbf {
            Some(((tag - 0xa0) as u64, pos + 1))
        } else if tag == 0xd9 {
            if b.len() - pos >= 2 {
                Some((b[pos + 1] as u64, pos + 2))
            } else {
                None
            }
        } else if tag == 0xda {
            if b.len() - pos >= 3 {
                let v = ((b[pos + 1] as u16) << 8u16) | (b[pos + 2] as u16);
                Some((v as u64, pos + 3))
            } else {
                None
            }
        } else if tag == 0xdb {
            if b.len() - pos >= 5 {
                let v = ((b[pos + 1] as u32) << 24u32) | ((b[pos + 2] as u32) << 16u32) | ((b[pos
                    + 3] as u32) << 8u32) | (b[pos + 4] as u32);
                Some((v as u64, pos + 5))
            } else {
                None
            }
        } else {
            None
        }
    };
    proof {
        match header {
            Some(e) => {
                assert(parse_str_len(b@, pos as int) == Some((e.0, e.1 as int)));
            },
            None => {
                assert(parse_str_len(b@, pos as int) is None);
            },
        }
    }
    match header {
        None => None,
        Some((len, dp)) => {
            if len <= (b.len() - dp) as u64 {
                let end = dp + (len as usize);
                let part: &[u8] = &b.as_slice()[dp..end];
                let payload = vstd::slice::slice_to_vec(part);
                Some((payload, end))
            } else {
                None
            }
        },
    }
}


// ---------------------------------------------------------------------------
// Round trips: a written value reads back
// ---------------------------------------------------------------------------
/// When the encoding of `n` sits at `pos`, reading an unsigned integer there
/// yields `n` and stops right after it.
pub proof fn lemma_parse_uint_at(b: Seq<u8>, pos: int, n: u64)
    requires
        0 <= pos,
        pos + uint_bytes(n).len() <= b.len(),
        b.subrange(pos, pos + uint_bytes(n).len() as int) == uint_bytes(n),
    ensures
        parse_uint(b, pos) == Some((n, pos + uint_bytes(n).len() as int)),
{
    let e = uint_bytes(n);
    assert forall|i: int| pos <= i < pos + e.len() implies b[i] == e[i - pos] by {
        assert(b.subrange(pos, pos + e.len() as int)[i - pos] == b[i]);
    }
    if n < 0x80 {
        assert(b[pos] == n as u8);
    } else if n < 0x100 {
        assert(b[pos] == 0xcc && b[pos + 1] == n as u8);
    } else if n < 0x10000 {
        let m = n as u16;
        lemma_be2_join(m);
        assert(b[pos] == 0xcd);
        assert(b[pos + 1] == ((m >> 8) & 0xff) as u8);
        assert(b[pos + 2] == (m & 0xff) as u8);
        assert(from_be2(b[pos + 1], b[pos + 2]) == m);
    } else if n < 0x1_0000_0000 {
        let m = n as u32;
        lemma_be4_join(m);
        assert(b[pos] == 0xce);
        assert(b[pos + 1] == ((m >> 24) & 0xff) as u8);
        assert(b[pos + 2] == ((m >> 16) & 0xff) as u8);
        assert(b[pos + 3] == ((m >> 8) & 0xff) as u8);
        assert(b[pos + 4] == (m & 0xff) as u8);
        assert(from_be4(b[pos + 1], b[pos + 2], b[pos + 3], b[pos + 4]) == m);
    } else {
        lemma_be8_join(n);
        assert(b[pos] == 0xcf);
        assert(from_be8(
            b[pos + 1],
            b[pos + 2],
            b[pos + 3],
            b[pos + 4],
            b[pos + 5],
            b[pos + 6],
            b[pos + 7],
            b[pos + 8],
        ) == n);
    }
}

/// When the encoding of `v` sits at `pos`, reading a boolean there yields `v`.
pub proof fn lemma_parse_bool_at(b: Seq<u8>, pos: int, v: bool)
    requires
        0 <= pos,
        pos + bool_bytes(v).len() <= b.len(),
        b.subrange(pos, pos + bool_bytes(v).len() as int) == bool_bytes(v),
    ensures
        parse_bool(b, pos) == Some((v, pos + bool_bytes(v).len() as int)),
{
    assert(b.subrange(pos, pos + 1)[0] == b[pos]);
}

/// When an array header for `len` elements sits at `pos`, reading an array
/// header there yields `len`.
pub proof fn lemma_parse_array_header_at(b: Seq<u8>, pos: int, len: nat)
    requires
        0 <= pos,
        len < 0x1_0000_0000,
        pos + array_header(len).len() <= b.len(),
        b.subrange(pos, pos + array_header(len).len() as int) == array_header(len),
    ensures
        parse_array_len(b, pos) == Some((len as u64, pos + array_header(len).len() as int)),
{
    let e = array_header(len);
    assert forall|i: int| pos <= i < pos + e.len() implies b[i] == e[i - pos] by {
        assert(b.subrange(pos, pos + e.len() as int)[i - pos] == b[i]);
    }
    if len < 16 {
        assert(b[pos] == (0x90 + len) as u8);
    } else if len < 0x10000 {
        let m = len as u16;
        lemma_be2_join(m);
        assert(b[pos] == 0xdc);
        assert(from_be2(b[pos + 1], b[pos + 2]) == m);
    } else {
        let m = len as u32;
        lemma_be4_join(m);
        assert(b[pos] == 0xdd);
        assert(from_be4(b[pos + 1], b[pos + 2], b[pos + 3], b[pos + 4]) == m);
    }
}

/// When a whole string value with payload `p` sits at `pos`, reading a string
/// there yields exactly `p`.
pub proof fn lemma_parse_str_at(b: Seq<u8>, pos: int, p: Seq<u8>)
    requires
        0 <= pos,
        p.len() < 0x1_0000_0000,
        pos + str_bytes(p).len() <= b.len(),
        b.subrange(pos, pos + str_bytes(p).len() as int) == str_bytes(p),
    ensures
        parse_str_bytes(b, pos) == Some((p, pos + str_bytes(p).len() as int)),
{
    let e = str_bytes(p);
    let h = str_header(p.len());
    assert forall|i: int| pos <= i < pos + e.len() implies b[i] == e[i - pos] by {
        assert(b.subrange(pos, pos + e.len() as int)[i - pos] == b[i]);
    }
    let hl = h.len() as int;
    if p.len() < 32 {
        assert(b[pos] == (0xa0 + p.len()) as u8);
        assert(parse_str_len(b, pos) == Some((p.len() as u64, pos + 1)));
    } else if p.len() < 0x100 {
        assert(b[pos] == 0xd9);
        assert(b[pos + 1] == p.len() as u8);
        assert(parse_str_len(b, pos) == Some((p.len() as u64, pos + 2)));
    } else if p.len() < 0x10000 {
        let m = p.len() as u16;
        lemma_be2_join(m);
        assert(b[pos] == 0xda);
        assert(from_be2(b[pos + 1], b[pos + 2]) == m);
        assert(parse_str_len(b, pos) == Some((p.len() as u64, pos + 3)));
    } else {
        let m = p.len() as u32;
        lemma_be4_join(m);
        assert(b[pos] == 0xdb);
        assert(from_be4(b[pos + 1], b[pos + 2], b[pos + 3], b[pos + 4]) == m);
        assert(parse_str_len(b, pos) == Some((p.len() as u64, pos + 5)));
    }
    assert(b.subrange(pos + hl, pos + hl + p.len() as int) =~= p) by {
        assert forall|i: int| 0 <= i < p.len() implies b[pos + hl + i] == p[i] by {
            assert(b[pos + hl + i] == e[hl + i]);
            assert(e[hl + i] == p[i]);
        }
    }
}

} // verus!
