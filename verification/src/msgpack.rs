//! MessagePack codec primitives.
//!
//! Readers consume a byte buffer at a position and produce array lengths, map
//! lengths, unsigned integers narrowed to 16/32/64/usize bits, 64-bit float
//! bit patterns, and UTF-8 strings; writers emit the same in the shortest
//! encoding. Every reader and writer is proved against a specification
//! function that defines the wire format byte by byte.

use vstd::prelude::*;
use vstd::string::StrSliceExecFns;
use vstd::utf8::{decode_utf8, encode_utf8, valid_utf8};

use crate::Error;

verus! {

// ---------------------------------------------------------------------------
// Specification of the wire format: decoding
// ---------------------------------------------------------------------------
/// Decode an unsigned integer (positive fixint or uint 8/16/32/64 family)
/// at position `p`; yields the value and the position after it.
pub open spec fn dec_uint(b: Seq<u8>, p: int) -> Option<(u64, int)> {
    if p < 0 || p >= b.len() {
        None
    } else {
        let m = b[p];
        if m < 0x80 {
            Some((m as u64, p + 1))
        } else if m == 0xcc {
            if p + 2 <= b.len() {
                Some((b[p + 1] as u64, p + 2))
            } else {
                None
            }
        } else if m == 0xcd {
            if p + 3 <= b.len() {
                Some((((b[p + 1] as u64) << 8) | (b[p + 2] as u64), p + 3))
            } else {
                None
            }
        } else if m == 0xce {
            if p + 5 <= b.len() {
                Some(
                    (
                        ((b[p + 1] as u64) << 24) | ((b[p + 2] as u64) << 16) | ((b[p + 3]
                            as u64) << 8) | (b[p + 4] as u64),
                        p + 5,
                    ),
                )
            } else {
                None
            }
        } else if m == 0xcf {
            if p + 9 <= b.len() {
                Some(
                    (
                        ((b[p + 1] as u64) << 56) | ((b[p + 2] as u64) << 48) | ((b[p + 3]
                            as u64) << 40) | ((b[p + 4] as u64) << 32) | ((b[p + 5] as u64) << 24)
                            | ((b[p + 6] as u64) << 16) | ((b[p + 7] as u64) << 8) | (b[p + 8]
                            as u64),
                        p + 9,
                    ),
                )
            } else {
                None
            }
        } else {
            None
        }
    }
}

/// Decode an unsigned integer that must fit in 16 bits.
pub open spec fn dec_u16(b: Seq<u8>, p: int) -> Option<(u16, int)> {
    match dec_uint(b, p) {
        Some((v, p2)) => if v <= u16::MAX as u64 {
            Some((v as u16, p2))
        } else {
            None
        },
        None => None,
    }
}

/// Decode an unsigned integer that must fit in 32 bits.
pub open spec fn dec_u32(b: Seq<u8>, p: int) -> Option<(u32, int)> {
    match dec_uint(b, p) {
        Some((v, p2)) => if v <= u32::MAX as u64 {
            Some((v as u32, p2))
        } else {
            None
        },
        None => None,
    }
}

/// Decode an unsigned integer that must fit in a usize.
pub open spec fn dec_usize(b: Seq<u8>, p: int) -> Option<(usize, int)> {
    match dec_uint(b, p) {
        Some((v, p2)) => if v <= usize::MAX as u64 {
            Some((v as usize, p2))
        } else {
            None
        },
        None => None,
    }
}

/// Decode an array header (fixarray or array 16/32); yields the element count.
pub open spec fn dec_array_len(b: Seq<u8>, p: int) -> Option<(u32, int)> {
    if p < 0 || p >= b.len() {
        None
    } else {
        let m = b[p];
        if 0x90 <= m && m <= 0x9f {
            Some(((m & 0x0f) as u32, p + 1))
        } else if m == 0xdc {
            if p + 3 <= b.len() {
                Some((((b[p + 1] as u32) << 8) | (b[p + 2] as u32), p + 3))
            } else {
                None
            }
        } else if m == 0xdd {
            if p + 5 <= b.len() {
                Some(
                    (
                        ((b[p + 1] as u32) << 24) | ((b[p + 2] as u32) << 16) | ((b[p + 3]
                            as u32) << 8) | (b[p + 4] as u32),
                        p + 5,
                    ),
                )
            } else {
                None
            }
        } else {
            None
        }
    }
}

/// Decode a map header (fixmap or map 16/32); yields the entry count.
pub open spec fn dec_map_len(b: Seq<u8>, p: int) -> Option<(u32, int)> {
    if p < 0 || p >= b.len() {
        None
    } else {
        let m = b[p];
        if 0x80 <= m && m <= 0x8f {
            Some(((m & 0x0f) as u32, p + 1))
        } else if m == 0xde {
            if p + 3 <= b.len() {
                Some((((b[p + 1] as u32) << 8) | (b[p + 2] as u32), p + 3))
            } else {
                None
            }
        } else if m == 0xdf {
            if p + 5 <= b.len() {
                Some(
                    (
                        ((b[p + 1] as u32) << 24) | ((b[p + 2] as u32) << 16) | ((b[p + 3]
                            as u32) << 8) | (b[p + 4] as u32),
                        p + 5,
                    ),
                )
            } else {
                None
            }
        } else {
            None
        }
    }
}

/// Decode a string header (fixstr or str 8/16/32); yields the byte length.
pub open spec fn dec_str_len(b: Seq<u8>, p: int) -> Option<(u32, int)> {
    if p < 0 || p >= b.len() {
        None
    } else {
        let m = b[p];
        if 0xa0 <= m && m <= 0xbf {
            Some(((m & 0x1f) as u32, p + 1))
        } else if m == 0xd9 {
            if p + 2 <= b.len() {
                Some((b[p + 1] as u32, p + 2))
            } else {
                None
            }
        } else if m == 0xda {
            if p + 3 <= b.len() {
                Some((((b[p + 1] as u32) << 8) | (b[p + 2] as u32), p + 3))
            } else {
                None
            }
        } else if m == 0xdb {
            if p + 5 <= b.len() {
                Some(
                    (
                        ((b[p + 1] as u32) << 24) | ((b[p + 2] as u32) << 16) | ((b[p + 3]
                            as u32) << 8) | (b[p + 4] as u32),
                        p + 5,
                    ),
                )
            } else {
                None
            }
        } else {
            None
        }
    }
}

/// Decode a length-prefixed UTF-8 string; fails on truncation or bytes that
/// are not valid UTF-8.
pub open spec fn dec_str(b: Seq<u8>, p: int) -> Option<(Seq<char>, int)> {
    match dec_str_len(b, p) {
        Some((n, p2)) => if p2 + n <= b.len() && valid_utf8(b.subrange(p2, p2 + n)) {
            Some((decode_utf8(b.subrange(p2, p2 + n)), p2 + n))
        } else {
            None
        },
        None => None,
    }
}

/// Decode a 64-bit float as its raw IEEE 754 bit pattern.
pub open spec fn dec_f64_bits(b: Seq<u8>, p: int) -> Option<(u64, int)> {
    if p < 0 || p >= b.len() {
        None
    } else if b[p] == 0xcb && p + 9 <= b.len() {
        Some(
            (
                ((b[p + 1] as u64) << 56) | ((b[p + 2] as u64) << 48) | ((b[p + 3] as u64) << 40)
                    | ((b[p + 4] as u64) << 32) | ((b[p + 5] as u64) << 24) | ((b[p + 6]
                    as u64) << 16) | ((b[p + 7] as u64) << 8) | (b[p + 8] as u64),
                p + 9,
            ),
        )
    } else {
        None
    }
}

// ---------------------------------------------------------------------------
// Specification of the wire format: encoding (shortest form)
// ---------------------------------------------------------------------------
/// Encode an unsigned integer in the shortest MessagePack form.
pub open spec fn enc_uint(v: u64) -> Seq<u8> {
    if v < 0x80 {
        seq![v as u8]
    } else if v <= 0xff {
        seq![0xccu8, v as u8]
    } else if v <= 0xffff {
        seq![0xcdu8, (v >> 8) as u8, v as u8]
    } else if v <= 0xffff_ffff {
        seq![0xceu8, (v >> 24) as u8, (v >> 16) as u8, (v >> 8) as u8, v as u8]
    } else {
        seq![
            0xcfu8,
            (v >> 56) as u8,
            (v >> 48) as u8,
            (v >> 40) as u8,
            (v >> 32) as u8,
            (v >> 24) as u8,
            (v >> 16) as u8,
            (v >> 8) as u8,
            v as u8,
        ]
    }
}

/// Encode an array header in the shortest form.
pub open spec fn enc_array_len(n: u32) -> Seq<u8> {
    if n < 16 {
        seq![0x90u8 | n as u8]
    } else if n <= 0xffff {
        seq![0xdcu8, (n >> 8) as u8, n as u8]
    } else {
        seq![0xddu8, (n >> 24) as u8, (n >> 16) as u8, (n >> 8) as u8, n as u8]
    }
}

/// Encode a map header in the shortest form.
pub open spec fn enc_map_len(n: u32) -> Seq<u8> {
    if n < 16 {
        seq![0x80u8 | n as u8]
    } else if n <= 0xffff {
        seq![0xdeu8, (n >> 8) as u8, n as u8]
    } else {
        seq![0xdfu8, (n >> 24) as u8, (n >> 16) as u8, (n >> 8) as u8, n as u8]
    }
}

/// Encode a string header in the shortest form.
pub open spec fn enc_str_len(n: u32) -> Seq<u8> {
    if n < 32 {
        seq![0xa0u8 | n as u8]
    } else if n <= 0xff {
        seq![0xd9u8, n as u8]
    } else if n <= 0xffff {
        seq![0xdau8, (n >> 8) as u8, n as u8]
    } else {
        seq![0xdbu8, (n >> 24) as u8, (n >> 16) as u8, (n >> 8) as u8, n as u8]
    }
}

/// Encode a string: header followed by its UTF-8 bytes. Meaningful when the
/// byte length fits in 32 bits, which every writer requires.
pub open spec fn enc_str(s: Seq<char>) -> Seq<u8> {
    enc_str_len(encode_utf8(s).len() as u32) + encode_utf8(s)
}

/// Encode a 64-bit float given as its raw IEEE 754 bit pattern.
pub open spec fn enc_f64_bits(v: u64) -> Seq<u8> {
    seq![
        0xcbu8,
        (v >> 56) as u8,
        (v >> 48) as u8,
        (v >> 40) as u8,
        (v >> 32) as u8,
        (v >> 24) as u8,
        (v >> 16) as u8,
        (v >> 8) as u8,
        v as u8,
    ]
}

// ---------------------------------------------------------------------------
// Readers
// ---------------------------------------------------------------------------
/// Read an unsigned 64-bit integer. On failure the position is unchanged.
pub fn read_u64(buf: &Vec<u8>, pos: &mut usize) -> (r: Result<u64, Error>)
    ensures
        match dec_uint(buf@, *old(pos) as int) {
            Some(vp) => r == Ok::<u64, Error>(vp.0) && *final(pos) == vp.1,
            None => r == Err::<u64, Error>(Error::MalformedInput) && *final(pos) == *old(pos),
        },
{
    let n = buf.len();
    if *pos >= n {
        return Err(Error::MalformedInput);
    }
    let m = buf[*pos];
    if m < 0x80 {
        *pos = *pos + 1;
        Ok(m as u64)
    } else if m == 0xcc {
        if n - *pos >= 2 {
            let v = buf[*pos + 1] as u64;
            *pos = *pos + 2;
            Ok(v)
        } else {
            Err(Error::MalformedInput)
        }
    } else if m == 0xcd {
        if n - *pos >= 3 {
            let v = ((buf[*pos + 1] as u64) << 8) | (buf[*pos + 2] as u64);
            *pos = *pos + 3;
            Ok(v)
        } else {
            Err(Error::MalformedInput)
        }
    } else if m == 0xce {
        if n - *pos >= 5 {
            let v = ((buf[*pos + 1] as u64) << 24) | ((buf[*pos + 2] as u64) << 16) | ((buf[*pos
                + 3] as u64) << 8) | (buf[*pos + 4] as u64);
            *pos = *pos + 5;
            Ok(v)
        } else {
            Err(Error::MalformedInput)
        }
    } else if m == 0xcf {
        if n - *pos >= 9 {
            let v = ((buf[*pos + 1] as u64) << 56) | ((buf[*pos + 2] as u64) << 48) | ((buf[*pos
                + 3] as u64) << 40) | ((buf[*pos + 4] as u64) << 32) | ((buf[*pos + 5] as u64)
                << 24) | ((buf[*pos + 6] as u64) << 16) | ((buf[*pos + 7] as u64) << 8) | (buf[*pos
                + 8] as u64);
            *pos = *pos + 9;
            Ok(v)
        } else {
            Err(Error::MalformedInput)
        }
    } else {
        Err(Error::MalformedInput)
    }
}

/// Read an unsigned integer narrowed to 16 bits.
pub fn read_u16(buf: &Vec<u8>, pos: &mut usize) -> (r: Result<u16, Error>)
    ensures
        match dec_u16(buf@, *old(pos) as int) {
            Some(vp) => r == Ok::<u16, Error>(vp.0) && *final(pos) == vp.1,
            None => r == Err::<u16, Error>(Error::MalformedInput) && *final(pos) == *old(pos),
        },
{
    let saved = *pos;
    match read_u64(buf, pos) {
        Ok(v) => if v <= u16::MAX as u64 {
            Ok(v as u16)
        } else {
            *pos = saved;
            Err(Error::MalformedInput)
        },
        Err(e) => Err(e),
    }
}

/// Read an unsigned integer narrowed to 32 bits.
pub fn read_u32(buf: &Vec<u8>, pos: &mut usize) -> (r: Result<u32, Error>)
    ensures
        match dec_u32(buf@, *old(pos) as int) {
            Some(vp) => r == Ok::<u32, Error>(vp.0) && *final(pos) == vp.1,
            None => r == Err::<u32, Error>(Error::MalformedInput) && *final(pos) == *old(pos),
        },
{
    let saved = *pos;
    match read_u64(buf, pos) {
        Ok(v) => if v <= u32::MAX as u64 {
            Ok(v as u32)
        } else {
            *pos = saved;
            Err(Error::MalformedInput)
        },
        Err(e) => Err(e),
    }
}

/// Read an unsigned integer narrowed to a usize.
pub fn read_usize(buf: &Vec<u8>, pos: &mut usize) -> (r: Result<usize, Error>)
    ensures
        match dec_usize(buf@, *old(pos) as int) {
            Some(vp) => r == Ok::<usize, Error>(vp.0) && *final(pos) == vp.1,
            None => r == Err::<usize, Error>(Error::MalformedInput) && *final(pos) == *old(pos),
        },
{
    let saved = *pos;
    match read_u64(buf, pos) {
        Ok(v) => if v <= usize::MAX as u64 {
            Ok(v as usize)
        } else {
            *pos = saved;
            Err(Error::MalformedInput)
        },
        Err(e) => Err(e),
    }
}

/// Read an array header; yields the element count.
pub fn read_array_len(buf: &Vec<u8>, pos: &mut usize) -> (r: Result<u32, Error>)
    ensures
        match dec_array_len(buf@, *old(pos) as int) {
            Some(vp) => r == Ok::<u32, Error>(vp.0) && *final(pos) == vp.1,
            None => r == Err::<u32, Error>(Error::MalformedInput) && *final(pos) == *old(pos),
        },
{
    let n = buf.len();
    if *pos >= n {
        return Err(Error::MalformedInput);
    }
    let m = buf[*pos];
    if 0x90 <= m && m <= 0x9f {
        *pos = *pos + 1;
        Ok((m & 0x0f) as u32)
    } else if m == 0xdc {
        if n - *pos >= 3 {
            let v = ((buf[*pos + 1] as u32) << 8) | (buf[*pos + 2] as u32);
            *pos = *pos + 3;
            Ok(v)
        } else {
            Err(Error::MalformedInput)
        }
    } else if m == 0xdd {
        if n - *pos >= 5 {
            let v = ((buf[*pos + 1] as u32) << 24) | ((buf[*pos + 2] as u32) << 16) | ((buf[*pos
                + 3] as u32) << 8) | (buf[*pos + 4] as u32);
            *pos = *pos + 5;
            Ok(v)
        } else {
            Err(Error::MalformedInput)
        }
    } else {
        Err(Error::MalformedInput)
    }
}

/// Read a map header; yields the entry count.
pub fn read_map_len(buf: &Vec<u8>, pos: &mut usize) -> (r: Result<u32, Error>)
    ensures
        match dec_map_len(buf@, *old(pos) as int) {
            Some(vp) => r == Ok::<u32, Error>(vp.0) && *final(pos) == vp.1,
            None => r == Err::<u32, Error>(Error::MalformedInput) && *final(pos) == *old(pos),
        },
{
    let n = buf.len();
    if *pos >= n {
        return Err(Error::MalformedInput);
    }
    let m = buf[*pos];
    if 0x80 <= m && m <= 0x8f {
        *pos = *pos + 1;
        Ok((m & 0x0f) as u32)
    } else if m == 0xde {
        if n - *pos >= 3 {
            let v = ((buf[*pos + 1] as u32) << 8) | (buf[*pos + 2] as u32);
            *pos = *pos + 3;
            Ok(v)
        } else {
            Err(Error::MalformedInput)
        }
    } else if m == 0xdf {
        if n - *pos >= 5 {
            let v = ((buf[*pos + 1] as u32) << 24) | ((buf[*pos + 2] as u32) << 16) | ((buf[*pos
                + 3] as u32) << 8) | (buf[*pos + 4] as u32);
            *pos = *pos + 5;
            Ok(v)
        } else {
            Err(Error::MalformedInput)
        }
    } else {
        Err(Error::MalformedInput)
    }
}

/// Read a string header; yields the byte length.
pub fn read_str_len(buf: &Vec<u8>, pos: &mut usize) -> (r: Result<u32, Error>)
    ensures
        match dec_str_len(buf@, *old(pos) as int) {
            Some(vp) => r == Ok::<u32, Error>(vp.0) && *final(pos) == vp.1,
            None => r == Err::<u32, Error>(Error::MalformedInput) && *final(pos) == *old(pos),
        },
{
    let n = buf.len();
    if *pos >= n {
        return Err(Error::MalformedInput);
    }
    let m = buf[*pos];
    if 0xa0 <= m && m <= 0xbf {
        *pos = *pos + 1;
        Ok((m & 0x1f) as u32)
    } else if m == 0xd9 {
        if n - *pos >= 2 {
            let v = buf[*pos + 1] as u32;
            *pos = *pos + 2;
            Ok(v)
        } else {
            Err(Error::MalformedInput)
        }
    } else if m == 0xda {
        if n - *pos >= 3 {
            let v = ((buf[*pos + 1] as u32) << 8) | (buf[*pos + 2] as u32);
            *pos = *pos + 3;
            Ok(v)
        } else {
            Err(Error::MalformedInput)
        }
    } else if m == 0xdb {
        if n - *pos >= 5 {
            let v = ((buf[*pos + 1] as u32) << 24) | ((buf[*pos + 2] as u32) << 16) | ((buf[*pos
                + 3] as u32) << 8) | (buf[*pos + 4] as u32);
            *pos = *pos + 5;
            Ok(v)
        } else {
            Err(Error::MalformedInput)
        }
    } else {
        Err(Error::MalformedInput)
    }
}

/// Copy `n` bytes of `buf` starting at `start` into a fresh vector.
fn take_bytes(buf: &Vec<u8>, start: usize, n: usize) -> (r: Vec<u8>)
    requires
        start + n <= buf@.len(),
    ensures
        r@ == buf@.subrange(start as int, start as int + n as int),
{
    let len = buf.len();
    let mut out: Vec<u8> = Vec::new();
    let mut i: usize = 0;
    while i < n
        invariant
            start + n <= len == buf@.len(),
            i <= n,
            out@ == buf@.subrange(start as int, start as int + i as int),
        decreases n - i,
    {
        out.push(buf[start + i]);
        proof {
            assert(out@ =~= buf@.subrange(start as int, start as int + i as int + 1));
        }
        i = i + 1;
    }
    out
}

/// Relies on `String::from_utf8`: it succeeds exactly on valid UTF-8 input
/// and the resulting string holds the decoding of those bytes.
#[verifier::external_body]
fn string_from_utf8(bytes: Vec<u8>) -> (r: Option<String>)
    ensures
        r is Some <==> valid_utf8(bytes@),
        r matches Some(s) ==> s@ == decode_utf8(bytes@),
{
    String::from_utf8(bytes).ok()
}

/// Read a length-prefixed UTF-8 string. On failure (truncation or invalid
/// UTF-8) the position is unchanged.
pub fn read_str(buf: &Vec<u8>, pos: &mut usize) -> (r: Result<String, Error>)
    ensures
        match dec_str(buf@, *old(pos) as int) {
            Some(sp) => r matches Ok(s) && s@ == sp.0 && *final(pos) == sp.1,
            None => r matches Err(e) && e == Error::MalformedInput && *final(pos) == *old(pos),
        },
{
    let saved = *pos;
    let len = match read_str_len(buf, pos) {
        Ok(v) => v,
        Err(e) => {
            return Err(e);
        },
    };
    if (len as u64) > (usize::MAX as u64) || buf.len() - *pos < len as usize {
        *pos = saved;
        return Err(Error::MalformedInput);
    }
    let n = len as usize;
    let bytes = take_bytes(buf, *pos, n);
    match string_from_utf8(bytes) {
        Some(s) => {
            *pos = *pos + n;
            Ok(s)
        },
        None => {
            *pos = saved;
            Err(Error::MalformedInput)
        },
    }
}

/// Read a 64-bit float as its raw IEEE 754 bit pattern.
pub fn read_f64_bits(buf: &Vec<u8>, pos: &mut usize) -> (r: Result<u64, Error>)
    ensures
        match dec_f64_bits(buf@, *old(pos) as int) {
            Some(vp) => r == Ok::<u64, Error>(vp.0) && *final(pos) == vp.1,
            None => r == Err::<u64, Error>(Error::MalformedInput) && *final(pos) == *old(pos),
        },
{
    let n = buf.len();
    if *pos >= n {
        return Err(Error::MalformedInput);
    }
    if buf[*pos] == 0xcb && n - *pos >= 9 {
        let v = ((buf[*pos + 1] as u64) << 56) | ((buf[*pos + 2] as u64) << 48) | ((buf[*pos + 3]
            as u64) << 40) | ((buf[*pos + 4] as u64) << 32) | ((buf[*pos + 5] as u64) << 24) | ((
        buf[*pos + 6] as u64) << 16) | ((buf[*pos + 7] as u64) << 8) | (buf[*pos + 8] as u64);
        *pos = *pos + 9;
        Ok(v)
    } else {
        Err(Error::MalformedInput)
    }
}

// ---------------------------------------------------------------------------
// The generic value skipper
// ---------------------------------------------------------------------------
/// The position after one whole MessagePack value at `p`, whatever its
/// family; `None` on truncation or the reserved marker.
pub open spec fn spec_skip(b: Seq<u8>, p: int) -> Option<int>
    decreases b.len() - p, 0int,
{
    if p < 0 || p >= b.len() {
        None
    } else {
        let m = b[p];
        if m < 0x80 {
            Some(p + 1)
        } else if m < 0x90 {
            spec_skip_n(b, p + 1, 2 * ((m & 0x0f) as int))
        } else if m < 0xa0 {
            spec_skip_n(b, p + 1, (m & 0x0f) as int)
        } else if m < 0xc0 {
            if p + 1 + ((m & 0x1f) as int) <= b.len() {
                Some(p + 1 + ((m & 0x1f) as int))
            } else {
                None
            }
        } else if m == 0xc0 || m == 0xc2 || m == 0xc3 {
            Some(p + 1)
        } else if m == 0xc4 || m == 0xd9 {
            if p + 2 <= b.len() && p + 2 + (b[p + 1] as int) <= b.len() {
                Some(p + 2 + (b[p + 1] as int))
            } else {
                None
            }
        } else if m == 0xc5 || m == 0xda {
            if p + 3 <= b.len() && p + 3 + ((b[p + 1] as int) * 256 + (b[p + 2] as int))
                <= b.len() {
                Some(p + 3 + ((b[p + 1] as int) * 256 + (b[p + 2] as int)))
            } else {
                None
            }
        } else if m == 0xc6 || m == 0xdb {
            if p + 5 <= b.len() && p + 5 + (((b[p + 1] as int) * 0x1000000) + ((b[p + 2]
                as int) * 0x10000) + ((b[p + 3] as int) * 0x100) + (b[p + 4] as int)) <= b.len() {
                Some(
                    p + 5 + (((b[p + 1] as int) * 0x1000000) + ((b[p + 2] as int) * 0x10000) + ((
                    b[p + 3] as int) * 0x100) + (b[p + 4] as int)),
                )
            } else {
                None
            }
        } else if m == 0xc7 {
            if p + 3 <= b.len() && p + 3 + (b[p + 1] as int) <= b.len() {
                Some(p + 3 + (b[p + 1] as int))
            } else {
                None
            }
        } else if m == 0xc8 {
            if p + 4 <= b.len() && p + 4 + ((b[p + 1] as int) * 256 + (b[p + 2] as int))
                <= b.len() {
                Some(p + 4 + ((b[p + 1] as int) * 256 + (b[p + 2] as int)))
            } else {
                None
            }
        } else if m == 0xc9 {
            if p + 6 <= b.len() && p + 6 + (((b[p + 1] as int) * 0x1000000) + ((b[p + 2]
                as int) * 0x10000) + ((b[p + 3] as int) * 0x100) + (b[p + 4] as int)) <= b.len() {
                Some(
                    p + 6 + (((b[p + 1] as int) * 0x1000000) + ((b[p + 2] as int) * 0x10000) + ((
                    b[p + 3] as int) * 0x100) + (b[p + 4] as int)),
                )
            } else {
                None
            }
        } else if m == 0xca {
            if p + 5 <= b.len() {
                Some(p + 5)
            } else {
                None
            }
        } else if m == 0xcb {
            if p + 9 <= b.len() {
                Some(p + 9)
            } else {
                None
            }
        } else if m == 0xcc || m == 0xd0 {
            if p + 2 <= b.len() {
                Some(p + 2)
            } else {
                None
            }
        } else if m == 0xcd || m == 0xd1 {
            if p + 3 <= b.len() {
                Some(p + 3)
            } else {
                None
            }
        } else if m == 0xce || m == 0xd2 {
            if p + 5 <= b.len() {
                Some(p + 5)
            } else {
                None
            }
        } else if m == 0xcf || m == 0xd3 {
            if p + 9 <= b.len() {
                Some(p + 9)
            } else {
                None
            }
        } else if m == 0xd4 {
            if p + 3 <= b.len() {
                Some(p + 3)
            } else {
                None
            }
        } else if m == 0xd5 {
            if p + 4 <= b.len() {
                Some(p + 4)
            } else {
                None
            }
        } else if m == 0xd6 {
            if p + 6 <= b.len() {
                Some(p + 6)
            } else {
                None
            }
        } else if m == 0xd7 {
            if p + 10 <= b.len() {
                Some(p + 10)
            } else {
                None
            }
        } else if m == 0xd8 {
            if p + 18 <= b.len() {
                Some(p + 18)
            } else {
                None
            }
        } else if m == 0xdc || m == 0xde {
            if p + 3 <= b.len() {
                let n = (b[p + 1] as int) * 256 + (b[p + 2] as int);
                spec_skip_n(b, p + 3, if m == 0xde {
                    2 * n
                } else {
                    n
                })
            } else {
                None
            }
        } else if m == 0xdd || m == 0xdf {
            if p + 5 <= b.len() {
                let n = ((b[p + 1] as int) * 0x1000000) + ((b[p + 2] as int) * 0x10000) + ((b[p
                    + 3] as int) * 0x100) + (b[p + 4] as int);
                spec_skip_n(b, p + 5, if m == 0xdf {
                    2 * n
                } else {
                    n
                })
            } else {
                None
            }
        } else if m >= 0xe0 {
            Some(p + 1)
        } else {
            None
        }
    }
}

/// The position after `n` whole MessagePack values starting at `p`.
pub open spec fn spec_skip_n(b: Seq<u8>, p: int, n: int) -> Option<int>
    decreases b.len() - p, n,
{
    if n <= 0 {
        Some(p)
    } else if p < 0 || p >= b.len() {
        None
    } else {
        match spec_skip(b, p) {
            None => None,
            Some(p2) => if p < p2 <= b.len() {
                spec_skip_n(b, p2, n - 1)
            } else {
                None
            },
        }
    }
}

/// A successful skip always moves forward and stays inside the buffer.
pub proof fn lemma_spec_skip_bounds(b: Seq<u8>, p: int)
    ensures
        match spec_skip(b, p) {
            Some(p2) => p < p2 <= b.len(),
            None => true,
        },
    decreases b.len() - p, 0int,
{
    if spec_skip(b, p) is Some {
        let m = b[p];
        if m >= 0x80 && m < 0x90 {
            lemma_spec_skip_n_bounds(b, p + 1, 2 * ((m & 0x0f) as int));
        } else if m >= 0x90 && m < 0xa0 {
            lemma_spec_skip_n_bounds(b, p + 1, (m & 0x0f) as int);
        } else if m == 0xdc || m == 0xde {
            let n = (b[p + 1] as int) * 256 + (b[p + 2] as int);
            lemma_spec_skip_n_bounds(b, p + 3, if m == 0xde {
                2 * n
            } else {
                n
            });
        } else if m == 0xdd || m == 0xdf {
            let n = ((b[p + 1] as int) * 0x1000000) + ((b[p + 2] as int) * 0x10000) + ((b[p + 3]
                as int) * 0x100) + (b[p + 4] as int);
            lemma_spec_skip_n_bounds(b, p + 5, if m == 0xdf {
                2 * n
            } else {
                n
            });
        }
    }
}

/// Skipping values never moves backwards and stays inside the buffer.
pub proof fn lemma_spec_skip_n_bounds(b: Seq<u8>, p: int, n: int)
    requires
        p <= b.len(),
    ensures
        match spec_skip_n(b, p, n) {
            Some(p2) => p <= p2 <= b.len(),
            None => true,
        },
    decreases b.len() - p, n,
{
    if n <= 0 || p < 0 || p >= b.len() {
    } else {
        match spec_skip(b, p) {
            None => {},
            Some(p2) => {
                if p < p2 <= b.len() {
                    lemma_spec_skip_n_bounds(b, p2, n - 1);
                }
            },
        }
    }
}

/// Advance past one whole MessagePack value, whatever its family. On failure
/// the position is unchanged.
pub fn skip_value(buf: &Vec<u8>, pos: &mut usize) -> (r: Result<(), Error>)
    requires
        *old(pos) <= buf@.len(),
    ensures
        match spec_skip(buf@, *old(pos) as int) {
            Some(p2) => r is Ok && *final(pos) == p2,
            None => r is Err && *final(pos) == *old(pos),
        },
        *final(pos) <= buf@.len(),
    decreases buf@.len() - *old(pos), 0int, 0int,
{
    let n = buf.len();
    if *pos >= n {
        return Err(Error::MalformedInput);
    }
    let m = buf[*pos];
    if m < 0x80 {
        *pos = *pos + 1;
        Ok(())
    } else if m < 0x90 {
        let count = 2 * ((m & 0x0f) as u64);
        *pos = *pos + 1;
        let saved = *pos;
        match skip_values(buf, pos, count) {
            Ok(()) => Ok(()),
            Err(e) => {
                *pos = saved - 1;
                Err(e)
            },
        }
    } else if m < 0xa0 {
        let count = (m & 0x0f) as u64;
        *pos = *pos + 1;
        let saved = *pos;
        match skip_values(buf, pos, count) {
            Ok(()) => Ok(()),
            Err(e) => {
                *pos = saved - 1;
                Err(e)
            },
        }
    } else if m < 0xc0 {
        let len = (m & 0x1f) as usize;
        if n - (*pos + 1) >= len {
            *pos = *pos + 1 + len;
            Ok(())
        } else {
            Err(Error::MalformedInput)
        }
    } else if m == 0xc0 || m == 0xc2 || m == 0xc3 {
        *pos = *pos + 1;
        Ok(())
    } else if m == 0xc4 || m == 0xd9 {
        if n - *pos >= 2 && n - (*pos + 2) >= buf[*pos + 1] as usize {
            *pos = *pos + 2 + buf[*pos + 1] as usize;
            Ok(())
        } else {
            Err(Error::MalformedInput)
        }
    } else if m == 0xc5 || m == 0xda {
        if n - *pos >= 3 {
            let len = (buf[*pos + 1] as usize) * 256 + (buf[*pos + 2] as usize);
            if n - (*pos + 3) >= len {
                *pos = *pos + 3 + len;
                return Ok(());
            }
        }
        Err(Error::MalformedInput)
    } else if m == 0xc6 || m == 0xdb {
        if n - *pos >= 5 {
            let len = (buf[*pos + 1] as u64) * 0x1000000 + (buf[*pos + 2] as u64) * 0x10000 + (
            buf[*pos + 3] as u64) * 0x100 + (buf[*pos + 4] as u64);
            if ((n - (*pos + 5)) as u64) >= len {
                *pos = *pos + 5 + len as usize;
                return Ok(());
            }
        }
        Err(Error::MalformedInput)
    } else if m == 0xc7 {
        if n - *pos >= 3 && n - (*pos + 3) >= buf[*pos + 1] as usize {
            *pos = *pos + 3 + buf[*pos + 1] as usize;
            Ok(())
        } else {
            Err(Error::MalformedInput)
        }
    } else if m == 0xc8 {
        if n - *pos >= 4 {
            let len = (buf[*pos + 1] as usize) * 256 + (buf[*pos + 2] as usize);
            if n - (*pos + 4) >= len {
                *pos = *pos + 4 + len;
                return Ok(());
            }
        }
        Err(Error::MalformedInput)
    } else if m == 0xc9 {
        if n - *pos >= 6 {
            let len = (buf[*pos + 1] as u64) * 0x1000000 + (buf[*pos + 2] as u64) * 0x10000 + (
            buf[*pos + 3] as u64) * 0x100 + (buf[*pos + 4] as u64);
            if ((n - (*pos + 6)) as u64) >= len {
                *pos = *pos + 6 + len as usize;
                return Ok(());
            }
        }
        Err(Error::MalformedInput)
    } else if m == 0xca {
        if n - *pos >= 5 {
            *pos = *pos + 5;
            Ok(())
        } else {
            Err(Error::MalformedInput)
        }
    } else if m == 0xcb {
        if n - *pos >= 9 {
            *pos = *pos + 9;
            Ok(())
        } else {
            Err(Error::MalformedInput)
        }
    } else if m == 0xcc || m == 0xd0 {
        if n - *pos >= 2 {
            *pos = *pos + 2;
            Ok(())
        } else {
            Err(Error::MalformedInput)
        }
    } else if m == 0xcd || m == 0xd1 {
        if n - *pos >= 3 {
            *pos = *pos + 3;
            Ok(())
        } else {
            Err(Error::MalformedInput)
        }
    } else if m == 0xce || m == 0xd2 {
        if n - *pos >= 5 {
            *pos = *pos + 5;
            Ok(())
        } else {
            Err(Error::MalformedInput)
        }
    } else if m == 0xcf || m == 0xd3 {
        if n - *pos >= 9 {
            *pos = *pos + 9;
            Ok(())
        } else {
            Err(Error::MalformedInput)
        }
    } else if m == 0xd4 {
        if n - *pos >= 3 {
            *pos = *pos + 3;
            Ok(())
        } else {
            Err(Error::MalformedInput)
        }
    } else if m == 0xd5 {
        if n - *pos >= 4 {
            *pos = *pos + 4;
            Ok(())
        } else {
            Err(Error::MalformedInput)
        }
    } else if m == 0xd6 {
        if n - *pos >= 6 {
            *pos = *pos + 6;
            Ok(())
        } else {
            Err(Error::MalformedInput)
        }
    } else if m == 0xd7 {
        if n - *pos >= 10 {
            *pos = *pos + 10;
            Ok(())
        } else {
            Err(Error::MalformedInput)
        }
    } else if m == 0xd8 {
        if n - *pos >= 18 {
            *pos = *pos + 18;
            Ok(())
        } else {
            Err(Error::MalformedInput)
        }
    } else if m == 0xdc || m == 0xde {
        if n - *pos >= 3 {
            let count = (buf[*pos + 1] as u64) * 256 + (buf[*pos + 2] as u64);
            let count = if m == 0xde {
                2 * count
            } else {
                count
            };
            let saved = *pos;
            *pos = *pos + 3;
            match skip_values(buf, pos, count) {
                Ok(()) => Ok(()),
                Err(e) => {
                    *pos = saved;
                    Err(e)
                },
            }
        } else {
            Err(Error::MalformedInput)
        }
    } else if m == 0xdd || m == 0xdf {
        if n - *pos >= 5 {
            let count = (buf[*pos + 1] as u64) * 0x1000000 + (buf[*pos + 2] as u64) * 0x10000 + (
            buf[*pos + 3] as u64) * 0x100 + (buf[*pos + 4] as u64);
            let count = if m == 0xdf {
                2 * count
            } else {
                count
            };
            let saved = *pos;
            *pos = *pos + 5;
            match skip_values(buf, pos, count) {
                Ok(()) => Ok(()),
                Err(e) => {
                    *pos = saved;
                    Err(e)
                },
            }
        } else {
            Err(Error::MalformedInput)
        }
    } else if m >= 0xe0 {
        *pos = *pos + 1;
        Ok(())
    } else {
        Err(Error::MalformedInput)
    }
}

/// Advance past `count` whole MessagePack values. On failure the position is
/// where the failing value began.
pub fn skip_values(buf: &Vec<u8>, pos: &mut usize, count: u64) -> (r: Result<(), Error>)
    requires
        *old(pos) <= buf@.len(),
    ensures
        match spec_skip_n(buf@, *old(pos) as int, count as int) {
            Some(p2) => r is Ok && *final(pos) == p2,
            None => r is Err,
        },
        *final(pos) <= buf@.len(),
    decreases buf@.len() - *old(pos), count, 1int,
{
    let mut i: u64 = 0;
    while i < count
        invariant
            i <= count,
            *old(pos) <= *pos <= buf@.len(),
            spec_skip_n(buf@, *old(pos) as int, count as int) == spec_skip_n(
                buf@,
                *pos as int,
                count as int - i as int,
            ),
        decreases count - i,
    {
        let ghost mid = *pos;
        if *pos >= buf.len() {
            return Err(Error::MalformedInput);
        }
        match skip_value(buf, pos) {
            Ok(()) => {
                proof {
                    lemma_spec_skip_bounds(buf@, mid as int);
                }
            },
            Err(e) => {
                return Err(e);
            },
        }
        i = i + 1;
    }
    Ok(())
}

// ---------------------------------------------------------------------------
// Writers
// ---------------------------------------------------------------------------
/// Append an unsigned integer in the shortest MessagePack form.
pub fn write_uint(wr: &mut Vec<u8>, v: u64)
    ensures
        final(wr)@ == old(wr)@ + enc_uint(v),
{
    if v < 0x80 {
        wr.push(v as u8);
    } else if v <= 0xff {
        wr.push(0xcc);
        wr.push(v as u8);
    } else if v <= 0xffff {
        wr.push(0xcd);
        wr.push(#[verifier::truncate] ((v >> 8) as u8));
        wr.push(#[verifier::truncate] (v as u8));
    } else if v <= 0xffff_ffff {
        wr.push(0xce);
        wr.push(#[verifier::truncate] ((v >> 24) as u8));
        wr.push(#[verifier::truncate] ((v >> 16) as u8));
        wr.push(#[verifier::truncate] ((v >> 8) as u8));
        wr.push(#[verifier::truncate] (v as u8));
    } else {
        wr.push(0xcf);
        wr.push(#[verifier::truncate] ((v >> 56) as u8));
        wr.push(#[verifier::truncate] ((v >> 48) as u8));
        wr.push(#[verifier::truncate] ((v >> 40) as u8));
        wr.push(#[verifier::truncate] ((v >> 32) as u8));
        wr.push(#[verifier::truncate] ((v >> 24) as u8));
        wr.push(#[verifier::truncate] ((v >> 16) as u8));
        wr.push(#[verifier::truncate] ((v >> 8) as u8));
        wr.push(#[verifier::truncate] (v as u8));
    }
    proof {
        assert(final(wr)@ =~= old(wr)@ + enc_uint(v));
    }
}

/// Append an array header in the shortest form.
pub fn write_array_len(wr: &mut Vec<u8>, n: u32)
    ensures
        final(wr)@ == old(wr)@ + enc_array_len(n),
{
    if n < 16 {
        wr.push(0x90 | n as u8);
    } else if n <= 0xffff {
        wr.push(0xdc);
        wr.push(#[verifier::truncate] ((n >> 8) as u8));
        wr.push(#[verifier::truncate] (n as u8));
    } else {
        wr.push(0xdd);
        wr.push(#[verifier::truncate] ((n >> 24) as u8));
        wr.push(#[verifier::truncate] ((n >> 16) as u8));
        wr.push(#[verifier::truncate] ((n >> 8) as u8));
        wr.push(#[verifier::truncate] (n as u8));
    }
    proof {
        assert(final(wr)@ =~= old(wr)@ + enc_array_len(n));
    }
}

/// Append a map header in the shortest form.
pub fn write_map_len(wr: &mut Vec<u8>, n: u32)
    ensures
        final(wr)@ == old(wr)@ + enc_map_len(n),
{
    if n < 16 {
        wr.push(0x80 | n as u8);
    } else if n <= 0xffff {
        wr.push(0xde);
        wr.push(#[verifier::truncate] ((n >> 8) as u8));
        wr.push(#[verifier::truncate] (n as u8));
    } else {
        wr.push(0xdf);
        wr.push(#[verifier::truncate] ((n >> 24) as u8));
        wr.push(#[verifier::truncate] ((n >> 16) as u8));
        wr.push(#[verifier::truncate] ((n >> 8) as u8));
        wr.push(#[verifier::truncate] (n as u8));
    }
    proof {
        assert(final(wr)@ =~= old(wr)@ + enc_map_len(n));
    }
}

/// Append a string header in the shortest form.
fn write_str_len(wr: &mut Vec<u8>, n: u32)
    ensures
        final(wr)@ == old(wr)@ + enc_str_len(n),
{
    if n < 32 {
        wr.push(0xa0 | n as u8);
    } else if n <= 0xff {
        wr.push(0xd9);
        wr.push(#[verifier::truncate] (n as u8));
    } else if n <= 0xffff {
        wr.push(0xda);
        wr.push(#[verifier::truncate] ((n >> 8) as u8));
        wr.push(#[verifier::truncate] (n as u8));
    } else {
        wr.push(0xdb);
        wr.push(#[verifier::truncate] ((n >> 24) as u8));
        wr.push(#[verifier::truncate] ((n >> 16) as u8));
        wr.push(#[verifier::truncate] ((n >> 8) as u8));
        wr.push(#[verifier::truncate] (n as u8));
    }
    proof {
        assert(final(wr)@ =~= old(wr)@ + enc_str_len(n));
    }
}

/// Append a string: header followed by its UTF-8 bytes. The byte length must
/// fit the 32-bit wire limit of the str family.
pub fn write_str(wr: &mut Vec<u8>, s: &str)
    requires
        encode_utf8(s@).len() <= u32::MAX,
    ensures
        final(wr)@ == old(wr)@ + enc_str(s@),
{
    let mut bytes = s.as_bytes_vec();
    let n = bytes.len();
    write_str_len(wr, n as u32);
    wr.append(&mut bytes);
    proof {
        assert(final(wr)@ =~= old(wr)@ + enc_str(s@));
    }
}

/// Append a 64-bit float given as its raw IEEE 754 bit pattern.
pub fn write_f64_bits(wr: &mut Vec<u8>, v: u64)
    ensures
        final(wr)@ == old(wr)@ + enc_f64_bits(v),
{
    wr.push(0xcb);
    wr.push(#[verifier::truncate] ((v >> 56) as u8));
    wr.push(#[verifier::truncate] ((v >> 48) as u8));
    wr.push(#[verifier::truncate] ((v >> 40) as u8));
    wr.push(#[verifier::truncate] ((v >> 32) as u8));
    wr.push(#[verifier::truncate] ((v >> 24) as u8));
    wr.push(#[verifier::truncate] ((v >> 16) as u8));
    wr.push(#[verifier::truncate] ((v >> 8) as u8));
    wr.push(#[verifier::truncate] (v as u8));
    proof {
        assert(final(wr)@ =~= old(wr)@ + enc_f64_bits(v));
    }
}
// ---------------------------------------------------------------------------
// Decoding what the writers emitted
// ---------------------------------------------------------------------------
/// The buffer holds exactly the bytes `e` at position `p`.
pub open spec fn bytes_at(b: Seq<u8>, p: int, e: Seq<u8>) -> bool {
    0 <= p && p + e.len() <= b.len() && b.subrange(p, p + e.len() as int) == e
}

/// A concatenation sitting at `p` splits into its parts.
pub proof fn lemma_bytes_at_split(b: Seq<u8>, p: int, x: Seq<u8>, y: Seq<u8>)
    requires
        bytes_at(b, p, x + y),
    ensures
        bytes_at(b, p, x),
        bytes_at(b, p + x.len(), y),
{
    let xy = x + y;
    let n = x.len() as int;
    let m = y.len() as int;
    assert forall|j: int| 0 <= j < n + m implies #[trigger] b[p + j] == xy[j] by {
        assert(b.subrange(p, p + xy.len() as int)[j] == b[p + j]);
    }
    assert forall|j: int| 0 <= j < n implies b.subrange(p, p + n)[j] == x[j] by {
        assert(b.subrange(p, p + n)[j] == b[p + j]);
        assert(b[p + j] == xy[j]);
    }
    assert(b.subrange(p, p + n) =~= x);
    assert forall|j: int| 0 <= j < m implies b.subrange(p + n, p + n + m)[j] == y[j] by {
        assert(b.subrange(p + n, p + n + m)[j] == b[(p + n) + j]);
        assert(b[p + (n + j)] == xy[n + j]);
        assert(xy[n + j] == y[j]);
    }
    assert(b.subrange(p + n, p + n + m) =~= y);
}

/// Each byte of bytes sitting at `p` is in the buffer at its offset.
pub proof fn lemma_bytes_at_index(b: Seq<u8>, p: int, e: Seq<u8>)
    requires
        bytes_at(b, p, e),
    ensures
        forall|j: int| 0 <= j < e.len() ==> #[trigger] b[p + j] == e[j],
        e.len() > 0 ==> b[p] == e[0],
{
    assert forall|j: int| 0 <= j < e.len() implies #[trigger] b[p + j] == e[j] by {
        assert(b.subrange(p, p + e.len() as int)[j] == b[p + j]);
    }
    if e.len() > 0 {
        assert(b[p + 0] == e[0]);
    }
}

/// Reading an unsigned integer where one was written yields it back.
pub proof fn lemma_dec_uint_at(b: Seq<u8>, p: int, v: u64)
    requires
        bytes_at(b, p, enc_uint(v)),
    ensures
        dec_uint(b, p) == Some((v, p + enc_uint(v).len())),
{
    let e = enc_uint(v);
    lemma_bytes_at_index(b, p, e);
    if v < 0x80 {
        assert(b[p] == v as u8);
        assert((v as u8) as u64 == v) by (bit_vector)
            requires
                v < 0x80,
        ;
    } else if v <= 0xff {
        assert(b[p] == 0xccu8 && b[p + 1] == v as u8);
        assert((v as u8) as u64 == v) by (bit_vector)
            requires
                0x80 <= v <= 0xff,
        ;
    } else if v <= 0xffff {
        assert(b[p] == 0xcdu8 && b[p + 1] == (v >> 8) as u8 && b[p + 2] == v as u8);
        assert(((((v >> 8) as u8) as u64) << 8) | ((v as u8) as u64) == v) by (bit_vector)
            requires
                v <= 0xffff,
        ;
    } else if v <= 0xffff_ffff {
        assert(b[p] == 0xceu8 && b[p + 1] == (v >> 24) as u8 && b[p + 2] == (v >> 16) as u8 && b[p
            + 3] == (v >> 8) as u8 && b[p + 4] == v as u8);
        assert(((((v >> 24) as u8) as u64) << 24) | ((((v >> 16) as u8) as u64) << 16) | ((((v
            >> 8) as u8) as u64) << 8) | ((v as u8) as u64) == v) by (bit_vector)
            requires
                v <= 0xffff_ffff,
        ;
    } else {
        assert(b[p] == 0xcfu8 && b[p + 1] == (v >> 56) as u8 && b[p + 2] == (v >> 48) as u8 && b[p
            + 3] == (v >> 40) as u8 && b[p + 4] == (v >> 32) as u8 && b[p + 5] == (v >> 24) as u8
            && b[p + 6] == (v >> 16) as u8 && b[p + 7] == (v >> 8) as u8 && b[p + 8] == v as u8);
        assert(((((v >> 56) as u8) as u64) << 56) | ((((v >> 48) as u8) as u64) << 48) | ((((v
            >> 40) as u8) as u64) << 40) | ((((v >> 32) as u8) as u64) << 32) | ((((v >> 24)
            as u8) as u64) << 24) | ((((v >> 16) as u8) as u64) << 16) | ((((v >> 8) as u8)
            as u64) << 8) | ((v as u8) as u64) == v) by (bit_vector);
    }
}

/// Reading an array header where one was written yields its count back.
pub proof fn lemma_dec_array_len_at(b: Seq<u8>, p: int, n: u32)
    requires
        bytes_at(b, p, enc_array_len(n)),
    ensures
        dec_array_len(b, p) == Some((n, p + enc_array_len(n).len())),
{
    let e = enc_array_len(n);
    lemma_bytes_at_index(b, p, e);
    if n < 16 {
        assert(b[p] == 0x90u8 | n as u8);
        assert(0x90u8 <= (0x90u8 | (n as u8)) <= 0x9fu8 && (((0x90u8 | (n as u8)) & 0x0fu8)
            as u32) == n) by (bit_vector)
            requires
                n < 16u32,
        ;
    } else if n <= 0xffff {
        assert(b[p] == 0xdcu8 && b[p + 1] == (n >> 8) as u8 && b[p + 2] == n as u8);
        assert(((((n >> 8) as u8) as u32) << 8) | ((n as u8) as u32) == n) by (bit_vector)
            requires
                n <= 0xffff,
        ;
    } else {
        assert(b[p] == 0xddu8 && b[p + 1] == (n >> 24) as u8 && b[p + 2] == (n >> 16) as u8 && b[p
            + 3] == (n >> 8) as u8 && b[p + 4] == n as u8);
        assert(((((n >> 24) as u8) as u32) << 24) | ((((n >> 16) as u8) as u32) << 16) | ((((n
            >> 8) as u8) as u32) << 8) | ((n as u8) as u32) == n) by (bit_vector);
    }
}

/// Reading a map header where one was written yields its count back.
pub proof fn lemma_dec_map_len_at(b: Seq<u8>, p: int, n: u32)
    requires
        bytes_at(b, p, enc_map_len(n)),
    ensures
        dec_map_len(b, p) == Some((n, p + enc_map_len(n).len())),
{
    let e = enc_map_len(n);
    lemma_bytes_at_index(b, p, e);
    if n < 16 {
        assert(b[p] == 0x80u8 | n as u8);
        assert(0x80u8 <= (0x80u8 | (n as u8)) <= 0x8fu8 && (((0x80u8 | (n as u8)) & 0x0fu8)
            as u32) == n) by (bit_vector)
            requires
                n < 16u32,
        ;
    } else if n <= 0xffff {
        assert(b[p] == 0xdeu8 && b[p + 1] == (n >> 8) as u8 && b[p + 2] == n as u8);
        assert(((((n >> 8) as u8) as u32) << 8) | ((n as u8) as u32) == n) by (bit_vector)
            requires
                n <= 0xffff,
        ;
    } else {
        assert(b[p] == 0xdfu8 && b[p + 1] == (n >> 24) as u8 && b[p + 2] == (n >> 16) as u8 && b[p
            + 3] == (n >> 8) as u8 && b[p + 4] == n as u8);
        assert(((((n >> 24) as u8) as u32) << 24) | ((((n >> 16) as u8) as u32) << 16) | ((((n
            >> 8) as u8) as u32) << 8) | ((n as u8) as u32) == n) by (bit_vector);
    }
}

/// Reading a string header where one was written yields its length back.
pub proof fn lemma_dec_str_len_at(b: Seq<u8>, p: int, n: u32)
    requires
        bytes_at(b, p, enc_str_len(n)),
    ensures
        dec_str_len(b, p) == Some((n, p + enc_str_len(n).len())),
{
    let e = enc_str_len(n);
    lemma_bytes_at_index(b, p, e);
    if n < 32 {
        assert(b[p] == 0xa0u8 | n as u8);
        assert(0xa0u8 <= (0xa0u8 | (n as u8)) <= 0xbfu8 && (((0xa0u8 | (n as u8)) & 0x1fu8)
            as u32) == n) by (bit_vector)
            requires
                n < 32u32,
        ;
    } else if n <= 0xff {
        assert(b[p] == 0xd9u8 && b[p + 1] == n as u8);
        assert(((n as u8) as u32) == n) by (bit_vector)
            requires
                n <= 0xff,
        ;
    } else if n <= 0xffff {
        assert(b[p] == 0xdau8 && b[p + 1] == (n >> 8) as u8 && b[p + 2] == n as u8);
        assert(((((n >> 8) as u8) as u32) << 8) | ((n as u8) as u32) == n) by (bit_vector)
            requires
                n <= 0xffff,
        ;
    } else {
        assert(b[p] == 0xdbu8 && b[p + 1] == (n >> 24) as u8 && b[p + 2] == (n >> 16) as u8 && b[p
            + 3] == (n >> 8) as u8 && b[p + 4] == n as u8);
        assert(((((n >> 24) as u8) as u32) << 24) | ((((n >> 16) as u8) as u32) << 16) | ((((n
            >> 8) as u8) as u32) << 8) | ((n as u8) as u32) == n) by (bit_vector);
    }
}

/// Reading a string where one was written yields its characters back.
pub proof fn lemma_dec_str_at(b: Seq<u8>, p: int, s: Seq<char>)
    requires
        bytes_at(b, p, enc_str(s)),
        encode_utf8(s).len() <= u32::MAX,
    ensures
        dec_str(b, p) == Some((s, p + enc_str(s).len())),
{
    let bytes = encode_utf8(s);
    let n = bytes.len() as u32;
    lemma_bytes_at_split(b, p, enc_str_len(n), bytes);
    lemma_dec_str_len_at(b, p, n);
    let p2 = p + enc_str_len(n).len();
    assert(b.subrange(p2, p2 + n) == bytes);
    vstd::utf8::encode_utf8_valid_utf8(s);
    vstd::utf8::encode_utf8_decode_utf8(s);
}

/// Reading a float where one was written yields its bit pattern back.
pub proof fn lemma_dec_f64_bits_at(b: Seq<u8>, p: int, v: u64)
    requires
        bytes_at(b, p, enc_f64_bits(v)),
    ensures
        dec_f64_bits(b, p) == Some((v, p + 9)),
{
    let e = enc_f64_bits(v);
    lemma_bytes_at_index(b, p, e);
    assert(b[p] == 0xcbu8 && b[p + 1] == (v >> 56) as u8 && b[p + 2] == (v >> 48) as u8 && b[p + 3]
        == (v >> 40) as u8 && b[p + 4] == (v >> 32) as u8 && b[p + 5] == (v >> 24) as u8 && b[p
        + 6] == (v >> 16) as u8 && b[p + 7] == (v >> 8) as u8 && b[p + 8] == v as u8);
    assert(((((v >> 56) as u8) as u64) << 56) | ((((v >> 48) as u8) as u64) << 48) | ((((v >> 40)
        as u8) as u64) << 40) | ((((v >> 32) as u8) as u64) << 32) | ((((v >> 24) as u8) as u64)
        << 24) | ((((v >> 16) as u8) as u64) << 16) | ((((v >> 8) as u8) as u64) << 8) | ((v
        as u8) as u64) == v) by (bit_vector);
}

} // verus!
