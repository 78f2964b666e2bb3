//! Big-endian fields at absolute offsets of a byte buffer.

use crate::error::DecodeError;
use vstd::prelude::*;
use vstd::utf8::{decode_utf8, encode_utf8, valid_utf8};

verus! {

/// The `width` bytes from `at` on all lie inside `s`.
pub open spec fn in_bounds(s: Seq<u8>, at: int, width: int) -> bool {
    0 <= at && at + width <= s.len()
}

/// The unsigned 16-bit value stored big-endian at `at`.
pub open spec fn be_u16(s: Seq<u8>, at: int) -> u16 {
    (s[at] as int * 0x100 + s[at + 1] as int) as u16
}

/// The signed 16-bit value stored big-endian, in two's complement, at `at`.
pub open spec fn be_i16(s: Seq<u8>, at: int) -> i16 {
    let u = be_u16(s, at) as int;
    if u < 0x8000 {
        u as i16
    } else {
        (u - 0x1_0000) as i16
    }
}

/// The unsigned 32-bit value stored big-endian at `at`.
pub open spec fn be_u32(s: Seq<u8>, at: int) -> u32 {
    (s[at] as int * 0x100_0000 + s[at + 1] as int * 0x1_0000 + s[at + 2] as int * 0x100 + s[at
        + 3] as int) as u32
}

/// The signed 32-bit value stored big-endian, in two's complement, at `at`.
pub open spec fn be_i32(s: Seq<u8>, at: int) -> i32 {
    let u = be_u32(s, at) as int;
    if u < 0x8000_0000 {
        u as i32
    } else {
        (u - 0x1_0000_0000) as i32
    }
}

/// What reading the byte at `at` gives.
pub open spec fn read_u8(s: Seq<u8>, at: int) -> Result<u8, DecodeError> {
    if in_bounds(s, at, 1) {
        Ok(s[at])
    } else {
        Err(DecodeError::OutOfBounds)
    }
}

/// What reading an unsigned 16-bit field at `at` gives.
pub open spec fn read_u16(s: Seq<u8>, at: int) -> Result<u16, DecodeError> {
    if in_bounds(s, at, 2) {
        Ok(be_u16(s, at))
    } else {
        Err(DecodeError::OutOfBounds)
    }
}

/// What reading a signed 16-bit field at `at` gives.
pub open spec fn read_i16(s: Seq<u8>, at: int) -> Result<i16, DecodeError> {
    if in_bounds(s, at, 2) {
        Ok(be_i16(s, at))
    } else {
        Err(DecodeError::OutOfBounds)
    }
}

/// What reading an unsigned 32-bit field at `at` gives.
pub open spec fn read_u32(s: Seq<u8>, at: int) -> Result<u32, DecodeError> {
    if in_bounds(s, at, 4) {
        Ok(be_u32(s, at))
    } else {
        Err(DecodeError::OutOfBounds)
    }
}

/// What reading a signed 32-bit field at `at` gives.
pub open spec fn read_i32(s: Seq<u8>, at: int) -> Result<i32, DecodeError> {
    if in_bounds(s, at, 4) {
        Ok(be_i32(s, at))
    } else {
        Err(DecodeError::OutOfBounds)
    }
}

/// The text of the four bytes `b` of a table tag: what they spell in UTF-8,
/// and nothing where they are not UTF-8.
pub open spec fn tag_text(b: Seq<u8>) -> Seq<char> {
    if valid_utf8(b) {
        decode_utf8(b)
    } else {
        Seq::empty()
    }
}

/// What reading a four-byte tag at `at` gives.
pub open spec fn read_tag(s: Seq<u8>, at: int) -> Result<Seq<char>, DecodeError> {
    if in_bounds(s, at, 4) {
        Ok(tag_text(s.subrange(at, at + 4)))
    } else {
        Err(DecodeError::OutOfBounds)
    }
}

/// `base + delta` as an offset, where it is one: a sum that no `usize` holds
/// lies past the end of every buffer.
pub fn advance(base: usize, delta: usize) -> (r: Result<usize, DecodeError>)
    ensures
        base + delta <= usize::MAX ==> r == Ok::<usize, DecodeError>((base + delta) as usize),
        base + delta > usize::MAX ==> r == Err::<usize, DecodeError>(DecodeError::OutOfBounds),
{
    match base.checked_add(delta) {
        Some(at) => Ok(at),
        None => Err(DecodeError::OutOfBounds),
    }
}

/// Reads the byte at `index`.
pub fn to_u8(bytes: &[u8], index: usize) -> (r: Result<u8, DecodeError>)
    ensures
        r == read_u8(bytes@, index as int),
{
    if index < bytes.len() {
        Ok(bytes[index])
    } else {
        Err(DecodeError::OutOfBounds)
    }
}

/// Reads the unsigned 16-bit field at `index`.
pub fn to_u16(bytes: &[u8], index: usize) -> (r: Result<u16, DecodeError>)
    ensures
        r == read_u16(bytes@, index as int),
{
    let len = bytes.len();
    if len < 2 || index > len - 2 {
        return Err(DecodeError::OutOfBounds);
    }
    let hi: u16 = bytes[index] as u16;
    let lo: u16 = bytes[index + 1] as u16;
    Ok(hi * 0x100 + lo)
}

/// Reads the signed 16-bit field at `index`.
pub fn to_i16(bytes: &[u8], index: usize) -> (r: Result<i16, DecodeError>)
    ensures
        r == read_i16(bytes@, index as int),
{
    match to_u16(bytes, index) {
        Ok(u) => {
            if u < 0x8000 {
                Ok(u as i16)
            } else {
                Ok((u as i32 - 0x1_0000) as i16)
            }
        },
        Err(e) => Err(e),
    }
}

/// Reads the unsigned 32-bit field at `index`.
pub fn to_u32(bytes: &[u8], index: usize) -> (r: Result<u32, DecodeError>)
    ensures
        r == read_u32(bytes@, index as int),
{
    let len = bytes.len();
    if len < 4 || index > len - 4 {
        return Err(DecodeError::OutOfBounds);
    }
    let b0: u32 = bytes[index] as u32;
    let b1: u32 = bytes[index + 1] as u32;
    let b2: u32 = bytes[index + 2] as u32;
    let b3: u32 = bytes[index + 3] as u32;
    Ok(b0 * 0x100_0000 + b1 * 0x1_0000 + b2 * 0x100 + b3)
}

/// Reads the signed 32-bit field at `index`.
pub fn to_i32(bytes: &[u8], index: usize) -> (r: Result<i32, DecodeError>)
    ensures
        r == read_i32(bytes@, index as int),
{
    match to_u32(bytes, index) {
        Ok(u) => {
            if u < 0x8000_0000 {
                Ok(u as i32)
            } else {
                Ok((u as i64 - 0x1_0000_0000) as i32)
            }
        },
        Err(e) => Err(e),
    }
}

/// Reads the unsigned 16-bit field that stands `rel` bytes behind `base`.
pub fn field_u16(bytes: &[u8], base: usize, rel: usize) -> (r: Result<u16, DecodeError>)
    ensures
        r == read_u16(bytes@, base + rel),
{
    proof {
        vstd::slice::axiom_spec_len(bytes);
    }
    to_u16(bytes, advance(base, rel)?)
}

/// Reads the signed 16-bit field that stands `rel` bytes behind `base`.
pub fn field_i16(bytes: &[u8], base: usize, rel: usize) -> (r: Result<i16, DecodeError>)
    ensures
        r == read_i16(bytes@, base + rel),
{
    proof {
        vstd::slice::axiom_spec_len(bytes);
    }
    to_i16(bytes, advance(base, rel)?)
}

/// Reads the unsigned 32-bit field that stands `rel` bytes behind `base`.
pub fn field_u32(bytes: &[u8], base: usize, rel: usize) -> (r: Result<u32, DecodeError>)
    ensures
        r == read_u32(bytes@, base + rel),
{
    proof {
        vstd::slice::axiom_spec_len(bytes);
    }
    to_u32(bytes, advance(base, rel)?)
}

/// `String::from_utf8` of std. The contract claims what its documentation
/// says: the bytes become a `String` exactly when they are valid UTF-8, and
/// the `String` then consists of these very bytes.
#[verifier::external_body]
fn string_from_utf8(v: Vec<u8>) -> (r: Option<String>)
    ensures
        r is Some <==> valid_utf8(v@),
        r matches Some(t) ==> encode_utf8(t@) == v@,
{
    match String::from_utf8(v) {
        Ok(t) => Some(t),
        Err(_) => None,
    }
}

/// Reads the four-byte tag at `index` as text.
pub fn to_string(bytes: &[u8], index: usize) -> (r: Result<String, DecodeError>)
    ensures
        match r {
            Ok(t) => read_tag(bytes@, index as int) == Ok::<Seq<char>, DecodeError>(t@),
            Err(e) => read_tag(bytes@, index as int) == Err::<Seq<char>, DecodeError>(e),
        },
{
    let len = bytes.len();
    if len < 4 || index > len - 4 {
        return Err(DecodeError::OutOfBounds);
    }
    let v: Vec<u8> = vec![bytes[index], bytes[index + 1], bytes[index + 2], bytes[index + 3]];
    assert(v@ =~= bytes@.subrange(index as int, index + 4));
    match string_from_utf8(v) {
        Some(t) => {
            proof {
                vstd::utf8::encode_utf8_decode_utf8(t@);
            }
            Ok(t)
        },
        None => Ok(String::new()),
    }
}

} // verus!
