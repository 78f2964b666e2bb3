//! From a character to its glyph, through the segment mapping (format 4) of
//! the character-mapping table.
//!
//! The subtable holds twice the number of segments at byte 6 and, from byte
//! 14 on, four arrays of 16-bit entries, one entry for each segment: the
//! end codes, after two bytes of padding the start codes, the deltas, and
//! the range offsets. A segment covers the code points from its start code
//! to its end code.

use crate::error::DecodeError;
use crate::reader::{be_i16, be_u16, be_u32, field_i16, field_u16, field_u32, in_bounds};
use crate::tables::{offset_in, table_offset, CMAP};
use std::collections::HashMap;
use vstd::prelude::*;

verus! {

/// Where the character-mapping table holds the offset of its first subtable:
/// behind its own header and the two identifiers of the first encoding
/// record.
pub const SUBTABLE_OFFSET_AT: usize = 8;

/// Where the subtable holds twice its number of segments.
pub const SEGMENT_COUNT_AT: usize = 6;

/// Where the end codes start.
pub const END_CODES_AT: usize = 14;

/// Where the subtable starts: at the offset that the first encoding record
/// gives, counted from the start of the table at `cmap`.
pub open spec fn subtable_at(s: Seq<u8>, cmap: int) -> int {
    cmap + be_u32(s, cmap + SUBTABLE_OFFSET_AT)
}

/// The number of segments of the subtable at `fmt`.
pub open spec fn segment_count(s: Seq<u8>, fmt: int) -> int {
    be_u16(s, fmt + SEGMENT_COUNT_AT) as int / 2
}

/// Where the end code of segment `i` stands.
pub open spec fn end_code_at(fmt: int, i: int) -> int {
    fmt + END_CODES_AT + 2 * i
}

/// Where the start code of segment `i` stands: behind the end codes and the
/// padding.
pub open spec fn start_code_at(fmt: int, segs: int, i: int) -> int {
    end_code_at(fmt, segs) + 2 + 2 * i
}

/// Where the delta of segment `i` stands.
pub open spec fn id_delta_at(fmt: int, segs: int, i: int) -> int {
    start_code_at(fmt, segs, segs) + 2 * i
}

/// Where the range offset of segment `i` stands.
pub open spec fn id_range_offset_at(fmt: int, segs: int, i: int) -> int {
    id_delta_at(fmt, segs, segs) + 2 * i
}

/// The four fields of segment `i` lie inside `s`.
pub open spec fn segment_fits(s: Seq<u8>, fmt: int, segs: int, i: int) -> bool {
    in_bounds(s, id_range_offset_at(fmt, segs, i), 2)
}

/// Segment `i` covers the code point `code`.
pub open spec fn segment_covers(s: Seq<u8>, fmt: int, segs: int, i: int, code: int) -> bool {
    be_u16(s, end_code_at(fmt, i)) >= code && be_u16(s, start_code_at(fmt, segs, i)) <= code
}

/// `v` modulo 65536.
pub open spec fn wrap_u16(v: int) -> u16 {
    (v % 0x1_0000) as u16
}

/// Where segment `i` has the glyph of `code` looked up: the range offset is
/// counted from the place where it stands itself, and each code point of
/// the segment has two bytes there.
pub open spec fn glyph_index_at(s: Seq<u8>, fmt: int, segs: int, i: int, code: int) -> int {
    id_range_offset_at(fmt, segs, i) + be_u16(s, id_range_offset_at(fmt, segs, i)) + 2 * (code
        - be_u16(s, start_code_at(fmt, segs, i)))
}

/// The glyph that segment `i` gives to the code point `code` that it covers.
/// Without a range offset it is the code point plus the delta. With one,
/// the glyph is looked up; 0 there means no glyph, anything else has the
/// delta added.
pub open spec fn segment_glyph(s: Seq<u8>, fmt: int, segs: int, i: int, code: int) -> Result<
    u16,
    DecodeError,
> {
    let delta = be_i16(s, id_delta_at(fmt, segs, i)) as int;
    let at = glyph_index_at(s, fmt, segs, i, code);
    if be_u16(s, id_range_offset_at(fmt, segs, i)) == 0 {
        Ok(wrap_u16(delta + code))
    } else if !in_bounds(s, at, 2) {
        Err(DecodeError::OutOfBounds)
    } else if be_u16(s, at) == 0 {
        Ok(0)
    } else {
        Ok(wrap_u16(be_u16(s, at) + delta))
    }
}

/// The glyph of `code` by the segments from `i` on: that of the first
/// segment that covers it, and 0, the missing glyph, where none does.
pub open spec fn scan_segments(s: Seq<u8>, fmt: int, segs: int, code: int, i: int) -> Result<
    u16,
    DecodeError,
>
    decreases segs - i,
{
    if i >= segs {
        Ok(0)
    } else if !segment_fits(s, fmt, segs, i) {
        Err(DecodeError::OutOfBounds)
    } else if segment_covers(s, fmt, segs, i, code) {
        segment_glyph(s, fmt, segs, i, code)
    } else {
        scan_segments(s, fmt, segs, code, i + 1)
    }
}

/// The glyph of the character `c` in the font `s`.
pub open spec fn glyph_id(s: Seq<u8>, dir: Map<u32, usize>, c: char) -> Result<u16, DecodeError> {
    let cmap = offset_in(dir, CMAP) as int;
    let fmt = subtable_at(s, cmap);
    if !in_bounds(s, cmap + SUBTABLE_OFFSET_AT, 4) {
        Err(DecodeError::OutOfBounds)
    } else if !in_bounds(s, fmt + SEGMENT_COUNT_AT, 2) {
        Err(DecodeError::OutOfBounds)
    } else {
        scan_segments(s, fmt, segment_count(s, fmt), c as u32 as int, 0)
    }
}

/// A code point that no segment covers has the missing glyph, 0. This is so
/// of a code point above every end code, and so of every character above
/// U+FFFF.
pub proof fn lemma_uncovered_is_missing_glyph(s: Seq<u8>, fmt: int, segs: int, code: int, i: int)
    requires
        0 <= i,
        forall|j: int| i <= j < segs ==> #[trigger] segment_fits(s, fmt, segs, j),
        forall|j: int| i <= j < segs ==> !#[trigger] segment_covers(s, fmt, segs, j, code),
    ensures
        scan_segments(s, fmt, segs, code, i) == Ok::<u16, DecodeError>(0),
    decreases segs - i,
{
    if i < segs {
        assert(segment_fits(s, fmt, segs, i));
        assert(!segment_covers(s, fmt, segs, i, code));
        lemma_uncovered_is_missing_glyph(s, fmt, segs, code, i + 1);
    }
}

/// A code point above the end code of every segment has the missing glyph.
pub proof fn lemma_above_every_end_code(s: Seq<u8>, fmt: int, segs: int, code: int)
    requires
        forall|j: int| 0 <= j < segs ==> #[trigger] segment_fits(s, fmt, segs, j),
        forall|j: int| 0 <= j < segs ==> be_u16(s, #[trigger] end_code_at(fmt, j)) < code,
    ensures
        scan_segments(s, fmt, segs, code, 0) == Ok::<u16, DecodeError>(0),
{
    assert forall|j: int| 0 <= j < segs implies !#[trigger] segment_covers(s, fmt, segs, j, code) by {
        assert(be_u16(s, end_code_at(fmt, j)) < code);
    }
    lemma_uncovered_is_missing_glyph(s, fmt, segs, code, 0);
}

/// A character above U+FFFF has the missing glyph wherever the lookup
/// succeeds: no end code reaches it.
pub proof fn lemma_astral_is_missing_glyph(s: Seq<u8>, fmt: int, segs: int, code: int, i: int)
    requires
        0 <= i,
        code > 0xffff,
        scan_segments(s, fmt, segs, code, i) is Ok,
    ensures
        scan_segments(s, fmt, segs, code, i) == Ok::<u16, DecodeError>(0),
    decreases segs - i,
{
    if i < segs {
        lemma_astral_is_missing_glyph(s, fmt, segs, code, i + 1);
    }
}

/// The first segment that covers a code point decides: the scan gives what
/// that segment gives.
pub proof fn lemma_first_covering_segment_decides(
    s: Seq<u8>,
    fmt: int,
    segs: int,
    code: int,
    i: int,
    m: int,
)
    requires
        0 <= i <= m < segs,
        forall|j: int| i <= j <= m ==> #[trigger] segment_fits(s, fmt, segs, j),
        forall|j: int| i <= j < m ==> !#[trigger] segment_covers(s, fmt, segs, j, code),
        segment_covers(s, fmt, segs, m, code),
    ensures
        scan_segments(s, fmt, segs, code, i) == segment_glyph(s, fmt, segs, m, code),
    decreases m - i,
{
    assert(segment_fits(s, fmt, segs, i));
    if i < m {
        assert(!segment_covers(s, fmt, segs, i, code));
        lemma_first_covering_segment_decides(s, fmt, segs, code, i + 1, m);
    }
}

/// Where the first segment that covers a code point has no range offset,
/// the glyph is the code point plus the delta of that segment, modulo 65536.
pub proof fn lemma_direct_mapping(s: Seq<u8>, fmt: int, segs: int, code: int, m: int)
    requires
        0 <= m < segs,
        forall|j: int| 0 <= j <= m ==> #[trigger] segment_fits(s, fmt, segs, j),
        forall|j: int| 0 <= j < m ==> !#[trigger] segment_covers(s, fmt, segs, j, code),
        segment_covers(s, fmt, segs, m, code),
        be_u16(s, id_range_offset_at(fmt, segs, m)) == 0,
    ensures
        scan_segments(s, fmt, segs, code, 0) matches Ok(glyph) && glyph == (be_i16(
            s,
            id_delta_at(fmt, segs, m),
        ) + code) % 0x1_0000,
{
    lemma_first_covering_segment_decides(s, fmt, segs, code, 0, m);
}

/// `v` modulo 65536, for a sum of a 16-bit number and a delta.
fn wrap(v: i32) -> (r: u16)
    requires
        -0x8000 <= v < 0x1_8000,
    ensures
        r == wrap_u16(v as int),
{
    if v < 0 {
        (v + 0x1_0000) as u16
    } else if v >= 0x1_0000 {
        (v - 0x1_0000) as u16
    } else {
        v as u16
    }
}

/// What segment `i` says of the code point `code`: nothing where it does
/// not cover it, else its glyph.
pub open spec fn probe(s: Seq<u8>, fmt: int, segs: int, i: int, code: int) -> Result<
    Option<u16>,
    DecodeError,
> {
    if !segment_fits(s, fmt, segs, i) {
        Err(DecodeError::OutOfBounds)
    } else if !segment_covers(s, fmt, segs, i, code) {
        Ok(None)
    } else {
        match segment_glyph(s, fmt, segs, i, code) {
            Ok(glyph) => Ok(Some(glyph)),
            Err(e) => Err(e),
        }
    }
}

/// Reads segment `i` and asks it for the glyph of `code`.
fn probe_segment(bytes: &[u8], fmt: usize, segs: usize, i: usize, code: u32) -> (r: Result<
    Option<u16>,
    DecodeError,
>)
    requires
        i < segs <= 0x7fff,
    ensures
        r == probe(bytes@, fmt as int, segs as int, i as int, code as int),
{
    let start_codes = END_CODES_AT + 2 * segs + 2;
    let id_deltas = start_codes + 2 * segs;
    let id_range_offsets = id_deltas + 2 * segs;
    let end_code = field_u16(bytes, fmt, END_CODES_AT + 2 * i)?;
    let start_code = field_u16(bytes, fmt, start_codes + 2 * i)?;
    let id_delta = field_i16(bytes, fmt, id_deltas + 2 * i)?;
    let id_range_offset = field_u16(bytes, fmt, id_range_offsets + 2 * i)?;
    if end_code as u32 >= code && start_code as u32 <= code {
        if id_range_offset != 0 {
            let rel = id_range_offsets + 2 * i + id_range_offset as usize + 2 * ((code
                - start_code as u32) as usize);
            let glyph = field_u16(bytes, fmt, rel)?;
            if glyph != 0 {
                Ok(Some(wrap(glyph as i32 + id_delta as i32)))
            } else {
                Ok(Some(0))
            }
        } else {
            Ok(Some(wrap(id_delta as i32 + code as i32)))
        }
    } else {
        Ok(None)
    }
}

/// Looks up the glyph of `character`: the glyph identifier that the first
/// segment covering its code point gives it, and 0 where no segment does.
pub fn get_glyph_id(bytes: &[u8], table_offsets: &HashMap<u32, usize>, character: char) -> (r:
    Result<u16, DecodeError>)
    ensures
        r == glyph_id(bytes@, table_offsets@, character),
{
    proof {
        vstd::slice::axiom_spec_len(bytes);
    }
    let cmap = table_offset(table_offsets, CMAP);
    let subtable_offset = field_u32(bytes, cmap, SUBTABLE_OFFSET_AT)?;
    let fmt = match cmap.checked_add(subtable_offset as usize) {
        Some(fmt) => fmt,
        None => {
            return Err(DecodeError::OutOfBounds);
        },
    };
    let seg_count = (field_u16(bytes, fmt, SEGMENT_COUNT_AT)? / 2) as usize;
    let code: u32 = character as u32;
    let ghost s = bytes@;
    let mut i: usize = 0;
    while i < seg_count
        invariant
            i <= seg_count <= 0x7fff,
            s == bytes@,
            glyph_id(s, table_offsets@, character) == scan_segments(
                s,
                fmt as int,
                seg_count as int,
                code as int,
                i as int,
            ),
        decreases seg_count - i,
    {
        match probe_segment(bytes, fmt, seg_count, i, code) {
            Ok(Some(glyph)) => {
                return Ok(glyph);
            },
            Ok(None) => {},
            Err(e) => {
                return Err(e);
            },
        }
        i += 1;
    }
    Ok(0)
}

} // verus!
