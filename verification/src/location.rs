//! How many glyphs the font has, and where the data of each one starts.
//!
//! The location table holds one offset for each glyph and one more: the
//! data of glyph `i` lies between entry `i` and entry `i + 1`, both counted
//! from the start of the glyph-outline table. The font header says which of
//! two forms the entries have: 16 bits holding half the offset, or 32 bits
//! holding the offset.

use crate::error::{decodes_to, DecodeError};
use crate::reader::{
    be_u16, be_u32, field_i16, field_u16, field_u32, in_bounds, read_i16, read_u16,
};
use crate::tables::{offset_in, table_offset, HEAD, LOCA, MAXP};
use std::collections::HashMap;
use vstd::prelude::*;

verus! {

/// Where the maximum-profile table holds the number of glyphs.
pub const NUM_GLYPHS_AT: usize = 4;

/// Where the font-header table holds the form of the location entries.
pub const LOCATION_FORMAT_AT: usize = 52;

/// The number of glyphs of the font `s`.
pub open spec fn glyph_count(s: Seq<u8>, dir: Map<u32, usize>) -> Result<u16, DecodeError> {
    read_u16(s, offset_in(dir, MAXP) + NUM_GLYPHS_AT)
}

/// The form of the location entries: 0 for the short one.
pub open spec fn location_format(s: Seq<u8>, dir: Map<u32, usize>) -> Result<i16, DecodeError> {
    read_i16(s, offset_in(dir, HEAD) + LOCATION_FORMAT_AT)
}

/// The width of a location entry of the form `format`.
pub open spec fn entry_width(format: i16) -> int {
    if format == 0 {
        2
    } else {
        4
    }
}

/// Where the location entry `i` stands.
pub open spec fn entry_at(dir: Map<u32, usize>, format: i16, i: int) -> int {
    if format == 0 {
        offset_in(dir, LOCA) + 2 * i
    } else {
        offset_in(dir, LOCA) + 4 * i
    }
}

/// The offset that the location entry `i` gives: twice the stored number in
/// the short form, the stored number in the long one.
pub open spec fn entry(s: Seq<u8>, dir: Map<u32, usize>, format: i16, i: int) -> usize {
    if format == 0 {
        (be_u16(s, entry_at(dir, format, i)) * 2) as usize
    } else {
        be_u32(s, entry_at(dir, format, i)) as usize
    }
}

/// The location table of a font with `num_glyphs` glyphs: one entry for each
/// glyph, and the one behind the last glyph.
pub open spec fn glyph_locations(s: Seq<u8>, dir: Map<u32, usize>, num_glyphs: u16) -> Result<
    Seq<usize>,
    DecodeError,
> {
    match location_format(s, dir) {
        Err(e) => Err(e),
        Ok(format) => if in_bounds(s, entry_at(dir, format, num_glyphs as int), entry_width(format)) {
            Ok(Seq::new((num_glyphs + 1) as nat, |i: int| entry(s, dir, format, i)))
        } else {
            Err(DecodeError::OutOfBounds)
        },
    }
}

/// Reads the number of glyphs from the maximum-profile table.
pub fn get_num_glyphs(bytes: &[u8], table_offsets: &HashMap<u32, usize>) -> (r: Result<
    u16,
    DecodeError,
>)
    ensures
        r == glyph_count(bytes@, table_offsets@),
{
    field_u16(bytes, table_offset(table_offsets, MAXP), NUM_GLYPHS_AT)
}

/// Reads the location table: `num_glyphs + 1` offsets into the glyph-outline
/// table.
pub fn get_glyph_offsets(bytes: &[u8], table_offsets: &HashMap<u32, usize>, num_glyphs: u16) -> (r:
    Result<Vec<usize>, DecodeError>)
    ensures
        decodes_to(r, glyph_locations(bytes@, table_offsets@, num_glyphs)),
{
    let format = field_i16(bytes, table_offset(table_offsets, HEAD), LOCATION_FORMAT_AT)?;
    let loca = table_offset(table_offsets, LOCA);
    let entries: usize = num_glyphs as usize + 1;
    let mut loca_offsets: Vec<usize> = Vec::new();
    let mut i: usize = 0;
    while i < entries
        invariant
            i <= entries,
            entries == num_glyphs + 1,
            location_format(bytes@, table_offsets@) == Ok::<i16, DecodeError>(format),
            loca == offset_in(table_offsets@, LOCA),
            loca_offsets@.len() == i,
            i > 0 ==> in_bounds(
                bytes@,
                entry_at(table_offsets@, format, i - 1),
                entry_width(format),
            ),
            forall|j: int|
                0 <= j < i ==> #[trigger] loca_offsets@[j] == entry(
                    bytes@,
                    table_offsets@,
                    format,
                    j,
                ),
        decreases entries - i,
    {
        if format == 0 {
            let half = field_u16(bytes, loca, 2 * i)?;
            loca_offsets.push(half as usize * 2);
        } else {
            let whole = field_u32(bytes, loca, 4 * i)?;
            loca_offsets.push(whole as usize);
        }
        i += 1;
    }
    assert(loca_offsets@ =~= glyph_locations(bytes@, table_offsets@, num_glyphs)->Ok_0);
    Ok(loca_offsets)
}

} // verus!
