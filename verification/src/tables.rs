//! The table directory: which table starts where.
//!
//! The font header holds the number of tables at byte 4. The table records
//! follow from byte 12 on, 16 bytes each: the tag, a checksum, the offset of
//! the table in the buffer, its length. A tag is kept as the 32-bit number that
//! its four bytes spell; of two records with one tag the later one counts.

use crate::error::DecodeError;
use crate::reader::{be_u16, be_u32, in_bounds, to_u16, to_u32};
use std::collections::HashMap;
use vstd::prelude::*;

verus! {

broadcast use vstd::std_specs::hash::group_hash_axioms;

/// The tag `head` of the font-header table.
pub const HEAD: u32 = 0x6865_6164;

/// The tag `maxp` of the maximum-profile table.
pub const MAXP: u32 = 0x6d61_7870;

/// The tag `loca` of the glyph-location table.
pub const LOCA: u32 = 0x6c6f_6361;

/// The tag `cmap` of the character-mapping table.
pub const CMAP: u32 = 0x636d_6170;

/// The tag `glyf` of the glyph-outline table.
pub const GLYF: u32 = 0x676c_7966;

/// Where the header holds the number of tables.
pub const TABLE_COUNT_AT: usize = 4;

/// Where the first table record starts.
pub const RECORDS_AT: usize = 12;

/// The length of a table record.
pub const RECORD_LEN: usize = 16;

/// Where, inside a table record, the table's offset stands.
pub const RECORD_OFFSET_AT: usize = 8;

/// The number of tables that the header declares.
pub open spec fn table_count(s: Seq<u8>) -> nat {
    be_u16(s, TABLE_COUNT_AT as int) as nat
}

/// Where the table record `i` starts.
pub open spec fn record_at(i: int) -> int {
    RECORDS_AT + RECORD_LEN * i
}

/// The tag of the table record `i`.
pub open spec fn record_tag(s: Seq<u8>, i: int) -> u32 {
    be_u32(s, record_at(i))
}

/// The table offset that the table record `i` gives.
pub open spec fn record_offset(s: Seq<u8>, i: int) -> usize {
    be_u32(s, record_at(i) + RECORD_OFFSET_AT) as usize
}

/// The directory that the first `n` table records make.
pub open spec fn directory_of(s: Seq<u8>, n: nat) -> Map<u32, usize>
    decreases n,
{
    if n == 0 {
        Map::empty()
    } else {
        directory_of(s, (n - 1) as nat).insert(record_tag(s, n - 1), record_offset(s, n - 1))
    }
}

/// The table count and every table record that it announces lie inside `s`.
pub open spec fn directory_fits(s: Seq<u8>) -> bool {
    &&& in_bounds(s, TABLE_COUNT_AT as int, 2)
    &&& table_count(s) > 0 ==> in_bounds(s, record_at(table_count(s) - 1) + RECORD_OFFSET_AT, 4)
}

/// The table directory of the font `s`.
pub open spec fn table_directory(s: Seq<u8>) -> Result<Map<u32, usize>, DecodeError> {
    if directory_fits(s) {
        Ok(directory_of(s, table_count(s)))
    } else {
        Err(DecodeError::OutOfBounds)
    }
}

/// The offset that `dir` has for `tag`, and 0 where it has none.
pub open spec fn offset_in(dir: Map<u32, usize>, tag: u32) -> usize {
    if dir.contains_key(tag) {
        dir[tag]
    } else {
        0
    }
}

/// A tag is in the directory exactly when one of the records carries it, and
/// its offset is that of the last such record.
pub proof fn lemma_directory_last_record_wins(s: Seq<u8>, n: nat, tag: u32)
    ensures
        directory_of(s, n).contains_key(tag) <==> exists|i: int|
            0 <= i < n && #[trigger] record_tag(s, i) == tag,
        forall|i: int|
            0 <= i < n && #[trigger] record_tag(s, i) == tag && (forall|j: int|
                i < j < n ==> #[trigger] record_tag(s, j) != tag) ==> directory_of(s, n)[tag]
                == record_offset(s, i),
    decreases n,
{
    if n > 0 {
        lemma_directory_last_record_wins(s, (n - 1) as nat, tag);
        if record_tag(s, n - 1) != tag {
            assert forall|i: int|
                0 <= i < n && #[trigger] record_tag(s, i) == tag && (forall|j: int|
                    i < j < n ==> #[trigger] record_tag(s, j) != tag) implies directory_of(s, n)[tag]
                == record_offset(s, i) by {
                assert(i < n - 1);
            }
        }
    }
}

/// Reads the table directory.
pub fn parse_table_offsets(bytes: &[u8]) -> (r: Result<HashMap<u32, usize>, DecodeError>)
    ensures
        r is Ok <==> directory_fits(bytes@),
        r matches Ok(dir) ==> dir@ == directory_of(bytes@, table_count(bytes@)),
        r matches Err(e) ==> e == DecodeError::OutOfBounds,
{
    let num_tables = to_u16(bytes, TABLE_COUNT_AT)?;
    let mut table_offsets: HashMap<u32, usize> = HashMap::new();
    let mut i: u16 = 0;
    while i < num_tables
        invariant
            i <= num_tables,
            num_tables == table_count(bytes@),
            in_bounds(bytes@, TABLE_COUNT_AT as int, 2),
            table_offsets@ == directory_of(bytes@, i as nat),
            i > 0 ==> in_bounds(bytes@, record_at(i - 1) + RECORD_OFFSET_AT, 4),
        decreases num_tables - i,
    {
        let record = RECORDS_AT + RECORD_LEN * (i as usize);
        let tag = to_u32(bytes, record)?;
        let offset = to_u32(bytes, record + RECORD_OFFSET_AT)?;
        table_offsets.insert(tag, offset as usize);
        i += 1;
    }
    Ok(table_offsets)
}

/// The offset of the table `tag`; 0 where the directory does not name it.
pub fn table_offset(table_offsets: &HashMap<u32, usize>, tag: u32) -> (r: usize)
    ensures
        r == offset_in(table_offsets@, tag),
{
    match table_offsets.get(&tag) {
        Some(offset) => *offset,
        None => 0,
    }
}

} // verus!
