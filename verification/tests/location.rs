use std::collections::HashMap;
use ttf_glyphs::tables::{HEAD, LOCA, MAXP};
use ttf_glyphs::{get_glyph_offsets, get_num_glyphs, DecodeError};

fn tables_at(head: usize, loca: usize, maxp: usize) -> HashMap<u32, usize> {
    let mut dir = HashMap::new();
    dir.insert(HEAD, head);
    dir.insert(LOCA, loca);
    dir.insert(MAXP, maxp);
    dir
}

/// A buffer with a font-header table of 54 bytes at 0, whose location form
/// is `format`, and the bytes `loca` behind it.
fn head_and_loca(format: i16, loca: &[u8]) -> Vec<u8> {
    let mut bytes = vec![0xaa; 52];
    bytes.extend_from_slice(&format.to_be_bytes());
    bytes.extend_from_slice(loca);
    bytes
}

#[test]
fn reads_the_number_of_glyphs() {
    let bytes = vec![0, 1, 0, 0, 0x01, 0x02, 9, 9];
    assert_eq!(get_num_glyphs(&bytes, &tables_at(0, 0, 0)), Ok(0x0102));
    assert_eq!(get_num_glyphs(&bytes, &tables_at(0, 0, 2)), Ok(0x0909));
    assert_eq!(get_num_glyphs(&bytes, &HashMap::new()), Ok(0x0102));
}

#[test]
fn the_number_of_glyphs_past_the_end_fails() {
    let bytes = vec![0, 1, 0, 0, 0x01, 0x02];
    assert_eq!(get_num_glyphs(&bytes, &tables_at(0, 0, 1)), Err(DecodeError::OutOfBounds));
    assert_eq!(get_num_glyphs(&bytes, &tables_at(0, 0, usize::MAX)), Err(DecodeError::OutOfBounds));
    assert_eq!(get_num_glyphs(&bytes[..5], &tables_at(0, 0, 0)), Err(DecodeError::OutOfBounds));
}

#[test]
fn short_entries_are_doubled() {
    let bytes = head_and_loca(0, &[0, 0, 0, 5, 0, 5, 0xff, 0xff]);
    let dir = tables_at(0, 54, 0);
    assert_eq!(get_glyph_offsets(&bytes, &dir, 3), Ok(vec![0, 10, 10, 131070]));
}

#[test]
fn long_entries_are_taken_as_they_are() {
    let bytes = head_and_loca(1, &[0, 0, 0, 0, 0, 0, 0, 5, 0, 1, 0, 0]);
    let dir = tables_at(0, 54, 0);
    assert_eq!(get_glyph_offsets(&bytes, &dir, 2), Ok(vec![0, 5, 0x1_0000]));
    let negative = head_and_loca(-1, &[0, 0, 0, 0, 0, 0, 0, 5, 0xff, 0xff, 0xff, 0xff]);
    assert_eq!(get_glyph_offsets(&negative, &dir, 2), Ok(vec![0, 5, 0xffff_ffff]));
}

#[test]
fn there_is_one_entry_more_than_glyphs() {
    let bytes = head_and_loca(0, &[0, 7]);
    let dir = tables_at(0, 54, 0);
    assert_eq!(get_glyph_offsets(&bytes, &dir, 0), Ok(vec![14]));
    let many = head_and_loca(0, &[0; 2 * 301]);
    assert_eq!(get_glyph_offsets(&many, &dir, 300).map(|v| v.len()), Ok(301));
}

#[test]
fn a_location_table_that_is_cut_off_fails() {
    let short = head_and_loca(0, &[0, 0, 0, 5, 0, 5]);
    let dir = tables_at(0, 54, 0);
    assert_eq!(get_glyph_offsets(&short, &dir, 2).map(|v| v.len()), Ok(3));
    assert_eq!(get_glyph_offsets(&short, &dir, 3), Err(DecodeError::OutOfBounds));
    let long = head_and_loca(1, &[0, 0, 0, 5, 0, 5]);
    assert_eq!(get_glyph_offsets(&long, &dir, 1), Err(DecodeError::OutOfBounds));
    assert_eq!(get_glyph_offsets(&long, &dir, 0), Ok(vec![5]));
}

#[test]
fn the_location_form_past_the_end_fails() {
    let bytes = head_and_loca(0, &[0, 0]);
    assert_eq!(get_glyph_offsets(&bytes[..53], &tables_at(0, 0, 0), 0), Err(DecodeError::OutOfBounds));
    assert_eq!(get_glyph_offsets(&bytes, &tables_at(3, 0, 0), 0), Err(DecodeError::OutOfBounds));
    assert_eq!(
        get_glyph_offsets(&bytes, &tables_at(usize::MAX - 10, 0, 0), 0),
        Err(DecodeError::OutOfBounds)
    );
}

#[test]
fn the_location_form_stands_52_bytes_into_the_font_header() {
    let mut bytes = vec![0u8; 120];
    // font header at 10: the form at 62
    bytes[62] = 0;
    bytes[63] = 1;
    // location table at 100
    bytes[100..108].copy_from_slice(&[0, 0, 0, 4, 0, 0, 0, 9]);
    let dir = tables_at(10, 100, 0);
    assert_eq!(get_glyph_offsets(&bytes, &dir, 1), Ok(vec![4, 9]));
    bytes[63] = 0;
    assert_eq!(get_glyph_offsets(&bytes, &dir, 1), Ok(vec![0, 8]));
}
