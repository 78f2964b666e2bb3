use std::collections::HashMap;
use ttf_glyphs::tables::CMAP;
use ttf_glyphs::{get_glyph_id, DecodeError};

struct Segment {
    start: u16,
    end: u16,
    id_delta: i16,
    id_range_offset: u16,
}

fn segment(start: u16, end: u16, id_delta: i16, id_range_offset: u16) -> Segment {
    Segment { start, end, id_delta, id_range_offset }
}

/// A character-mapping table with one encoding record and one subtable of
/// format 4, which starts 12 bytes into the table.
fn cmap_table(segments: &[Segment], glyph_ids: &[u16]) -> Vec<u8> {
    let mut t: Vec<u8> = Vec::new();
    let word = |t: &mut Vec<u8>, v: u16| t.extend_from_slice(&v.to_be_bytes());
    word(&mut t, 0); // version
    word(&mut t, 1); // number of encoding records
    word(&mut t, 3); // platform
    word(&mut t, 1); // encoding
    t.extend_from_slice(&12u32.to_be_bytes());
    word(&mut t, 4); // format
    word(&mut t, (16 + 8 * segments.len() + 2 * glyph_ids.len()) as u16);
    word(&mut t, 0); // language
    word(&mut t, 2 * segments.len() as u16);
    word(&mut t, 0);
    word(&mut t, 0);
    word(&mut t, 0);
    for s in segments {
        word(&mut t, s.end);
    }
    word(&mut t, 0);
    for s in segments {
        word(&mut t, s.start);
    }
    for s in segments {
        t.extend_from_slice(&s.id_delta.to_be_bytes());
    }
    for s in segments {
        word(&mut t, s.id_range_offset);
    }
    for g in glyph_ids {
        word(&mut t, *g);
    }
    t
}

fn cmap_at(offset: usize) -> HashMap<u32, usize> {
    let mut dir = HashMap::new();
    dir.insert(CMAP, offset);
    dir
}

#[test]
fn one_segment_maps_capital_letters_to_their_code_points() {
    let bytes = cmap_table(&[segment(65, 90, 0, 0)], &[]);
    let dir = cmap_at(0);
    assert_eq!(get_glyph_id(&bytes, &dir, 'A'), Ok(65));
    assert_eq!(get_glyph_id(&bytes, &dir, 'M'), Ok(77));
    assert_eq!(get_glyph_id(&bytes, &dir, 'Z'), Ok(90));
}

#[test]
fn a_character_that_no_segment_covers_has_the_missing_glyph() {
    let bytes = cmap_table(&[segment(65, 90, 0, 0)], &[]);
    let dir = cmap_at(0);
    assert_eq!(get_glyph_id(&bytes, &dir, '@'), Ok(0));
    assert_eq!(get_glyph_id(&bytes, &dir, '['), Ok(0));
    assert_eq!(get_glyph_id(&bytes, &dir, 'a'), Ok(0));
    assert_eq!(get_glyph_id(&bytes, &dir, '\u{ffff}'), Ok(0));
    let none = cmap_table(&[], &[]);
    assert_eq!(get_glyph_id(&none, &dir, 'A'), Ok(0));
}

#[test]
fn the_delta_is_added_modulo_65536() {
    let bytes = cmap_table(
        &[segment(0x20, 0x7e, -29, 0), segment(0xa0, 0xff, 100, 0), segment(0xffff, 0xffff, 1, 0)],
        &[],
    );
    let dir = cmap_at(0);
    assert_eq!(get_glyph_id(&bytes, &dir, ' '), Ok(3));
    assert_eq!(get_glyph_id(&bytes, &dir, 'A'), Ok(36));
    assert_eq!(get_glyph_id(&bytes, &dir, '\u{e9}'), Ok(0xe9 + 100));
    assert_eq!(get_glyph_id(&bytes, &dir, '\u{ffff}'), Ok(0));
    assert_eq!(get_glyph_id(&bytes, &dir, '\u{7f}'), Ok(0));
    let wraps = cmap_table(&[segment(10, 20, -11, 0), segment(0xf000, 0xf0ff, 0x7fff, 0)], &[]);
    assert_eq!(get_glyph_id(&wraps, &dir, '\u{a}'), Ok(0xffff));
    assert_eq!(get_glyph_id(&wraps, &dir, '\u{b}'), Ok(0));
    assert_eq!(get_glyph_id(&wraps, &dir, '\u{f001}'), Ok(0x7000));
}

#[test]
fn a_range_offset_is_counted_from_where_it_stands() {
    // Two segments: the range offsets take four bytes, so the glyph array
    // starts four bytes behind the first of them and two behind the second.
    let bytes = cmap_table(
        &[segment(65, 67, 0, 4), segment(0x100, 0x101, 5, 2 + 2 * 3)],
        &[10, 0, 12, 7, 0],
    );
    let dir = cmap_at(0);
    assert_eq!(get_glyph_id(&bytes, &dir, 'A'), Ok(10));
    assert_eq!(get_glyph_id(&bytes, &dir, 'B'), Ok(0));
    assert_eq!(get_glyph_id(&bytes, &dir, 'C'), Ok(12));
    assert_eq!(get_glyph_id(&bytes, &dir, '\u{100}'), Ok(12));
    assert_eq!(get_glyph_id(&bytes, &dir, '\u{101}'), Ok(0));
    assert_eq!(get_glyph_id(&bytes, &dir, 'D'), Ok(0));
}

#[test]
fn a_looked_up_glyph_has_the_delta_added_modulo_65536() {
    let bytes = cmap_table(&[segment(65, 66, -3, 2)], &[2, 0xffff]);
    let dir = cmap_at(0);
    assert_eq!(get_glyph_id(&bytes, &dir, 'A'), Ok(0xffff));
    assert_eq!(get_glyph_id(&bytes, &dir, 'B'), Ok(0xfffc));
    let up = cmap_table(&[segment(65, 66, 3, 2)], &[0xfffe, 1]);
    assert_eq!(get_glyph_id(&up, &dir, 'A'), Ok(1));
    assert_eq!(get_glyph_id(&up, &dir, 'B'), Ok(4));
}

#[test]
fn a_glyph_looked_up_past_the_end_fails() {
    let bytes = cmap_table(&[segment(65, 70, 0, 2)], &[1, 2]);
    let dir = cmap_at(0);
    assert_eq!(get_glyph_id(&bytes, &dir, 'A'), Ok(1));
    assert_eq!(get_glyph_id(&bytes, &dir, 'B'), Ok(2));
    assert_eq!(get_glyph_id(&bytes, &dir, 'C'), Err(DecodeError::OutOfBounds));
    assert_eq!(get_glyph_id(&bytes, &dir, 'G'), Ok(0));
}

#[test]
fn the_first_segment_that_covers_the_character_decides() {
    let bytes = cmap_table(&[segment(65, 90, 0, 0), segment(60, 100, 1000, 0)], &[]);
    let dir = cmap_at(0);
    assert_eq!(get_glyph_id(&bytes, &dir, 'A'), Ok(65));
    assert_eq!(get_glyph_id(&bytes, &dir, '<'), Ok(1060));
    assert_eq!(get_glyph_id(&bytes, &dir, 'd'), Ok(1100));
}

#[test]
fn a_character_above_the_basic_plane_has_the_missing_glyph() {
    // U+10041 ends in the sixteen bits of 'A'.
    let bytes = cmap_table(&[segment(65, 90, 0, 0), segment(0xffff, 0xffff, 1, 0)], &[]);
    let dir = cmap_at(0);
    assert_eq!(get_glyph_id(&bytes, &dir, '\u{10041}'), Ok(0));
    assert_eq!(get_glyph_id(&bytes, &dir, '\u{1f600}'), Ok(0));
    assert_eq!(get_glyph_id(&bytes, &dir, '\u{10ffff}'), Ok(0));
}

#[test]
fn the_table_may_start_anywhere() {
    let table = cmap_table(&[segment(65, 90, 0, 0)], &[]);
    let mut bytes = vec![0x55; 37];
    bytes.extend_from_slice(&table);
    assert_eq!(get_glyph_id(&bytes, &cmap_at(37), 'Q'), Ok(81));
}

#[test]
fn the_subtable_starts_where_the_first_encoding_record_says() {
    let table = cmap_table(&[segment(65, 90, 0, 0)], &[]);
    let mut bytes = table[..12].to_vec();
    bytes[8..12].copy_from_slice(&20u32.to_be_bytes());
    bytes.extend_from_slice(&[0; 8]);
    bytes.extend_from_slice(&table[12..]);
    assert_eq!(get_glyph_id(&bytes, &cmap_at(0), 'A'), Ok(65));
}

#[test]
fn a_character_map_that_is_cut_off_fails() {
    let bytes = cmap_table(&[segment(65, 90, 0, 0), segment(97, 122, -90, 0)], &[]);
    let dir = cmap_at(0);
    assert_eq!(bytes.len(), 12 + 16 + 16);
    assert_eq!(get_glyph_id(&bytes, &dir, 'a'), Ok(7));
    // Every field of a segment is read before the segment is asked.
    assert_eq!(get_glyph_id(&bytes[..43], &dir, 'a'), Err(DecodeError::OutOfBounds));
    assert_eq!(get_glyph_id(&bytes[..42], &dir, 'A'), Ok(65));
    assert_eq!(get_glyph_id(&bytes[..41], &dir, 'A'), Err(DecodeError::OutOfBounds));
    assert_eq!(get_glyph_id(&bytes[..19], &dir, 'A'), Err(DecodeError::OutOfBounds));
    assert_eq!(get_glyph_id(&bytes[..11], &dir, 'A'), Err(DecodeError::OutOfBounds));
    assert_eq!(get_glyph_id(&[], &dir, 'A'), Err(DecodeError::OutOfBounds));
    assert_eq!(get_glyph_id(&bytes, &cmap_at(usize::MAX), 'A'), Err(DecodeError::OutOfBounds));
    assert_eq!(get_glyph_id(&bytes, &cmap_at(usize::MAX - 8), 'A'), Err(DecodeError::OutOfBounds));
}

#[test]
fn a_subtable_offset_past_the_end_fails() {
    let mut bytes = cmap_table(&[segment(65, 90, 0, 0)], &[]);
    bytes[8..12].copy_from_slice(&0xffff_fff0u32.to_be_bytes());
    assert_eq!(get_glyph_id(&bytes, &cmap_at(0), 'A'), Err(DecodeError::OutOfBounds));
}

#[test]
fn a_font_without_a_character_map_is_read_from_its_start() {
    let bytes = cmap_table(&[segment(65, 90, 0, 0)], &[]);
    assert_eq!(get_glyph_id(&bytes, &HashMap::new(), 'A'), Ok(65));
}

#[test]
fn looking_a_character_up_twice_gives_one_glyph() {
    let bytes = cmap_table(&[segment(65, 67, 9, 2)], &[10, 0, 12]);
    let dir = cmap_at(0);
    for c in ['A', 'B', 'C', 'D', '\u{1f600}'] {
        assert_eq!(get_glyph_id(&bytes, &dir, c), get_glyph_id(&bytes, &dir, c));
    }
    assert_eq!(get_glyph_id(&bytes, &dir, 'A'), Ok(19));
}
