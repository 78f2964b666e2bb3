//! The outlines of a set of characters, put together from the tables.

use crate::charmap::{get_glyph_id, glyph_id};
use crate::error::{decodes_to, DecodeError};
use crate::location::{get_glyph_offsets, get_num_glyphs, glyph_count, glyph_locations};
use crate::outline::{get_glyph, glyph_outline, Outline, SimpleGlyph};
use crate::tables::{offset_in, parse_table_offsets, table_directory, GLYF};
use std::collections::HashMap;
use vstd::prelude::*;

verus! {

broadcast use vstd::std_specs::hash::group_hash_axioms;

/// The glyphs of the characters that were asked for, under the code point of
/// each character.
#[derive(Debug, PartialEq, Eq)]
pub struct Font {
    pub glyphs: HashMap<u32, SimpleGlyph>,
}

/// The code point of `c`.
pub open spec fn code_point(c: char) -> u32 {
    c as u32
}

/// Two characters with one code point are one character.
pub proof fn lemma_code_point_injective(a: char, b: char)
    requires
        code_point(a) == code_point(b),
    ensures
        a == b,
{
    vstd::utf8::char_u32_cast(a, a as u32);
    vstd::utf8::char_u32_cast(b, b as u32);
}

/// The outlines that `glyphs` holds, by character.
pub open spec fn outlines(glyphs: Map<u32, SimpleGlyph>) -> Map<char, Outline> {
    Map::new(|c: char| glyphs.contains_key(code_point(c)), |c: char| glyphs[code_point(c)]@)
}

impl View for Font {
    type V = Map<char, Outline>;

    open spec fn view(&self) -> Map<char, Outline> {
        outlines(self.glyphs@)
    }
}

impl Font {
    /// The glyph of the character `c`, if the font has one.
    pub fn get(&self, c: char) -> (r: Option<&SimpleGlyph>)
        ensures
            match r {
                Some(glyph) => self@.contains_key(c) && self@[c] == glyph@,
                None => !self@.contains_key(c),
            },
    {
        let code: u32 = c as u32;
        self.glyphs.get(&code)
    }
}

/// Whether `c` is white space as Unicode defines it: what
/// `char::is_whitespace` says of it.
pub uninterp spec fn white_space(c: char) -> bool;

/// `char::is_whitespace` of std. The contract gives its answer the name
/// `white_space`: the answer depends on the character alone.
#[verifier::external_body]
fn is_whitespace(c: char) -> (r: bool)
    ensures
        r == white_space(c),
{
    c.is_whitespace()
}

/// The characters of `v` rise: each one has a larger code point than the one
/// before, so none occurs twice.
pub open spec fn strictly_rising(v: Seq<char>) -> bool {
    forall|i: int, j: int| 0 <= i < j < v.len() ==> (v[i] as u32) < (v[j] as u32)
}

/// The characters of `text` that are not white space, in the order of the
/// text.
pub open spec fn visible(text: Seq<char>) -> Seq<char> {
    text.filter(|c: char| !white_space(c))
}

/// A character is visible in a text when it occurs there and is not white
/// space.
pub proof fn lemma_visible_contains(text: Seq<char>, c: char)
    ensures
        visible(text).contains(c) <==> text.contains(c) && !white_space(c),
{
    let pred = |c: char| !white_space(c);
    if visible(text).contains(c) {
        text.lemma_filter_contains_rev(pred, c);
        let i = choose|i: int| 0 <= i < visible(text).len() && visible(text)[i] == c;
        text.lemma_filter_pred(pred, i);
    }
    if text.contains(c) && !white_space(c) {
        let i = choose|i: int| 0 <= i < text.len() && text[i] == c;
        text.lemma_filter_contains(pred, i);
    }
}

/// The outline that the font gives to the glyph `id`: none where the glyph
/// is not in the location table or takes no room in the glyph-outline table.
pub open spec fn located_outline(
    s: Seq<u8>,
    dir: Map<u32, usize>,
    locations: Seq<usize>,
    id: u16,
) -> Result<Option<Outline>, DecodeError> {
    if id + 1 < locations.len() && locations[id as int] < locations[id + 1] {
        match glyph_outline(s, offset_in(dir, GLYF) + locations[id as int]) {
            Ok(outline) => Ok(Some(outline)),
            Err(e) => Err(e),
        }
    } else {
        Ok(None)
    }
}

/// The outline that the font gives to the character `c`: none where its
/// glyph has none, and none where looking it up or decoding it fails.
pub open spec fn char_outline(
    s: Seq<u8>,
    dir: Map<u32, usize>,
    locations: Seq<usize>,
    c: char,
) -> Option<Outline> {
    match glyph_id(s, dir, c) {
        Ok(id) => match located_outline(s, dir, locations, id) {
            Ok(Some(outline)) => Some(outline),
            _ => None,
        },
        Err(_) => None,
    }
}

/// The outlines of those of `chars` that have one.
pub open spec fn font_of(
    s: Seq<u8>,
    dir: Map<u32, usize>,
    locations: Seq<usize>,
    chars: Seq<char>,
) -> Map<char, Outline> {
    Map::new(
        |c: char| chars.contains(c) && char_outline(s, dir, locations, c) is Some,
        |c: char| char_outline(s, dir, locations, c)->Some_0,
    )
}

/// The tables that every lookup goes through: the directory and the location
/// table.
pub open spec fn font_tables(s: Seq<u8>) -> Result<(Map<u32, usize>, Seq<usize>), DecodeError> {
    match table_directory(s) {
        Err(e) => Err(e),
        Ok(dir) => match glyph_count(s, dir) {
            Err(e) => Err(e),
            Ok(num_glyphs) => match glyph_locations(s, dir, num_glyphs) {
                Err(e) => Err(e),
                Ok(locations) => Ok((dir, locations)),
            },
        },
    }
}

/// The decoded font of the characters `chars`.
pub open spec fn decoded_font(s: Seq<u8>, chars: Seq<char>) -> Result<Map<char, Outline>, DecodeError> {
    match font_tables(s) {
        Err(e) => Err(e),
        Ok((dir, locations)) => Ok(font_of(s, dir, locations, chars)),
    }
}

/// The glyph of `c` in the font `s`, through its own table directory.
pub open spec fn resolved_glyph_id(s: Seq<u8>, c: char) -> Result<u16, DecodeError> {
    match table_directory(s) {
        Err(e) => Err(e),
        Ok(dir) => glyph_id(s, dir, c),
    }
}

/// The outline of the glyph `id` in the font `s`.
pub open spec fn decoded_glyph(s: Seq<u8>, id: u16) -> Result<Option<Outline>, DecodeError> {
    match font_tables(s) {
        Err(e) => Err(e),
        Ok((dir, locations)) => located_outline(s, dir, locations, id),
    }
}

/// Looking a character up is a function of the font and the character: two
/// results that meet the contract of `resolve_glyph_id` for one font and one
/// character are the same.
pub proof fn lemma_resolve_glyph_id_deterministic(
    s: Seq<u8>,
    c: char,
    first: Result<u16, DecodeError>,
    second: Result<u16, DecodeError>,
)
    requires
        first == resolved_glyph_id(s, c),
        second == resolved_glyph_id(s, c),
    ensures
        first == second,
{
}

/// A glyph whose two entries in the location table are equal has no
/// outline, so a character with such a glyph is not in the decoded font.
pub proof fn lemma_empty_range_is_left_out(
    s: Seq<u8>,
    dir: Map<u32, usize>,
    locations: Seq<usize>,
    chars: Seq<char>,
    c: char,
)
    requires
        glyph_id(s, dir, c) matches Ok(id) && id + 1 < locations.len() && locations[id as int]
            == locations[id + 1],
    ensures
        !font_of(s, dir, locations, chars).contains_key(c),
{
}

/// The decoded font does not depend on the order of the characters asked
/// for, nor on how often one is named.
pub proof fn lemma_font_of_set(
    s: Seq<u8>,
    dir: Map<u32, usize>,
    locations: Seq<usize>,
    chars: Seq<char>,
    others: Seq<char>,
)
    requires
        forall|c: char| #[trigger] chars.contains(c) <==> others.contains(c),
    ensures
        font_of(s, dir, locations, chars) == font_of(s, dir, locations, others),
{
    assert(font_of(s, dir, locations, chars) =~= font_of(s, dir, locations, others));
}

/// One more element of `v`: it holds what it held, and the new one.
proof fn lemma_take_contains(v: Seq<char>, i: int, c: char)
    requires
        0 <= i < v.len(),
    ensures
        v.take(i + 1).contains(c) <==> v.take(i).contains(c) || c == v[i],
{
    let shorter = v.take(i);
    let longer = v.take(i + 1);
    if longer.contains(c) {
        let j = choose|j: int| 0 <= j < longer.len() && longer[j] == c;
        if j < i {
            assert(shorter[j] == c);
        }
    }
    if shorter.contains(c) {
        let j = choose|j: int| 0 <= j < shorter.len() && shorter[j] == c;
        assert(longer[j] == c);
    }
    if c == v[i] {
        assert(longer[i] == c);
    }
}

/// Reads the tables that every lookup goes through.
fn read_tables(bytes: &[u8]) -> (r: Result<(HashMap<u32, usize>, Vec<usize>), DecodeError>)
    ensures
        match r {
            Ok((dir, locations)) => font_tables(bytes@) == Ok::<
                (Map<u32, usize>, Seq<usize>),
                DecodeError,
            >((dir@, locations@)),
            Err(e) => font_tables(bytes@) == Err::<(Map<u32, usize>, Seq<usize>), DecodeError>(e),
        },
{
    let table_offsets = parse_table_offsets(bytes)?;
    let num_glyphs = get_num_glyphs(bytes, &table_offsets)?;
    let loca_offsets = get_glyph_offsets(bytes, &table_offsets, num_glyphs)?;
    Ok((table_offsets, loca_offsets))
}

/// Decodes the glyph `id`, where the location table gives it room.
fn located_glyph(
    bytes: &[u8],
    table_offsets: &HashMap<u32, usize>,
    loca_offsets: &Vec<usize>,
    id: u16,
) -> (r: Result<Option<SimpleGlyph>, DecodeError>)
    ensures
        match r {
            Ok(Some(glyph)) => located_outline(bytes@, table_offsets@, loca_offsets@, id) == Ok::<
                Option<Outline>,
                DecodeError,
            >(Some(glyph@)),
            Ok(None) => located_outline(bytes@, table_offsets@, loca_offsets@, id) == Ok::<
                Option<Outline>,
                DecodeError,
            >(None),
            Err(e) => located_outline(bytes@, table_offsets@, loca_offsets@, id) == Err::<
                Option<Outline>,
                DecodeError,
            >(e),
        },
{
    let id = id as usize;
    if id + 1 < loca_offsets.len() && loca_offsets[id] < loca_offsets[id + 1] {
        Ok(Some(get_glyph(bytes, table_offsets, loca_offsets[id])?))
    } else {
        Ok(None)
    }
}

/// Looks up and decodes the glyph of `c`.
fn outline_of(
    bytes: &[u8],
    table_offsets: &HashMap<u32, usize>,
    loca_offsets: &Vec<usize>,
    c: char,
) -> (r: Option<SimpleGlyph>)
    ensures
        match r {
            Some(glyph) => char_outline(bytes@, table_offsets@, loca_offsets@, c) == Some(glyph@),
            None => char_outline(bytes@, table_offsets@, loca_offsets@, c) is None,
        },
{
    match get_glyph_id(bytes, table_offsets, c) {
        Ok(id) => match located_glyph(bytes, table_offsets, loca_offsets, id) {
            Ok(found) => found,
            Err(_) => None,
        },
        Err(_) => None,
    }
}

/// Looks up the glyph identifier of `character` in the font `bytes`.
pub fn resolve_glyph_id(bytes: &[u8], character: char) -> (r: Result<u16, DecodeError>)
    ensures
        r == resolved_glyph_id(bytes@, character),
{
    let table_offsets = parse_table_offsets(bytes)?;
    get_glyph_id(bytes, &table_offsets, character)
}

/// Decodes the outline of the glyph `glyph_id` of the font `bytes`. There is
/// none where the location table does not hold the glyph or gives it no
/// room.
pub fn decode_glyph(bytes: &[u8], glyph_id: u16) -> (r: Result<Option<SimpleGlyph>, DecodeError>)
    ensures
        match r {
            Ok(Some(glyph)) => decoded_glyph(bytes@, glyph_id) == Ok::<Option<Outline>, DecodeError>(
                Some(glyph@),
            ),
            Ok(None) => decoded_glyph(bytes@, glyph_id) == Ok::<Option<Outline>, DecodeError>(None),
            Err(e) => decoded_glyph(bytes@, glyph_id) == Err::<Option<Outline>, DecodeError>(e),
        },
{
    let (table_offsets, loca_offsets) = read_tables(bytes)?;
    located_glyph(bytes, &table_offsets, &loca_offsets, glyph_id)
}

/// Decodes the outlines of `characters`. A character whose glyph has no
/// outline is left out, and so is one whose glyph cannot be found or
/// decoded; only tables that cannot be read fail the whole.
pub fn decode_font(bytes: &[u8], characters: &[char]) -> (r: Result<Font, DecodeError>)
    ensures
        decodes_to(r, decoded_font(bytes@, characters@)),
{
    let (table_offsets, loca_offsets) = read_tables(bytes)?;
    let mut glyphs: HashMap<u32, SimpleGlyph> = HashMap::new();
    let ghost s = bytes@;
    let ghost chars = characters@;
    let mut i: usize = 0;
    assert(outlines(glyphs@) =~= font_of(s, table_offsets@, loca_offsets@, chars.take(0)));
    while i < characters.len()
        invariant
            i <= chars.len(),
            s == bytes@,
            chars == characters@,
            outlines(glyphs@) == font_of(s, table_offsets@, loca_offsets@, chars.take(i as int)),
        decreases chars.len() - i,
    {
        let c = characters[i];
        let ghost before = glyphs@;
        let ghost so_far = font_of(s, table_offsets@, loca_offsets@, chars.take(i as int));
        let ghost next = font_of(s, table_offsets@, loca_offsets@, chars.take(i + 1));
        proof {
            assert forall|x: char| #[trigger]
                chars.take(i + 1).contains(x) <==> chars.take(i as int).contains(x) || x
                    == c by {
                lemma_take_contains(chars, i as int, x);
            }
        }
        match outline_of(bytes, &table_offsets, &loca_offsets, c) {
            Some(glyph) => {
                let ghost outline = glyph@;
                glyphs.insert(c as u32, glyph);
                proof {
                    assert forall|x: char| #[trigger] code_point(x) == code_point(c) implies x
                        == c by {
                        lemma_code_point_injective(x, c);
                    }
                    assert(outlines(glyphs@) =~= outlines(before).insert(c, outline));
                    assert(next =~= so_far.insert(c, outline));
                }
            },
            None => {
                assert(next =~= so_far);
            },
        }
        i += 1;
    }
    assert(chars.take(chars.len() as int) =~= chars);
    Ok(Font { glyphs })
}

/// Puts `c` into the rising sequence `chars`, unless it is there.
fn insert_rising(chars: &mut Vec<char>, c: char)
    requires
        strictly_rising(old(chars)@),
    ensures
        strictly_rising(final(chars)@),
        forall|x: char| #[trigger] final(chars)@.contains(x) <==> old(chars)@.contains(x) || x == c,
{
    let mut at: usize = 0;
    while at < chars.len() && (chars[at] as u32) < (c as u32)
        invariant
            at <= chars@.len(),
            chars@ == old(chars)@,
            forall|j: int| 0 <= j < at ==> (chars@[j] as u32) < (c as u32),
        decreases chars@.len() - at,
    {
        at += 1;
    }
    let ghost before = chars@;
    if at < chars.len() && chars[at] as u32 == c as u32 {
        proof {
            lemma_code_point_injective(chars@[at as int], c);
        }
        return;
    }
    chars.insert(at, c);
    proof {
        let after = chars@;
        assert forall|i: int, j: int| 0 <= i < j < after.len() implies (after[i] as u32) < (
        after[j] as u32) by {
            if j > at {
                assert(after[j] == before[j - 1]);
            }
        }
        assert forall|x: char| #[trigger] after.contains(x) <==> before.contains(x) || x == c by {
            if after.contains(x) {
                let j = choose|j: int| 0 <= j < after.len() && after[j] == x;
                if j < at {
                    assert(before[j] == x);
                } else if j > at {
                    assert(before[j - 1] == x);
                }
            }
            if before.contains(x) {
                let j = choose|j: int| 0 <= j < before.len() && before[j] == x;
                if j < at {
                    assert(after[j] == x);
                } else {
                    assert(after[j + 1] == x);
                }
            }
            if x == c {
                assert(after[at as int] == x);
            }
        }
    }
}

/// The characters of `chars`, each once, by rising code point.
pub fn sorted_unique(chars: &[char]) -> (sorted: Vec<char>)
    ensures
        strictly_rising(sorted@),
        forall|c: char| #[trigger] sorted@.contains(c) <==> chars@.contains(c),
{
    let mut sorted: Vec<char> = Vec::new();
    let mut i: usize = 0;
    while i < chars.len()
        invariant
            i <= chars@.len(),
            strictly_rising(sorted@),
            forall|x: char| #[trigger] sorted@.contains(x) <==> chars@.take(i as int).contains(x),
        decreases chars@.len() - i,
    {
        let ghost before = sorted@;
        insert_rising(&mut sorted, chars[i]);
        proof {
            assert forall|x: char| #[trigger]
                sorted@.contains(x) <==> chars@.take(i + 1).contains(x) by {
                lemma_take_contains(chars@, i as int, x);
                assert(before.contains(x) <==> chars@.take(i as int).contains(x));
            }
        }
        i += 1;
    }
    assert(chars@.take(chars@.len() as int) =~= chars@);
    sorted
}

/// The characters of `text` that are not white space, in the order of the
/// text.
fn visible_chars(text: &str) -> (kept: Vec<char>)
    ensures
        kept@ == visible(text@),
{
    let mut kept: Vec<char> = Vec::new();
    let ghost pred = |c: char| !white_space(c);
    proof {
        reveal(Seq::filter);
        assert(text@.take(0).filter(pred) =~= Seq::<char>::empty());
    }
    for c in it: text.chars()
        invariant
            it.seq() == text@,
            pred == |c: char| !white_space(c),
            kept@ == it.seq().take(it.index() as int).filter(pred),
    {
        proof {
            reveal(Seq::filter);
            let longer = it.seq().take(it.index() + 1);
            assert(longer.drop_last() =~= it.seq().take(it.index() as int));
            assert(longer.last() == c);
        }
        if !is_whitespace(c) {
            kept.push(c);
        }
    }
    assert(text@.take(text@.len() as int) =~= text@);
    kept
}

/// The characters of `text` that are not white space, each once, by rising
/// code point.
pub fn unique_chars(text: &str) -> (chars: Vec<char>)
    ensures
        strictly_rising(chars@),
        forall|c: char| #[trigger] chars@.contains(c) <==> visible(text@).contains(c),
{
    let kept = visible_chars(text);
    sorted_unique(kept.as_slice())
}

/// Decodes the outlines of the characters of `text` that are not white
/// space.
pub fn render_font(text: String, bytes: Box<[u8]>) -> (r: Result<Font, DecodeError>)
    ensures
        decodes_to(r, decoded_font(bytes@, visible(text@))),
{
    let chars = unique_chars(text.as_str());
    let r = decode_font(&bytes, chars.as_slice());
    proof {
        if font_tables(bytes@) is Ok {
            let (dir, locations) = font_tables(bytes@)->Ok_0;
            lemma_font_of_set(bytes@, dir, locations, chars@, visible(text@));
        }
    }
    r
}

} // verus!
