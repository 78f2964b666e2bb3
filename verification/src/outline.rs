//! Simple glyph outlines of the glyph-outline table.
//!
//! A glyph starts with its number of contours and its bounding box, five
//! signed 16-bit fields. Then come the index of the last point of each
//! contour, the length of the hinting instructions and the instructions, the
//! flag stream, the x deltas and the y deltas. Coordinates are stored as
//! differences from the point before, across contours, from (0, 0) on.

use crate::error::{decodes_to, DecodeError};
use crate::reader::{advance, be_i16, be_u16, in_bounds, to_i16, to_u16, to_u8};
use crate::tables::{offset_in, table_offset, GLYF};
use std::collections::HashMap;
use vstd::prelude::*;

verus! {

/// A point of an outline, in font design units.
#[derive(Clone, Copy, Debug, PartialEq, Eq, Structural)]
pub struct Point {
    pub x: i16,
    pub y: i16,
    /// Whether the point lies on the outline; if not, it is the control
    /// point of a quadratic curve.
    pub on_curve: bool,
}

/// A closed sequence of points.
#[derive(Debug, PartialEq, Eq)]
pub struct Contour {
    pub points: Vec<Point>,
}

/// A glyph made of contours, with the bounding box that its header gives.
#[derive(Debug, PartialEq, Eq)]
pub struct SimpleGlyph {
    pub x_min: i16,
    pub y_min: i16,
    pub x_max: i16,
    pub y_max: i16,
    pub contours: Vec<Contour>,
}

/// What a `SimpleGlyph` holds.
pub struct Outline {
    pub x_min: i16,
    pub y_min: i16,
    pub x_max: i16,
    pub y_max: i16,
    pub contours: Seq<Seq<Point>>,
}

impl View for Contour {
    type V = Seq<Point>;

    open spec fn view(&self) -> Seq<Point> {
        self.points@
    }
}

impl View for SimpleGlyph {
    type V = Outline;

    open spec fn view(&self) -> Outline {
        Outline {
            x_min: self.x_min,
            y_min: self.y_min,
            x_max: self.x_max,
            y_max: self.y_max,
            contours: Seq::new(self.contours@.len(), |k: int| self.contours@[k]@),
        }
    }
}

/// Flag bit: the point is on the curve.
pub const ON_CURVE: u8 = 0x01;

/// Flag bit: the x delta is one byte, a magnitude.
pub const X_SHORT: u8 = 0x02;

/// Flag bit: the y delta is one byte, a magnitude.
pub const Y_SHORT: u8 = 0x04;

/// Flag bit: the next byte says how often the flag is repeated.
pub const REPEAT: u8 = 0x08;

/// Flag bit: a one-byte x delta is positive; without one, x stays as it is.
pub const X_SAME_OR_POSITIVE: u8 = 0x10;

/// Flag bit: a one-byte y delta is positive; without one, y stays as it is.
pub const Y_SAME_OR_POSITIVE: u8 = 0x20;

/// The length of the glyph header: contour count and bounding box.
pub const GLYPH_HEADER_LEN: usize = 10;

/// The number of contours that the header at `g` gives; negative for a
/// composite glyph.
pub open spec fn contour_count(s: Seq<u8>, g: int) -> int {
    be_i16(s, g) as int
}

/// Where the glyph at `g` holds the last point of its contour `k`.
pub open spec fn end_point_at(g: int, k: int) -> int {
    g + GLYPH_HEADER_LEN + 2 * k
}

/// The index of the last point of contour `k`.
pub open spec fn end_point(s: Seq<u8>, g: int, k: int) -> int {
    be_u16(s, end_point_at(g, k)) as int
}

/// The index of the first point of contour `k`: the point after the one
/// before ends.
pub open spec fn start_point(s: Seq<u8>, g: int, k: int) -> int {
    if k <= 0 {
        0
    } else {
        end_point(s, g, k - 1) + 1
    }
}

/// Where the length of the instructions stands, behind `n` end points.
pub open spec fn instruction_length_at(g: int, n: int) -> int {
    end_point_at(g, n)
}

/// Where the flag stream starts, behind the instructions.
pub open spec fn flags_at(s: Seq<u8>, g: int, n: int) -> int {
    instruction_length_at(g, n) + 2 + be_u16(s, instruction_length_at(g, n))
}

/// The number of points: one more than the index at which the last contour
/// ends. A glyph without contours still has one flag and one pair of deltas.
pub open spec fn point_count(s: Seq<u8>, g: int, n: int) -> nat {
    if n <= 0 {
        1
    } else {
        (end_point(s, g, n - 1) + 1) as nat
    }
}

/// `run` times `flag`.
pub open spec fn run_of(flag: u8, run: nat) -> Seq<u8> {
    Seq::new(run, |i: int| flag)
}

/// `head` put before the flags of `rest`.
pub open spec fn flags_then(head: Seq<u8>, rest: Option<(Seq<u8>, int)>) -> Option<(Seq<u8>, int)> {
    match rest {
        Some((flags, end)) => Some((head + flags, end)),
        None => None,
    }
}

/// How many points the repeated flag at `pos` stands for when `count` are
/// still wanted: itself and as many more as the byte behind it says, cut off
/// at `count`.
pub open spec fn repeat_run(s: Seq<u8>, pos: int, count: nat) -> nat {
    if s[pos + 1] + 1 > count {
        count
    } else {
        (s[pos + 1] + 1) as nat
    }
}

/// The flags of `count` points, read from `pos` on, and the offset behind the
/// last byte read; `None` where the stream runs past the end of `s`.
pub open spec fn expand_flags(s: Seq<u8>, pos: int, count: nat) -> Option<(Seq<u8>, int)>
    decreases count,
{
    if count == 0 {
        Some((Seq::empty(), pos))
    } else if !in_bounds(s, pos, 1) {
        None
    } else if s[pos] & REPEAT == 0 {
        flags_then(run_of(s[pos], 1), expand_flags(s, pos + 1, (count - 1) as nat))
    } else if !in_bounds(s, pos + 1, 1) {
        None
    } else {
        let run = repeat_run(s, pos, count);
        flags_then(run_of(s[pos], run), expand_flags(s, pos + 2, (count - run) as nat))
    }
}

/// The number of bytes that the delta of a point with `flag` takes.
pub open spec fn delta_width(flag: u8, short: u8, same: u8) -> int {
    if flag & short != 0 {
        1
    } else if flag & same != 0 {
        0
    } else {
        2
    }
}

/// The delta of a point with `flag` whose bytes, if it has any, stand at
/// `pos`.
pub open spec fn delta_value(s: Seq<u8>, pos: int, flag: u8, short: u8, same: u8) -> int {
    if flag & short != 0 {
        if flag & same != 0 {
            s[pos] as int
        } else {
            -(s[pos] as int)
        }
    } else if flag & same != 0 {
        0
    } else {
        be_i16(s, pos) as int
    }
}

/// Where the delta of point `i` stands in a stream that starts at `start`:
/// behind the deltas of the points before it.
pub open spec fn delta_offset(flags: Seq<u8>, short: u8, same: u8, start: int, i: int) -> int
    decreases i,
{
    if i <= 0 {
        start
    } else {
        delta_offset(flags, short, same, start, i - 1) + delta_width(flags[i - 1], short, same)
    }
}

/// The deltas of all points, in a stream that starts at `start`.
pub open spec fn deltas(s: Seq<u8>, flags: Seq<u8>, short: u8, same: u8, start: int) -> Seq<int> {
    Seq::new(
        flags.len(),
        |i: int| delta_value(s, delta_offset(flags, short, same, start, i), flags[i], short, same),
    )
}

/// The sum of the deltas up to and with that of point `i`: its coordinate.
pub open spec fn running_sum(d: Seq<int>, i: int) -> int
    decreases i,
{
    if i <= 0 {
        d[0]
    } else {
        running_sum(d, i - 1) + d[i]
    }
}

/// Every coordinate that the deltas `d` add up to is a signed 16-bit number.
pub open spec fn sums_fit(d: Seq<int>) -> bool {
    forall|i: int| 0 <= i < d.len() ==> i16::MIN <= #[trigger] running_sum(d, i) <= i16::MAX
}

/// The points that `flags` and the two delta streams from `xs` on describe.
pub open spec fn points_of(s: Seq<u8>, flags: Seq<u8>, xs: int) -> Result<Seq<Point>, DecodeError> {
    let n = flags.len() as int;
    let ys = delta_offset(flags, X_SHORT, X_SAME_OR_POSITIVE, xs, n);
    let end = delta_offset(flags, Y_SHORT, Y_SAME_OR_POSITIVE, ys, n);
    let dx = deltas(s, flags, X_SHORT, X_SAME_OR_POSITIVE, xs);
    let dy = deltas(s, flags, Y_SHORT, Y_SAME_OR_POSITIVE, ys);
    if end > s.len() {
        Err(DecodeError::OutOfBounds)
    } else if !sums_fit(dx) || !sums_fit(dy) {
        Err(DecodeError::CoordinateOverflow)
    } else {
        Ok(
            Seq::new(
                flags.len(),
                |i: int|
                    Point {
                        x: running_sum(dx, i) as i16,
                        y: running_sum(dy, i) as i16,
                        on_curve: flags[i] & ON_CURVE != 0,
                    },
            ),
        )
    }
}

/// All points of the glyph at `g`, in order; none for a composite glyph.
pub open spec fn glyph_points(s: Seq<u8>, g: int) -> Result<Seq<Point>, DecodeError> {
    let n = contour_count(s, g);
    if !in_bounds(s, g, 2) {
        Err(DecodeError::OutOfBounds)
    } else if n < 0 {
        Ok(Seq::empty())
    } else if !in_bounds(s, instruction_length_at(g, n), 2) {
        Err(DecodeError::OutOfBounds)
    } else {
        match expand_flags(s, flags_at(s, g, n), point_count(s, g, n)) {
            Some((flags, xs)) => points_of(s, flags, xs),
            None => Err(DecodeError::OutOfBounds),
        }
    }
}

/// The deltas `d` as integers.
pub open spec fn widen(d: Seq<i16>) -> Seq<int> {
    Seq::new(d.len(), |i: int| d[i] as int)
}

/// Contour `k` is empty, or ends at one of the `count` points.
pub open spec fn contour_in_range(s: Seq<u8>, g: int, k: int, count: int) -> bool {
    start_point(s, g, k) > end_point(s, g, k) || end_point(s, g, k) < count
}

/// The points of contour `k`: those from the point after the end of the
/// contour before, up to and with its own last point.
pub open spec fn contour_points(s: Seq<u8>, g: int, k: int, points: Seq<Point>) -> Seq<Point> {
    if start_point(s, g, k) <= end_point(s, g, k) {
        points.subrange(start_point(s, g, k), end_point(s, g, k) + 1)
    } else {
        Seq::empty()
    }
}

/// The outline of a composite glyph, which is not decoded: no contours, and
/// a bounding box of zeros.
pub open spec fn empty_outline() -> Outline {
    Outline { x_min: 0, y_min: 0, x_max: 0, y_max: 0, contours: Seq::empty() }
}

/// The outline of the glyph at `g`: the bounding box as the header gives it,
/// and the points split into contours.
pub open spec fn glyph_outline(s: Seq<u8>, g: int) -> Result<Outline, DecodeError> {
    match glyph_points(s, g) {
        Err(e) => Err(e),
        Ok(points) => {
            let n = contour_count(s, g);
            if n < 0 {
                Ok(empty_outline())
            } else if exists|k: int|
                0 <= k < n && !#[trigger] contour_in_range(s, g, k, points.len() as int) {
                Err(DecodeError::ContourOutOfRange)
            } else {
                Ok(
                    Outline {
                        x_min: be_i16(s, g + 2),
                        y_min: be_i16(s, g + 4),
                        x_max: be_i16(s, g + 6),
                        y_max: be_i16(s, g + 8),
                        contours: Seq::new(n as nat, |k: int| contour_points(s, g, k, points)),
                    },
                )
            }
        },
    }
}

/// A delta never stands before the one of an earlier point.
pub proof fn lemma_delta_offset_grows(
    flags: Seq<u8>,
    short: u8,
    same: u8,
    start: int,
    i: int,
    j: int,
)
    requires
        i <= j,
    ensures
        start <= delta_offset(flags, short, same, start, i) <= delta_offset(
            flags,
            short,
            same,
            start,
            j,
        ),
    decreases j,
{
    if j > 0 {
        if i < j {
            lemma_delta_offset_grows(flags, short, same, start, i, j - 1);
        } else {
            lemma_delta_offset_grows(flags, short, same, start, i - 1, j - 1);
        }
    }
}

/// The flag stream gives as many flags as were asked for, and ends no earlier
/// than it starts.
pub proof fn lemma_expand_flags_len(s: Seq<u8>, pos: int, count: nat)
    ensures
        expand_flags(s, pos, count) matches Some((flags, end)) ==> flags.len() == count && pos
            <= end,
    decreases count,
{
    if count > 0 && in_bounds(s, pos, 1) {
        if s[pos] & REPEAT == 0 {
            lemma_expand_flags_len(s, pos + 1, (count - 1) as nat);
        } else if in_bounds(s, pos + 1, 1) {
            let run = repeat_run(s, pos, count);
            lemma_expand_flags_len(s, pos + 2, (count - run) as nat);
        }
    }
}

/// Run-length expansion: a flag byte with the repeat bit, followed by the
/// count `r`, stands for `1 + r` points with that flag, and the flags of the
/// points after them start behind the count. This holds where at least
/// `1 + r` points are still to come; a longer run is cut off at the last
/// point.
pub proof fn lemma_repeat_expands(s: Seq<u8>, pos: int, count: nat)
    requires
        in_bounds(s, pos, 2),
        s[pos] & REPEAT != 0,
        1 + s[pos + 1] <= count,
    ensures
        expand_flags(s, pos, count) == flags_then(
            run_of(s[pos], (1 + s[pos + 1]) as nat),
            expand_flags(s, pos + 2, (count - (1 + s[pos + 1])) as nat),
        ),
        expand_flags(s, pos, count) matches Some((flags, end)) ==> forall|i: int|
            0 <= i <= s[pos + 1] ==> #[trigger] flags[i] == s[pos],
{
}

/// A glyph that decodes has as many points as its flag stream has flags:
/// one more than the index at which its last contour ends.
pub proof fn lemma_point_count(s: Seq<u8>, g: int)
    requires
        glyph_points(s, g) is Ok,
        contour_count(s, g) >= 0,
    ensures
        glyph_points(s, g)->Ok_0.len() == point_count(s, g, contour_count(s, g)),
{
    let n = contour_count(s, g);
    lemma_expand_flags_len(s, flags_at(s, g, n), point_count(s, g, n));
}

/// The first `k` contours of a glyph whose contours end in rising order are,
/// one after the other, its points up to the start of contour `k`.
proof fn lemma_contours_prefix(s: Seq<u8>, g: int, points: Seq<Point>, k: int)
    requires
        0 <= k,
        forall|j: int| 0 < j < k ==> end_point(s, g, j - 1) <= #[trigger] end_point(s, g, j),
        forall|j: int| 0 <= j < k ==> #[trigger] contour_in_range(s, g, j, points.len() as int),
    ensures
        start_point(s, g, k) <= points.len(),
        Seq::new(k as nat, |j: int| contour_points(s, g, j, points)).flatten()
            == points.subrange(0, start_point(s, g, k)),
    decreases k,
{
    let all = Seq::new(k as nat, |j: int| contour_points(s, g, j, points));
    if k == 0 {
        assert(points.subrange(0, 0) =~= Seq::<Point>::empty());
    } else {
        lemma_contours_prefix(s, g, points, k - 1);
        let before = Seq::new((k - 1) as nat, |j: int| contour_points(s, g, j, points));
        let own = contour_points(s, g, k - 1, points);
        assert(all =~= before.push(own));
        before.lemma_flatten_push(own);
        assert(contour_in_range(s, g, k - 1, points.len() as int));
        if k > 1 {
            assert(end_point(s, g, k - 2) <= end_point(s, g, k - 1));
        }
        assert(points.subrange(0, start_point(s, g, k - 1)) + own =~= points.subrange(
            0,
            start_point(s, g, k),
        ));
    }
}

/// The contours split the points with no gap and no overlap: put one after
/// the other they are the points of the glyph, which are one more than the
/// index at which the last contour ends. This is stated of a glyph with at
/// least one contour whose contours end in rising order; where a contour
/// ends before the one in front of it, a point can belong to two contours.
pub proof fn lemma_contours_partition_points(s: Seq<u8>, g: int)
    requires
        glyph_outline(s, g) is Ok,
        contour_count(s, g) > 0,
        forall|k: int|
            0 < k < contour_count(s, g) ==> end_point(s, g, k - 1) <= #[trigger] end_point(s, g, k),
    ensures
        glyph_points(s, g) is Ok,
        glyph_points(s, g)->Ok_0.len() == end_point(s, g, contour_count(s, g) - 1) + 1,
        glyph_outline(s, g)->Ok_0.contours.len() == contour_count(s, g),
        glyph_outline(s, g)->Ok_0.contours.flatten() == glyph_points(s, g)->Ok_0,
{
    let n = contour_count(s, g);
    let points = glyph_points(s, g)->Ok_0;
    lemma_point_count(s, g);
    lemma_contours_prefix(s, g, points, n);
    assert(points.subrange(0, points.len() as int) =~= points);
}

/// Decoding is a function of the buffer and the offset: two results that
/// meet the contract of `get_glyph` for one buffer and one offset fail in the
/// same way, or hold the same bounding box and the same points in the same
/// contours.
pub proof fn lemma_get_glyph_deterministic(
    s: Seq<u8>,
    g: int,
    first: Result<SimpleGlyph, DecodeError>,
    second: Result<SimpleGlyph, DecodeError>,
)
    requires
        decodes_to(first, glyph_outline(s, g)),
        decodes_to(second, glyph_outline(s, g)),
    ensures
        first is Ok <==> second is Ok,
        first is Ok ==> first->Ok_0@ == second->Ok_0@,
        first is Err ==> first->Err_0 == second->Err_0,
{
}

/// The same of the points alone, as `get_glyph_coordinates` gives them.
pub proof fn lemma_get_glyph_coordinates_deterministic(
    s: Seq<u8>,
    g: int,
    first: Result<Vec<Point>, DecodeError>,
    second: Result<Vec<Point>, DecodeError>,
)
    requires
        decodes_to(first, glyph_points(s, g)),
        decodes_to(second, glyph_points(s, g)),
    ensures
        first is Ok <==> second is Ok,
        first is Ok ==> first->Ok_0@ == second->Ok_0@,
        first is Err ==> first->Err_0 == second->Err_0,
{
}

/// Reads the flags of `count` points from `start` on.
fn read_flags(bytes: &[u8], start: usize, count: usize) -> (r: Result<(Vec<u8>, usize), DecodeError>)
    ensures
        match r {
            Ok((flags, end)) => expand_flags(bytes@, start as int, count as nat) == Some(
                (flags@, end as int),
            ) && flags@.len() == count && (count > 0 ==> end <= bytes@.len()),
            Err(e) => e == DecodeError::OutOfBounds && expand_flags(
                bytes@,
                start as int,
                count as nat,
            ) is None,
        },
{
    let mut flags: Vec<u8> = Vec::new();
    let mut pos: usize = start;
    proof {
        vstd::slice::axiom_spec_len(bytes);
        assert(flags@ + Seq::<u8>::empty() =~= Seq::<u8>::empty());
    }
    while flags.len() < count
        invariant
            bytes@.len() <= usize::MAX,
            flags@.len() <= count,
            flags@.len() > 0 ==> pos <= bytes@.len(),
            expand_flags(bytes@, start as int, count as nat) == flags_then(
                flags@,
                expand_flags(bytes@, pos as int, (count - flags@.len()) as nat),
            ),
        decreases count - flags@.len(),
    {
        let ghost before = flags@;
        let ghost wanted = (count - flags@.len()) as nat;
        let flag = to_u8(bytes, pos)?;
        if flag & REPEAT != 0 {
            let repeat = to_u8(bytes, pos + 1)?;
            let remaining = count - flags.len();
            let run: usize = if repeat as usize + 1 > remaining {
                remaining
            } else {
                repeat as usize + 1
            };
            let mut k: usize = 0;
            while k < run
                invariant
                    k <= run,
                    flags@ == before + run_of(flag, k as nat),
                decreases run - k,
            {
                flags.push(flag);
                k += 1;
                assert(flags@ =~= before + run_of(flag, k as nat));
            }
            pos = pos + 2;
            proof {
                let rest = expand_flags(bytes@, pos as int, (wanted - run) as nat);
                assert(run == repeat_run(bytes@, pos - 2, wanted));
                assert(expand_flags(bytes@, pos - 2, wanted) == flags_then(run_of(flag, run as nat), rest));
                if rest is Some {
                    assert(before + (run_of(flag, run as nat) + rest->Some_0.0) =~= flags@
                        + rest->Some_0.0);
                }
            }
        } else {
            flags.push(flag);
            pos = pos + 1;
            proof {
                let rest = expand_flags(bytes@, pos as int, (wanted - 1) as nat);
                assert(flags@ =~= before + run_of(flag, 1));
                if rest is Some {
                    assert(before + (run_of(flag, 1) + rest->Some_0.0) =~= flags@ + rest->Some_0.0);
                }
            }
        }
    }
    assert(flags@ + Seq::<u8>::empty() =~= flags@);
    Ok((flags, pos))
}

/// Reads one delta stream from `start` on: one delta for each flag.
fn read_deltas(bytes: &[u8], flags: &Vec<u8>, start: usize, short: u8, same: u8) -> (r: Result<
    (Vec<i16>, usize),
    DecodeError,
>)
    requires
        start <= bytes@.len(),
    ensures
        match r {
            Ok((d, end)) => end == delta_offset(flags@, short, same, start as int, flags@.len() as int)
                && end <= bytes@.len() && d@.len() == flags@.len() && widen(d@) == deltas(
                bytes@,
                flags@,
                short,
                same,
                start as int,
            ),
            Err(e) => e == DecodeError::OutOfBounds && delta_offset(
                flags@,
                short,
                same,
                start as int,
                flags@.len() as int,
            ) > bytes@.len(),
        },
{
    let mut d: Vec<i16> = Vec::new();
    let mut pos: usize = start;
    let mut i: usize = 0;
    proof {
        vstd::slice::axiom_spec_len(bytes);
    }
    while i < flags.len()
        invariant
            bytes@.len() <= usize::MAX,
            i <= flags@.len(),
            d@.len() == i,
            pos <= bytes@.len(),
            pos == delta_offset(flags@, short, same, start as int, i as int),
            forall|j: int|
                0 <= j < i ==> d@[j] as int == delta_value(
                    bytes@,
                    #[trigger] delta_offset(flags@, short, same, start as int, j),
                    flags@[j],
                    short,
                    same,
                ),
        decreases flags@.len() - i,
    {
        let flag = flags[i];
        proof {
            lemma_delta_offset_grows(flags@, short, same, start as int, i + 1, flags@.len() as int);
        }
        let value: i16;
        if flag & short != 0 {
            match to_u8(bytes, pos) {
                Ok(magnitude) => {
                    value = if flag & same != 0 {
                        magnitude as i16
                    } else {
                        -(magnitude as i16)
                    };
                    pos = pos + 1;
                },
                Err(e) => {
                    return Err(e);
                },
            }
        } else if flag & same != 0 {
            value = 0;
        } else {
            match to_i16(bytes, pos) {
                Ok(delta) => {
                    value = delta;
                    pos = pos + 2;
                },
                Err(e) => {
                    return Err(e);
                },
            }
        }
        d.push(value);
        i += 1;
    }
    assert(widen(d@) =~= deltas(bytes@, flags@, short, same, start as int));
    Ok((d, pos))
}

/// Adds the deltas up: the coordinate of a point is that of the point before
/// plus its delta, from 0 on.
fn accumulate(d: &Vec<i16>) -> (r: Result<Vec<i16>, DecodeError>)
    ensures
        match r {
            Ok(sums) => sums_fit(widen(d@)) && sums@.len() == d@.len() && forall|i: int|
                0 <= i < sums@.len() ==> sums@[i] as int == #[trigger] running_sum(widen(d@), i),
            Err(e) => e == DecodeError::CoordinateOverflow && !sums_fit(widen(d@)),
        },
{
    let mut sums: Vec<i16> = Vec::new();
    let mut last: i32 = 0;
    let mut i: usize = 0;
    while i < d.len()
        invariant
            i <= d@.len(),
            sums@.len() == i,
            i16::MIN <= last <= i16::MAX,
            i == 0 ==> last == 0,
            i > 0 ==> last == running_sum(widen(d@), i - 1),
            forall|j: int|
                0 <= j < i ==> sums@[j] as int == #[trigger] running_sum(widen(d@), j) && i16::MIN
                    <= running_sum(widen(d@), j) <= i16::MAX,
        decreases d@.len() - i,
    {
        let next: i32 = last + d[i] as i32;
        assert(next == running_sum(widen(d@), i as int));
        if next < -0x8000 || next > 0x7fff {
            return Err(DecodeError::CoordinateOverflow);
        }
        sums.push(next as i16);
        last = next;
        i += 1;
    }
    Ok(sums)
}

/// Decodes the points that `flags` describe, from the delta streams that
/// start at `xs`.
fn decode_points(bytes: &[u8], flags: &Vec<u8>, xs: usize) -> (r: Result<Vec<Point>, DecodeError>)
    requires
        xs <= bytes@.len(),
    ensures
        decodes_to(r, points_of(bytes@, flags@, xs as int)),
{
    let ghost n = flags@.len() as int;
    let ghost ys_spec = delta_offset(flags@, X_SHORT, X_SAME_OR_POSITIVE, xs as int, n);
    proof {
        lemma_delta_offset_grows(flags@, Y_SHORT, Y_SAME_OR_POSITIVE, ys_spec, 0, n);
    }
    let (dx, ys) = match read_deltas(bytes, flags, xs, X_SHORT, X_SAME_OR_POSITIVE) {
        Ok(pair) => pair,
        Err(e) => {
            return Err(e);
        },
    };
    let (dy, _end) = match read_deltas(bytes, flags, ys, Y_SHORT, Y_SAME_OR_POSITIVE) {
        Ok(pair) => pair,
        Err(e) => {
            return Err(e);
        },
    };
    let x = match accumulate(&dx) {
        Ok(sums) => sums,
        Err(e) => {
            return Err(e);
        },
    };
    let y = match accumulate(&dy) {
        Ok(sums) => sums,
        Err(e) => {
            return Err(e);
        },
    };
    let mut points: Vec<Point> = Vec::new();
    let mut i: usize = 0;
    while i < flags.len()
        invariant
            i <= flags@.len(),
            x@.len() == flags@.len(),
            y@.len() == flags@.len(),
            points@.len() == i,
            forall|j: int|
                0 <= j < i ==> #[trigger] points@[j] == (Point {
                    x: x@[j],
                    y: y@[j],
                    on_curve: flags@[j] & ON_CURVE != 0,
                }),
        decreases flags@.len() - i,
    {
        points.push(Point { x: x[i], y: y[i], on_curve: flags[i] & ON_CURVE != 0 });
        i += 1;
    }
    assert(points@ =~= points_of(bytes@, flags@, xs as int)->Ok_0);
    Ok(points)
}

/// Decodes all points of the glyph that starts at `g`.
fn points_at(bytes: &[u8], g: usize) -> (r: Result<Vec<Point>, DecodeError>)
    ensures
        decodes_to(r, glyph_points(bytes@, g as int)),
{
    proof {
        vstd::slice::axiom_spec_len(bytes);
    }
    let contours = to_i16(bytes, g)?;
    if contours < 0 {
        return Ok(Vec::new());
    }
    let n = contours as usize;
    let length_at = advance(g, GLYPH_HEADER_LEN + 2 * n)?;
    let instruction_length = to_u16(bytes, length_at)?;
    let count: usize = if n == 0 {
        1
    } else {
        to_u16(bytes, length_at - 2)? as usize + 1
    };
    let flags_start = advance(length_at + 2, instruction_length as usize)?;
    let (flags, xs) = match read_flags(bytes, flags_start, count) {
        Ok(pair) => pair,
        Err(e) => {
            return Err(e);
        },
    };
    decode_points(bytes, &flags, xs)
}

/// Decodes the points of the glyph whose data starts `loca_offset` bytes into
/// the glyph-outline table, in order and not split into contours. A
/// composite glyph has none.
pub fn get_glyph_coordinates(
    bytes: &[u8],
    table_offsets: &HashMap<u32, usize>,
    loca_offset: usize,
) -> (r: Result<Vec<Point>, DecodeError>)
    ensures
        decodes_to(r, glyph_points(bytes@, offset_in(table_offsets@, GLYF) + loca_offset)),
{
    proof {
        vstd::slice::axiom_spec_len(bytes);
    }
    let g = advance(table_offset(table_offsets, GLYF), loca_offset)?;
    points_at(bytes, g)
}

/// Copies the points `first ..= last` into a contour of their own.
fn contour_of(points: &Vec<Point>, first: usize, last: usize) -> (r: Contour)
    requires
        first <= last < points.len(),
    ensures
        r@ == points@.subrange(first as int, last + 1),
{
    let mut own: Vec<Point> = Vec::new();
    let mut i: usize = first;
    while i <= last
        invariant
            first <= i <= last + 1,
            last < points.len(),
            own@ == points@.subrange(first as int, i as int),
        decreases last + 1 - i,
    {
        own.push(points[i]);
        i += 1;
        assert(own@ =~= points@.subrange(first as int, i as int));
    }
    Contour { points: own }
}

/// Decodes the glyph that starts at `g`.
fn glyph_at(bytes: &[u8], g: usize) -> (r: Result<SimpleGlyph, DecodeError>)
    ensures
        decodes_to(r, glyph_outline(bytes@, g as int)),
{
    proof {
        vstd::slice::axiom_spec_len(bytes);
    }
    let points = points_at(bytes, g)?;
    let count = to_i16(bytes, g)?;
    if count < 0 {
        let glyph = SimpleGlyph { x_min: 0, y_min: 0, x_max: 0, y_max: 0, contours: Vec::new() };
        assert(glyph@.contours =~= empty_outline().contours);
        return Ok(glyph);
    }
    let n = count as usize;
    let ghost s = bytes@;
    let mut contours: Vec<Contour> = Vec::new();
    let mut first: usize = 0;
    let mut k: usize = 0;
    while k < n
        invariant
            k <= n,
            n == contour_count(s, g as int),
            s == bytes@,
            glyph_points(s, g as int) == Ok::<Seq<Point>, DecodeError>(points@),
            s.len() <= usize::MAX,
            in_bounds(s, instruction_length_at(g as int, n as int), 2),
            first == start_point(s, g as int, k as int),
            first <= 0x1_0000,
            contours@.len() == k,
            forall|j: int|
                0 <= j < k ==> #[trigger] contour_in_range(s, g as int, j, points@.len() as int),
            forall|j: int|
                0 <= j < k ==> (#[trigger] contours@[j])@ == contour_points(
                    s,
                    g as int,
                    j,
                    points@,
                ),
        decreases n - k,
    {
        let last = to_u16(bytes, g + GLYPH_HEADER_LEN + 2 * k)? as usize;
        if first <= last {
            if last >= points.len() {
                assert(!contour_in_range(s, g as int, k as int, points@.len() as int));
                return Err(DecodeError::ContourOutOfRange);
            }
            contours.push(contour_of(&points, first, last));
        } else {
            contours.push(Contour { points: Vec::new() });
        }
        first = last + 1;
        k += 1;
    }
    let glyph = SimpleGlyph {
        x_min: to_i16(bytes, g + 2)?,
        y_min: to_i16(bytes, g + 4)?,
        x_max: to_i16(bytes, g + 6)?,
        y_max: to_i16(bytes, g + 8)?,
        contours,
    };
    assert(glyph@.contours =~= glyph_outline(s, g as int)->Ok_0.contours);
    Ok(glyph)
}

/// Decodes the glyph whose data starts `loca_offset` bytes into the
/// glyph-outline table. A composite glyph comes out without contours and
/// with a bounding box of zeros.
pub fn get_glyph(bytes: &[u8], table_offsets: &HashMap<u32, usize>, loca_offset: usize) -> (r:
    Result<SimpleGlyph, DecodeError>)
    ensures
        decodes_to(r, glyph_outline(bytes@, offset_in(table_offsets@, GLYF) + loca_offset)),
{
    proof {
        vstd::slice::axiom_spec_len(bytes);
    }
    let g = advance(table_offset(table_offsets, GLYF), loca_offset)?;
    glyph_at(bytes, g)
}

} // verus!
