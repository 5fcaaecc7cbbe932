use vstd::prelude::*;
use crate::measure::{is_measure, measure_text, width_fn};
use crate::options::{TextJustify, TextOnImageError, VerticalAnchor};

verus! {

/// Half of `a`, rounded toward zero.
pub open spec fn half_toward_zero(a: int) -> int {
    if a >= 0 {
        a / 2
    } else {
        -((-a) / 2)
    }
}

/// How far line `i` of `n` lines of height `h` is drawn below the anchor.
pub open spec fn vertical_offset(anchor: VerticalAnchor, h: int, n: int, i: int) -> int {
    match anchor {
        VerticalAnchor::Top => h * i,
        VerticalAnchor::Center => half_toward_zero(h * i - h * (n - i)),
        VerticalAnchor::Bottom => -(h * (n - i)),
    }
}

/// How far a line of the given width is drawn left of the anchor.
pub open spec fn horizontal_offset(justify: TextJustify, width: int) -> int {
    match justify {
        TextJustify::Left => 0,
        TextJustify::Center => width / 2,
        TextJustify::Right => width,
    }
}

pub open spec fn in_i32(v: int) -> bool {
    i32::MIN <= v <= i32::MAX
}

/// Each line with its draw origin: the anchor moved left by the line's horizontal
/// offset and down by its vertical offset.
pub open spec fn placements(
    lines: Seq<Seq<char>>,
    w: spec_fn(Seq<char>) -> int,
    h: int,
    x: int,
    y: int,
    justify: TextJustify,
    anchor: VerticalAnchor,
) -> Seq<(Seq<char>, int, int)> {
    Seq::new(
        lines.len(),
        |i: int|
            (
                lines[i],
                x - horizontal_offset(justify, w(lines[i])),
                y + vertical_offset(anchor, h, lines.len() as int, i),
            ),
    )
}

/// Whether every origin is a pair of `i32` coordinates.
pub open spec fn origins_in_range(ps: Seq<(Seq<char>, int, int)>) -> bool {
    forall|i: int| 0 <= i < ps.len() ==> in_i32(#[trigger] ps[i].1) && in_i32(ps[i].2)
}

/// One line of text with the point at which it is drawn.
#[derive(Debug)]
pub struct Placement {
    pub text: String,
    pub x: i32,
    pub y: i32,
}

impl View for Placement {
    type V = (Seq<char>, int, int);

    open spec fn view(&self) -> (Seq<char>, int, int) {
        (self.text@, self.x as int, self.y as int)
    }
}

pub open spec fn placement_views(v: Seq<Placement>) -> Seq<(Seq<char>, int, int)> {
    v.map_values(|p: Placement| p@)
}

/// `r` holds the placements `ps` when all their origins are `i32` coordinates, and
/// is the range error otherwise.
pub open spec fn placed_as(
    r: Result<Vec<Placement>, TextOnImageError>,
    ps: Seq<(Seq<char>, int, int)>,
) -> bool {
    match r {
        Ok(v) => origins_in_range(ps) && placement_views(v@) == ps,
        Err(e) => e == TextOnImageError::PositionOutOfRange && !origins_in_range(ps),
    }
}

proof fn lemma_product_bound(h: int, k: int)
    requires
        0 <= h <= u32::MAX,
        0 <= k <= u64::MAX,
    ensures
        0 <= h * k <= u32::MAX * u64::MAX,
{
    assert(0 <= h * k <= u32::MAX * u64::MAX) by (nonlinear_arith)
        requires
            0 <= h <= u32::MAX,
            0 <= k <= u64::MAX,
    ;
}

fn vertical_offset_of(anchor: VerticalAnchor, h: u32, n: usize, i: usize) -> (r: i128)
    requires
        i < n,
    ensures
        r == vertical_offset(anchor, h as int, n as int, i as int),
        -(u32::MAX * u64::MAX) <= r <= u32::MAX * u64::MAX,
{
    let hh = h as i128;
    let nn = n as i128;
    let ii = i as i128;
    proof {
        lemma_product_bound(h as int, i as int);
        lemma_product_bound(h as int, (n - i) as int);
    }
    match anchor {
        VerticalAnchor::Top => hh * ii,
        VerticalAnchor::Center => {
            let d = hh * ii - hh * (nn - ii);
            if d >= 0 {
                d / 2
            } else {
                let m = -d;
                -(m / 2)
            }
        },
        VerticalAnchor::Bottom => -(hh * (nn - ii)),
    }
}

fn horizontal_offset_of<F: Fn(&str) -> u32>(justify: TextJustify, line: &str, measure: &F) -> (r: i128)
    requires
        is_measure(*measure),
    ensures
        r == horizontal_offset(justify, width_fn(*measure)(line@)),
        0 <= r <= u32::MAX,
{
    match justify {
        TextJustify::Left => 0,
        TextJustify::Center => (measure_text(measure, line) / 2) as i128,
        TextJustify::Right => measure_text(measure, line) as i128,
    }
}

/// Gives each line its draw origin relative to the anchor `(x, y)`, for lines
/// `line_height` apart; fails when an origin leaves the `i32` range.
pub fn layout_lines<F: Fn(&str) -> u32>(
    lines: &Vec<String>,
    measure: &F,
    line_height: u32,
    x: i32,
    y: i32,
    justify: TextJustify,
    anchor: VerticalAnchor,
) -> (r: Result<Vec<Placement>, TextOnImageError>)
    requires
        is_measure(*measure),
    ensures
        placed_as(
            r,
            placements(
                lines@.map_values(|s: String| s@),
                width_fn(*measure),
                line_height as int,
                x as int,
                y as int,
                justify,
                anchor,
            ),
        ),
{
    let ghost ps = placements(
        lines@.map_values(|s: String| s@),
        width_fn(*measure),
        line_height as int,
        x as int,
        y as int,
        justify,
        anchor,
    );
    let n = lines.len();
    let mut out: Vec<Placement> = Vec::new();
    let mut i: usize = 0;
    while i < n
        invariant
            is_measure(*measure),
            n == lines@.len(),
            ps.len() == n,
            i <= n,
            ps == placements(
                lines@.map_values(|s: String| s@),
                width_fn(*measure),
                line_height as int,
                x as int,
                y as int,
                justify,
                anchor,
            ),
            placement_views(out@) == ps.subrange(0, i as int),
        decreases n - i,
    {
        let line = &lines[i];
        let ox = x as i128 - horizontal_offset_of(justify, line.as_str(), measure);
        let oy = y as i128 + vertical_offset_of(anchor, line_height, n, i);
        assert(ps[i as int] == (line@, ox as int, oy as int));
        assert(ps[i as int].1 == ox as int && ps[i as int].2 == oy as int);
        if ox < i32::MIN as i128 || ox > i32::MAX as i128 || oy < i32::MIN as i128 || oy
            > i32::MAX as i128 {
            assert(!(in_i32(ps[i as int].1) && in_i32(ps[i as int].2)));
            assert(!origins_in_range(ps));
            return Err(TextOnImageError::PositionOutOfRange);
        }
        let p = Placement { text: line.clone(), x: ox as i32, y: oy as i32 };
        assert(placement_views(out@.push(p)) =~= placement_views(out@).push(p@));
        assert(ps.subrange(0, i + 1) =~= ps.subrange(0, i as int).push(ps[i as int]));
        out.push(p);
        i = i + 1;
    }
    assert(ps.subrange(0, n as int) =~= ps);
    assert forall|k: int| 0 <= k < ps.len() implies in_i32(#[trigger] ps[k].1) && in_i32(ps[k].2) by {
        assert(ps[k] == out@[k]@);
    }
    Ok(out)
}

} // verus!
