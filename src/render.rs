use vstd::prelude::*;
use crate::layout::{layout_lines, origins_in_range, placement_views, placements, Placement};
use crate::measure::{is_measure, measure_text, width_fn};
use crate::options::{TextJustify, TextOnImageError, VerticalAnchor, WrapBehavior};
use crate::place::{min_wrap_width, physical_lines, too_narrow, wrap_lines};
use crate::text::{push_char, split_lines};
use rusttype::{Font, Scale};

verus! {

#[verifier::external_type_specification]
#[verifier::external_body]
pub struct ExFont<'a>(Font<'a>);

#[verifier::external_type_specification]
#[verifier::external_body]
pub struct ExScale(Scale);

/// The colour of the cross that marks the anchor.
pub const MARKER_COLOR: [u8; 4] = [255, 0, 0, 255];

/// One drawing operation on the canvas.
#[derive(Debug)]
pub enum DrawOp {
    /// A small cross centred on `(x, y)`.
    Marker { x: i32, y: i32, color: [u8; 4] },
    /// One line of text with its origin at `(x, y)`.
    Line { text: String, x: i32, y: i32, color: [u8; 4] },
}

/// What a `DrawOp` draws.
pub enum Drawn {
    Marker { x: int, y: int, color: [u8; 4] },
    Line { text: Seq<char>, x: int, y: int, color: [u8; 4] },
}

impl View for DrawOp {
    type V = Drawn;

    open spec fn view(&self) -> Drawn {
        match self {
            DrawOp::Marker { x, y, color } => Drawn::Marker { x: *x as int, y: *y as int, color: *color },
            DrawOp::Line { text, x, y, color } => Drawn::Line {
                text: text@,
                x: *x as int,
                y: *y as int,
                color: *color,
            },
        }
    }
}

/// The operations that draw a text: the lines to draw, with the font and scale
/// that every line is drawn with.
pub struct DrawPlan<'a> {
    pub font: &'a Font<'a>,
    pub scale: Scale,
    pub ops: Vec<DrawOp>,
}

pub open spec fn drawn(ops: Seq<DrawOp>) -> Seq<Drawn> {
    ops.map_values(|op: DrawOp| op@)
}

/// Each placed line drawn in `color`, in order.
pub open spec fn line_draws(ps: Seq<(Seq<char>, int, int)>, color: [u8; 4]) -> Seq<Drawn> {
    ps.map_values(|p: (Seq<char>, int, int)| Drawn::Line { text: p.0, x: p.1, y: p.2, color })
}

/// Whether the wrap width of `wrap` is accepted by `measure`: no narrower than two ems.
pub fn wrap_width_accepted<F: Fn(&str) -> u32>(wrap: WrapBehavior, measure: &F) -> (r: bool)
    requires
        is_measure(*measure),
    ensures
        r == !too_narrow(wrap, width_fn(*measure)),
{
    match wrap {
        WrapBehavior::NoWrap => true,
        WrapBehavior::Wrap(max_width) => {
            let mut probe = String::new();
            push_char(&mut probe, 'm');
            push_char(&mut probe, 'm');
            assert(probe@ =~= seq!['m', 'm']);
            max_width >= measure_text(measure, probe.as_str())
        },
    }
}

/// The narrowest wrap width that `measure` accepts.
pub fn min_wrap_width_of<F: Fn(&str) -> u32>(measure: &F) -> (r: u32)
    requires
        is_measure(*measure),
    ensures
        r == min_wrap_width(width_fn(*measure)),
{
    let mut probe = String::new();
    push_char(&mut probe, 'm');
    push_char(&mut probe, 'm');
    assert(probe@ =~= seq!['m', 'm']);
    measure_text(measure, probe.as_str())
}

fn line_ops(lines: &Vec<Placement>, color: [u8; 4], ops: &mut Vec<DrawOp>)
    ensures
        drawn(final(ops)@) == drawn(old(ops)@) + line_draws(placement_views(lines@), color),
{
    let ghost start = drawn(ops@);
    let mut i: usize = 0;
    while i < lines.len()
        invariant
            i <= lines@.len(),
            drawn(ops@) == start + line_draws(placement_views(lines@), color).subrange(0, i as int),
        decreases lines@.len() - i,
    {
        let line = &lines[i];
        let op = DrawOp::Line { text: line.text.clone(), x: line.x, y: line.y, color };
        proof {
            let all = line_draws(placement_views(lines@), color);
            assert(all.subrange(0, i + 1) =~= all.subrange(0, i as int).push(all[i as int]));
            assert(drawn(ops@.push(op)) =~= drawn(ops@).push(op@));
        }
        ops.push(op);
        i = i + 1;
    }
    assert(line_draws(placement_views(lines@), color).subrange(0, lines@.len() as int)
        =~= line_draws(placement_views(lines@), color));
}

/// The lines of `text` as laid out by `layout_text`, drawn in `color` with `font`
/// and `scale`, in order. The wrap width must be accepted (see
/// `wrap_width_accepted`); the result is the range error when an origin leaves
/// the `i32` range.
pub fn plan_text<'a, F: Fn(&str) -> u32>(
    text: &str,
    font: &'a Font<'a>,
    scale: Scale,
    color: [u8; 4],
    measure: &F,
    line_height: u32,
    x: i32,
    y: i32,
    justify: TextJustify,
    anchor: VerticalAnchor,
    wrap: WrapBehavior,
) -> (r: Result<DrawPlan<'a>, TextOnImageError>)
    requires
        is_measure(*measure),
        !too_narrow(wrap, width_fn(*measure)),
    ensures
        ({
            let ps = placements(
                physical_lines(text@, wrap, width_fn(*measure)),
                width_fn(*measure),
                line_height as int,
                x as int,
                y as int,
                justify,
                anchor,
            );
            match r {
                Ok(plan) => origins_in_range(ps) && plan.font == font && plan.scale == scale
                    && drawn(plan.ops@) == line_draws(ps, color),
                Err(e) => e == TextOnImageError::PositionOutOfRange && !origins_in_range(ps),
            }
        }),
{
    let mut ops: Vec<DrawOp> = Vec::new();
    match place_lines(text, measure, line_height, x, y, justify, anchor, wrap) {
        Ok(lines) => {
            assert(drawn(ops@) =~= seq![]);
            line_ops(&lines, color, &mut ops);
            assert(drawn(ops@) =~= line_draws(placement_views(lines@), color));
            Ok(DrawPlan { font, scale, ops })
        },
        Err(e) => Err(e),
    }
}

/// As `plan_text`, with a cross in `MARKER_COLOR` at the anchor `(x, y)` drawn
/// first, once, before the same lines.
pub fn plan_text_with_marker<'a, F: Fn(&str) -> u32>(
    text: &str,
    font: &'a Font<'a>,
    scale: Scale,
    color: [u8; 4],
    measure: &F,
    line_height: u32,
    x: i32,
    y: i32,
    justify: TextJustify,
    anchor: VerticalAnchor,
    wrap: WrapBehavior,
) -> (r: Result<DrawPlan<'a>, TextOnImageError>)
    requires
        is_measure(*measure),
        !too_narrow(wrap, width_fn(*measure)),
    ensures
        ({
            let ps = placements(
                physical_lines(text@, wrap, width_fn(*measure)),
                width_fn(*measure),
                line_height as int,
                x as int,
                y as int,
                justify,
                anchor,
            );
            match r {
                Ok(plan) => origins_in_range(ps) && plan.font == font && plan.scale == scale
                    && drawn(plan.ops@) == seq![
                        Drawn::Marker { x: x as int, y: y as int, color: MARKER_COLOR },
                    ] + line_draws(ps, color),
                Err(e) => e == TextOnImageError::PositionOutOfRange && !origins_in_range(ps),
            }
        }),
{
    match place_lines(text, measure, line_height, x, y, justify, anchor, wrap) {
        Ok(lines) => {
            let mut ops: Vec<DrawOp> = Vec::new();
            let marker = DrawOp::Marker { x, y, color: MARKER_COLOR };
            ops.push(marker);
            assert(drawn(ops@) =~= seq![marker@]);
            line_ops(&lines, color, &mut ops);
            Ok(DrawPlan { font, scale, ops })
        },
        Err(e) => Err(e),
    }
}

/// The placed lines of `text` for an accepted wrap width (see `layout_text`).
fn place_lines<F: Fn(&str) -> u32>(
    text: &str,
    measure: &F,
    line_height: u32,
    x: i32,
    y: i32,
    justify: TextJustify,
    anchor: VerticalAnchor,
    wrap: WrapBehavior,
) -> (r: Result<Vec<Placement>, TextOnImageError>)
    requires
        is_measure(*measure),
        !too_narrow(wrap, width_fn(*measure)),
    ensures
        ({
            let ps = placements(
                physical_lines(text@, wrap, width_fn(*measure)),
                width_fn(*measure),
                line_height as int,
                x as int,
                y as int,
                justify,
                anchor,
            );
            match r {
                Ok(v) => origins_in_range(ps) && placement_views(v@) == ps,
                Err(e) => e == TextOnImageError::PositionOutOfRange && !origins_in_range(ps),
            }
        }),
{
    let lines = split_lines(text);
    match wrap {
        WrapBehavior::NoWrap => layout_lines(&lines, measure, line_height, x, y, justify, anchor),
        WrapBehavior::Wrap(max_width) => {
            let wrapped = wrap_lines(&lines, max_width, measure);
            layout_lines(&wrapped, measure, line_height, x, y, justify, anchor)
        },
    }
}

} // verus!
