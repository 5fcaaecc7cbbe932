use vstd::prelude::*;
use crate::layout::{layout_lines, placed_as, placements};
use crate::measure::{is_measure, measure_text, width_fn};
use crate::options::{TextJustify, TextOnImageError, VerticalAnchor, WrapBehavior};
use crate::text::{logical_lines, push_char, split_lines, string_views};
use crate::wrap::{wrap_line, wrap_model};

verus! {

broadcast use vstd::seq_lib::group_seq_properties;

/// The narrowest wrap width accepted: the width of two em-wide characters.
pub open spec fn min_wrap_width(w: spec_fn(Seq<char>) -> int) -> int {
    w(seq!['m', 'm'])
}

/// Whether `wrap` asks for wrapping narrower than `min_wrap_width`.
pub open spec fn too_narrow(wrap: WrapBehavior, w: spec_fn(Seq<char>) -> int) -> bool {
    match wrap {
        WrapBehavior::NoWrap => false,
        WrapBehavior::Wrap(max_width) => max_width < min_wrap_width(w),
    }
}

/// The lines that are drawn: the logical lines as they are, or each wrapped.
pub open spec fn physical_lines(
    text: Seq<char>,
    wrap: WrapBehavior,
    w: spec_fn(Seq<char>) -> int,
) -> Seq<Seq<char>> {
    match wrap {
        WrapBehavior::NoWrap => logical_lines(text),
        WrapBehavior::Wrap(max_width) => logical_lines(text).map_values(
            |l: Seq<char>| wrap_model(l, max_width as int, w),
        ).flatten(),
    }
}

/// Wraps every line of `lines` at `max_width`, keeping their order.
pub fn wrap_lines<F: Fn(&str) -> u32>(lines: &Vec<String>, max_width: u32, measure: &F) -> (r: Vec<
    String,
>)
    requires
        is_measure(*measure),
    ensures
        string_views(r@) == string_views(lines@).map_values(
            |l: Seq<char>| wrap_model(l, max_width as int, width_fn(*measure)),
        ).flatten(),
{
    let ghost wrapped = string_views(lines@).map_values(
        |l: Seq<char>| wrap_model(l, max_width as int, width_fn(*measure)),
    );
    let mut out: Vec<String> = Vec::new();
    let mut i: usize = 0;
    assert(wrapped.subrange(0, 0).flatten() =~= seq![]);
    assert(string_views(out@) =~= seq![]);
    while i < lines.len()
        invariant
            is_measure(*measure),
            i <= lines@.len(),
            wrapped == string_views(lines@).map_values(
                |l: Seq<char>| wrap_model(l, max_width as int, width_fn(*measure)),
            ),
            string_views(out@) == wrapped.subrange(0, i as int).flatten(),
        decreases lines@.len() - i,
    {
        let mut part = wrap_line(lines[i].as_str(), max_width, measure);
        proof {
            assert(wrapped.subrange(0, i + 1) =~= wrapped.subrange(0, i as int).push(wrapped[i as int]));
            wrapped.subrange(0, i as int).lemma_flatten_push(wrapped[i as int]);
            assert(string_views(out@ + part@) =~= string_views(out@) + string_views(part@));
        }
        out.append(&mut part);
        i = i + 1;
    }
    assert(wrapped.subrange(0, lines@.len() as int) =~= wrapped);
    out
}

/// Lays out `text` around the anchor `(x, y)`: splits it into trimmed lines, wraps
/// them if asked, and gives each physical line its draw origin. Fails before any
/// placement when the wrap width is below `min_wrap_width`, whose value the error
/// carries.
pub fn layout_text<F: Fn(&str) -> u32>(
    text: &str,
    measure: &F,
    line_height: u32,
    x: i32,
    y: i32,
    justify: TextJustify,
    anchor: VerticalAnchor,
    wrap: WrapBehavior,
) -> (r: Result<Vec<crate::layout::Placement>, TextOnImageError>)
    requires
        is_measure(*measure),
    ensures
        too_narrow(wrap, width_fn(*measure)) ==> r == Err::<Vec<crate::layout::Placement>, _>(
            TextOnImageError::WrapWidthTooSmall(min_wrap_width(width_fn(*measure)) as u32),
        ),
        !too_narrow(wrap, width_fn(*measure)) ==> placed_as(
            r,
            placements(
                physical_lines(text@, wrap, width_fn(*measure)),
                width_fn(*measure),
                line_height as int,
                x as int,
                y as int,
                justify,
                anchor,
            ),
        ),
{
    let lines = split_lines(text);
    match wrap {
        WrapBehavior::NoWrap => layout_lines(&lines, measure, line_height, x, y, justify, anchor),
        WrapBehavior::Wrap(max_width) => {
            let mut probe = String::new();
            push_char(&mut probe, 'm');
            push_char(&mut probe, 'm');
            assert(probe@ =~= seq!['m', 'm']);
            let min_width = measure_text(measure, probe.as_str());
            if max_width < min_width {
                return Err(TextOnImageError::WrapWidthTooSmall(min_width));
            }
            let wrapped = wrap_lines(&lines, max_width, measure);
            layout_lines(&wrapped, measure, line_height, x, y, justify, anchor)
        },
    }
}

} // verus!
