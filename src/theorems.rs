use vstd::prelude::*;
use crate::layout::{placed_as, placement_views, placements, vertical_offset};
use crate::options::{TextJustify, TextOnImageError, VerticalAnchor, WrapBehavior};
use crate::place::physical_lines;
use crate::text::{is_white_space, logical_lines, words, words_from};
use crate::wrap::{fits, place_word, place_words, split_word, start_word, wrap_pieces, WrapState};

verus! {

/// The sum of the advances of the characters of `s`.
pub open spec fn advance_sum(s: Seq<char>, adv: spec_fn(char) -> nat) -> int
    decreases s.len(),
{
    if s.len() == 0 {
        0
    } else {
        advance_sum(s.drop_last(), adv) + adv(s.last())
    }
}

/// The width of every text is the sum of its characters' advances.
pub open spec fn is_additive(w: spec_fn(Seq<char>) -> int, adv: spec_fn(char) -> nat) -> bool {
    forall|s: Seq<char>| #[trigger] w(s) == advance_sum(s, adv)
}

/// No character advances further than a hyphen.
pub open spec fn no_wider_than_hyphen(adv: spec_fn(char) -> nat) -> bool {
    forall|c: char| #[trigger] adv(c) <= adv('-')
}

/// A line text is within the width, or a single character that may overflow it.
pub open spec fn within_width(t: Seq<char>, max_width: int, w: spec_fn(Seq<char>) -> int) -> bool {
    w(t) <= max_width || t.len() <= 1
}

pub open spec fn state_within(st: WrapState, max_width: int, w: spec_fn(Seq<char>) -> int) -> bool {
    &&& forall|k: int| 0 <= k < st.done.len() ==> within_width(#[trigger] st.done[k].0, max_width, w)
    &&& within_width(st.buffer, max_width, w)
}

proof fn lemma_advance_sum_add(a: Seq<char>, b: Seq<char>, adv: spec_fn(char) -> nat)
    ensures
        advance_sum(a + b, adv) == advance_sum(a, adv) + advance_sum(b, adv),
    decreases b.len(),
{
    if b.len() == 0 {
        assert(a + b =~= a);
    } else {
        assert((a + b).drop_last() =~= a + b.drop_last());
        lemma_advance_sum_add(a, b.drop_last(), adv);
    }
}

proof fn lemma_split_within(
    st: WrapState,
    chars: Seq<char>,
    max_width: int,
    w: spec_fn(Seq<char>) -> int,
    adv: spec_fn(char) -> nat,
)
    requires
        is_additive(w, adv),
        no_wider_than_hyphen(adv),
        state_within(st, max_width, w),
    ensures
        state_within(split_word(st, chars, max_width, w), max_width, w),
    decreases chars.len(),
{
    if chars.len() > 0 {
        let c = chars[0];
        assert(st.buffer.push(c).drop_last() =~= st.buffer);
        assert(st.buffer.push('-').drop_last() =~= st.buffer);
        assert(w(st.buffer.push(c)) == advance_sum(st.buffer, adv) + adv(c));
        assert(w(st.buffer.push('-')) == advance_sum(st.buffer, adv) + adv('-'));
        let next = if w(st.buffer.push('-')) <= max_width {
            WrapState { done: st.done, buffer: st.buffer.push(c) }
        } else {
            WrapState { done: st.done.push((st.buffer, true)), buffer: seq![c] }
        };
        assert(state_within(next, max_width, w)) by {
            assert forall|k: int| 0 <= k < next.done.len() implies within_width(
                #[trigger] next.done[k].0,
                max_width,
                w,
            ) by {
                if k < st.done.len() {
                    assert(next.done[k] == st.done[k]);
                }
            }
        }
        lemma_split_within(next, chars.drop_first(), max_width, w, adv);
    }
}

proof fn lemma_start_within(
    done: Seq<(Seq<char>, bool)>,
    word: Seq<char>,
    max_width: int,
    w: spec_fn(Seq<char>) -> int,
    adv: spec_fn(char) -> nat,
)
    requires
        is_additive(w, adv),
        no_wider_than_hyphen(adv),
        forall|k: int| 0 <= k < done.len() ==> within_width(#[trigger] done[k].0, max_width, w),
    ensures
        state_within(start_word(done, word, max_width, w), max_width, w),
{
    lemma_advance_sum_add(seq![' '], word, adv);
    assert(w(seq![' ']) == advance_sum(seq![' '], adv));
    assert(w(seq![' '] + word) == advance_sum(seq![' '] + word, adv));
    assert(w(word) == advance_sum(word, adv));
    lemma_split_within(WrapState { done, buffer: seq![] }, word, max_width, w, adv);
}

proof fn lemma_place_within(
    st: WrapState,
    word: Seq<char>,
    max_width: int,
    w: spec_fn(Seq<char>) -> int,
    adv: spec_fn(char) -> nat,
)
    requires
        is_additive(w, adv),
        no_wider_than_hyphen(adv),
        state_within(st, max_width, w),
    ensures
        state_within(place_word(st, word, max_width, w), max_width, w),
{
    if st.buffer.len() == 0 {
        lemma_start_within(st.done, word, max_width, w, adv);
    } else if fits(st.buffer, word, max_width, w) {
    } else {
        let done = st.done.push((st.buffer, false));
        assert forall|k: int| 0 <= k < done.len() implies within_width(
            #[trigger] done[k].0,
            max_width,
            w,
        ) by {
            if k < st.done.len() {
                assert(done[k] == st.done[k]);
            }
        }
        lemma_start_within(done, word, max_width, w, adv);
    }
}

proof fn lemma_place_words_within(
    st: WrapState,
    ws: Seq<Seq<char>>,
    max_width: int,
    w: spec_fn(Seq<char>) -> int,
    adv: spec_fn(char) -> nat,
)
    requires
        is_additive(w, adv),
        no_wider_than_hyphen(adv),
        state_within(st, max_width, w),
    ensures
        state_within(place_words(st, ws, max_width, w), max_width, w),
    decreases ws.len(),
{
    if ws.len() > 0 {
        lemma_place_within(st, ws[0], max_width, w, adv);
        lemma_place_words_within(place_word(st, ws[0], max_width, w), ws.drop_first(), max_width, w, adv);
    }
}

/// Width bound. When widths add up character by character and no character is
/// wider than a hyphen, every wrapped line, without the hyphen that wrapping
/// added to it, is at most `max_width` wide, or is a single character.
pub proof fn lemma_wrapped_lines_within_width(
    line: Seq<char>,
    max_width: int,
    w: spec_fn(Seq<char>) -> int,
    adv: spec_fn(char) -> nat,
)
    requires
        is_additive(w, adv),
        no_wider_than_hyphen(adv),
    ensures
        forall|k: int|
            0 <= k < wrap_pieces(line, max_width, w).len() ==> within_width(
                #[trigger] wrap_pieces(line, max_width, w)[k].0,
                max_width,
                w,
            ),
{
    let init = WrapState { done: seq![], buffer: seq![] };
    lemma_place_words_within(init, words(line), max_width, w, adv);
    let st = place_words(init, words(line), max_width, w);
    let pieces = wrap_pieces(line, max_width, w);
    assert forall|k: int| 0 <= k < pieces.len() implies within_width(
        #[trigger] pieces[k].0,
        max_width,
        w,
    ) by {
        if k < st.done.len() {
            assert(pieces[k] == st.done[k]);
        }
    }
}

/// A finished line followed by what joins it to the next one: nothing after an
/// added hyphen (the hyphen itself is dropped), a space otherwise.
pub open spec fn joined_piece(p: (Seq<char>, bool)) -> Seq<char> {
    if p.1 {
        p.0
    } else {
        p.0 + seq![' ']
    }
}

pub open spec fn joined_done(done: Seq<(Seq<char>, bool)>) -> Seq<char> {
    done.map_values(|p: (Seq<char>, bool)| joined_piece(p)).flatten()
}

/// Wrapped lines joined back into one line: each hyphen-broken line runs straight
/// into the next, and other lines are separated by one space.
pub open spec fn rejoined(pieces: Seq<(Seq<char>, bool)>) -> Seq<char> {
    if pieces.len() == 0 {
        seq![]
    } else {
        joined_done(pieces.drop_last()) + pieces.last().0
    }
}

/// Each word preceded by a space, run together.
pub open spec fn spaced(ws: Seq<Seq<char>>) -> Seq<char> {
    ws.map_values(|x: Seq<char>| seq![' '] + x).flatten()
}

/// The words separated by single spaces.
pub open spec fn unwords(ws: Seq<Seq<char>>) -> Seq<char> {
    if ws.len() == 0 {
        seq![]
    } else {
        ws[0] + spaced(ws.drop_first())
    }
}

/// The line that the state stands for: finished lines joined, then the buffer.
pub open spec fn joined_state(st: WrapState) -> Seq<char> {
    joined_done(st.done) + st.buffer
}

proof fn lemma_joined_done_push(done: Seq<(Seq<char>, bool)>, p: (Seq<char>, bool))
    ensures
        joined_done(done.push(p)) == joined_done(done) + joined_piece(p),
{
    let f = |q: (Seq<char>, bool)| joined_piece(q);
    assert(done.push(p).map_values(f) =~= done.map_values(f).push(joined_piece(p)));
    done.map_values(f).lemma_flatten_push(joined_piece(p));
}

proof fn lemma_split_joined(st: WrapState, chars: Seq<char>, max_width: int, w: spec_fn(Seq<char>) -> int)
    ensures
        joined_state(split_word(st, chars, max_width, w)) == joined_state(st) + chars,
        chars.len() > 0 ==> split_word(st, chars, max_width, w).buffer.len() > 0,
    decreases chars.len(),
{
    if chars.len() == 0 {
        assert(joined_state(st) + chars =~= joined_state(st));
    } else {
        let c = chars[0];
        let next = if w(st.buffer.push('-')) <= max_width {
            WrapState { done: st.done, buffer: st.buffer.push(c) }
        } else {
            WrapState { done: st.done.push((st.buffer, true)), buffer: seq![c] }
        };
        if !(w(st.buffer.push('-')) <= max_width) {
            lemma_joined_done_push(st.done, (st.buffer, true));
        }
        assert(joined_state(next) =~= joined_state(st).push(c));
        lemma_split_joined(next, chars.drop_first(), max_width, w);
        assert(joined_state(st).push(c) + chars.drop_first() =~= joined_state(st) + chars);
    }
}

proof fn lemma_start_joined(
    done: Seq<(Seq<char>, bool)>,
    word: Seq<char>,
    max_width: int,
    w: spec_fn(Seq<char>) -> int,
)
    requires
        word.len() > 0,
    ensures
        joined_state(start_word(done, word, max_width, w)) == joined_done(done) + word,
        start_word(done, word, max_width, w).buffer.len() > 0,
{
    let empty = WrapState { done, buffer: seq![] };
    assert(joined_state(empty) =~= joined_done(done));
    lemma_split_joined(empty, word, max_width, w);
}

proof fn lemma_place_joined(st: WrapState, word: Seq<char>, max_width: int, w: spec_fn(Seq<char>) -> int)
    requires
        word.len() > 0,
    ensures
        st.buffer.len() == 0 ==> joined_state(place_word(st, word, max_width, w)) == joined_state(st) + word,
        st.buffer.len() > 0 ==> joined_state(place_word(st, word, max_width, w)) == joined_state(st)
            + (seq![' '] + word),
        place_word(st, word, max_width, w).buffer.len() > 0,
{
    if st.buffer.len() == 0 {
        assert(joined_state(st) =~= joined_done(st.done));
        lemma_start_joined(st.done, word, max_width, w);
    } else if fits(st.buffer, word, max_width, w) {
        assert(joined_state(place_word(st, word, max_width, w)) =~= joined_state(st) + (seq![' ']
            + word));
    } else {
        lemma_joined_done_push(st.done, (st.buffer, false));
        lemma_start_joined(st.done.push((st.buffer, false)), word, max_width, w);
        assert(joined_done(st.done) + (st.buffer + seq![' ']) + word =~= joined_state(st) + (seq![
            ' ',
        ] + word));
    }
}

proof fn lemma_place_words_joined(
    st: WrapState,
    ws: Seq<Seq<char>>,
    max_width: int,
    w: spec_fn(Seq<char>) -> int,
)
    requires
        st.buffer.len() > 0,
        forall|k: int| 0 <= k < ws.len() ==> (#[trigger] ws[k]).len() > 0,
    ensures
        joined_state(place_words(st, ws, max_width, w)) == joined_state(st) + spaced(ws),
        place_words(st, ws, max_width, w).buffer.len() > 0,
    decreases ws.len(),
{
    let f = |x: Seq<char>| seq![' '] + x;
    if ws.len() == 0 {
        assert(spaced(ws) =~= seq![]);
        assert(joined_state(st) + spaced(ws) =~= joined_state(st));
    } else {
        assert(ws[0].len() > 0);
        lemma_place_joined(st, ws[0], max_width, w);
        let rest = ws.drop_first();
        assert forall|k: int| 0 <= k < rest.len() implies (#[trigger] rest[k]).len() > 0 by {
            assert(rest[k] == ws[k + 1]);
        }
        lemma_place_words_joined(place_word(st, ws[0], max_width, w), rest, max_width, w);
        assert(ws.map_values(f).drop_first() =~= rest.map_values(f));
        assert(spaced(ws) == f(ws[0]) + spaced(rest));
        assert(joined_state(st) + f(ws[0]) + spaced(rest) =~= joined_state(st) + spaced(ws));
    }
}

proof fn lemma_words_from_nonempty(rest: Seq<char>, cur: Seq<char>)
    ensures
        forall|k: int| 0 <= k < words_from(rest, cur).len() ==> (#[trigger] words_from(rest, cur)[k]).len() > 0,
    decreases rest.len(),
{
    if rest.len() == 0 {
        if cur.len() > 0 {
            assert(words_from(rest, cur) == seq![cur]);
            assert(seq![cur][0] == cur);
        }
    } else if is_white_space(rest[0]) {
        if cur.len() == 0 {
            lemma_words_from_nonempty(rest.drop_first(), cur);
            assert(words_from(rest, cur) == words_from(rest.drop_first(), cur));
        } else {
            lemma_words_from_nonempty(rest.drop_first(), seq![]);
            let tail = words_from(rest.drop_first(), seq![]);
            assert forall|k: int| 0 <= k < words_from(rest, cur).len() implies (
            #[trigger] words_from(rest, cur)[k]).len() > 0 by {
                assert(words_from(rest, cur) == seq![cur] + tail);
                if k > 0 {
                    assert(words_from(rest, cur)[k] == tail[k - 1]);
                } else {
                    assert(words_from(rest, cur)[k] == cur);
                }
            }
        }
    } else {
        lemma_words_from_nonempty(rest.drop_first(), cur.push(rest[0]));
        assert(words_from(rest, cur) == words_from(rest.drop_first(), cur.push(rest[0])));
    }
}

/// Content preservation. Joining the wrapped lines back, a line broken with a
/// hyphen straight onto the next one without its hyphen and other lines with one
/// space, gives the words of the line in order, separated by single spaces.
pub proof fn lemma_wrapping_keeps_words(line: Seq<char>, max_width: int, w: spec_fn(Seq<char>) -> int)
    ensures
        rejoined(wrap_pieces(line, max_width, w)) == unwords(words(line)),
{
    let init = WrapState { done: seq![], buffer: seq![] };
    let ws = words(line);
    let pieces = wrap_pieces(line, max_width, w);
    lemma_words_from_nonempty(line, seq![]);
    assert(joined_done(seq![]) =~= seq![]);
    if ws.len() == 0 {
        assert(pieces == seq![(Seq::<char>::empty(), false)]);
        assert(pieces.drop_last() =~= seq![]);
        assert(rejoined(pieces) =~= seq![]);
    } else {
        assert(ws[0].len() > 0);
        lemma_place_joined(init, ws[0], max_width, w);
        let first = place_word(init, ws[0], max_width, w);
        assert(joined_state(init) =~= seq![]);
        assert(joined_state(first) =~= ws[0]);
        let rest = ws.drop_first();
        assert forall|k: int| 0 <= k < rest.len() implies (#[trigger] rest[k]).len() > 0 by {
            assert(rest[k] == ws[k + 1]);
        }
        lemma_place_words_joined(first, rest, max_width, w);
        let st = place_words(init, ws, max_width, w);
        assert(st == place_words(first, rest, max_width, w));
        assert(pieces.drop_last() =~= st.done);
        assert(rejoined(pieces) == joined_state(st));
    }
}

/// Without wrapping, the drawn lines are the trimmed lines of the text, unchanged.
pub proof fn lemma_no_wrap_keeps_lines(text: Seq<char>, w: spec_fn(Seq<char>) -> int)
    ensures
        physical_lines(text, WrapBehavior::NoWrap, w) == logical_lines(text),
{
}

/// Laying out the same text with the same settings twice gives the same lines at
/// the same origins, or the same error.
pub proof fn lemma_layout_repeatable(
    text: Seq<char>,
    w: spec_fn(Seq<char>) -> int,
    line_height: int,
    x: int,
    y: int,
    justify: TextJustify,
    anchor: VerticalAnchor,
    wrap: WrapBehavior,
    first: Result<Vec<crate::layout::Placement>, TextOnImageError>,
    second: Result<Vec<crate::layout::Placement>, TextOnImageError>,
)
    requires
        placed_as(first, placements(physical_lines(text, wrap, w), w, line_height, x, y, justify, anchor)),
        placed_as(second, placements(physical_lines(text, wrap, w), w, line_height, x, y, justify, anchor)),
    ensures
        first is Ok <==> second is Ok,
        first is Ok ==> placement_views(first->Ok_0@) == placement_views(second->Ok_0@),
        first is Err ==> first == second,
{
}

/// With the block anchored at the bottom, the last of `n` lines of height `h`
/// starts one line height above the anchor.
pub proof fn lemma_bottom_anchor_last_line(h: int, n: int)
    requires
        n >= 1,
    ensures
        vertical_offset(VerticalAnchor::Bottom, h, n, n - 1) == -h,
{
    assert(h * (n - (n - 1)) == h) by (nonlinear_arith);
}

/// With the block anchored at the top, the first line starts at the anchor.
pub proof fn lemma_top_anchor_first_line(h: int, n: int)
    ensures
        vertical_offset(VerticalAnchor::Top, h, n, 0) == 0,
{
}

proof fn lemma_split_flags(st: WrapState, chars: Seq<char>, max_width: int, w: spec_fn(Seq<char>) -> int)
    ensures
        ({
            let r = split_word(st, chars, max_width, w);
            &&& r.done.len() >= st.done.len()
            &&& r.done.subrange(0, st.done.len() as int) == st.done
            &&& forall|k: int| st.done.len() <= k < r.done.len() ==> (#[trigger] r.done[k]).1
            &&& r.done.len() == st.done.len() ==> r.buffer == st.buffer + chars
        }),
    decreases chars.len(),
{
    if chars.len() == 0 {
        assert(st.done.subrange(0, st.done.len() as int) =~= st.done);
        assert(st.buffer + chars =~= st.buffer);
    } else {
        let c = chars[0];
        let next = if w(st.buffer.push('-')) <= max_width {
            WrapState { done: st.done, buffer: st.buffer.push(c) }
        } else {
            WrapState { done: st.done.push((st.buffer, true)), buffer: seq![c] }
        };
        lemma_split_flags(next, chars.drop_first(), max_width, w);
        let r = split_word(st, chars, max_width, w);
        assert(r == split_word(next, chars.drop_first(), max_width, w));
        assert(r.done.subrange(0, st.done.len() as int) =~= r.done.subrange(0, next.done.len() as int).subrange(
            0,
            st.done.len() as int,
        ));
        assert(next.done.subrange(0, st.done.len() as int) =~= st.done);
        assert forall|k: int| st.done.len() <= k < r.done.len() implies (#[trigger] r.done[k]).1 by {
            if k < next.done.len() {
                assert(r.done[k] == r.done.subrange(0, next.done.len() as int)[k]);
                assert(next.done[k] == (st.buffer, true));
            }
        }
        if r.done.len() == st.done.len() {
            assert(next.done.len() == st.done.len());
            assert(st.buffer.push(c) + chars.drop_first() =~= st.buffer + chars);
        }
    }
}

/// A single word wider than the wrap width, each of whose characters fits with a
/// hyphen, is broken over at least two lines: every line but the last ends with
/// an added hyphen and the last does not. Widths add up character by character and
/// no character is wider than a hyphen.
pub proof fn lemma_long_word_is_hyphenated(
    line: Seq<char>,
    word: Seq<char>,
    max_width: int,
    w: spec_fn(Seq<char>) -> int,
    adv: spec_fn(char) -> nat,
)
    requires
        is_additive(w, adv),
        no_wider_than_hyphen(adv),
        words(line) == seq![word],
        w(word) > max_width,
        forall|i: int| 0 <= i < word.len() ==> w(#[trigger] seq![word[i], '-']) <= max_width,
    ensures
        ({
            let pieces = wrap_pieces(line, max_width, w);
            &&& pieces.len() >= 2
            &&& forall|k: int| 0 <= k < pieces.len() - 1 ==> (#[trigger] pieces[k]).1
            &&& !pieces.last().1
        }),
{
    let init = WrapState { done: seq![], buffer: seq![] };
    lemma_words_from_nonempty(line, seq![]);
    assert(words(line)[0] == word);
    assert(word.len() > 0);
    lemma_advance_sum_add(seq![' '], word, adv);
    assert(w(seq![' ']) == advance_sum(seq![' '], adv));
    assert(w(seq![' '] + word) == advance_sum(seq![' '] + word, adv));
    assert(!fits(seq![], word, max_width, w));
    let empty = WrapState { done: seq![], buffer: seq![] };
    let r = split_word(empty, word, max_width, w);
    assert(place_word(init, word, max_width, w) == r);
    assert(seq![word].drop_first() =~= Seq::<Seq<char>>::empty());
    assert(place_words(init, seq![word], max_width, w) == place_words(r, Seq::<Seq<char>>::empty(), max_width, w));
    assert(place_words(init, words(line), max_width, w) == r);
    lemma_split_flags(empty, word, max_width, w);
    if r.done.len() == 0 {
        assert(r.buffer =~= word);
        lemma_split_within(empty, word, max_width, w, adv);
        assert(word.len() <= 1);
        let c = word[0];
        assert(word =~= seq![c]);
        assert(seq![c, '-'].drop_last() =~= seq![c]);
        assert(seq![c].drop_last() =~= Seq::<char>::empty());
        assert(w(seq![c, '-']) == advance_sum(seq![c, '-'], adv));
        assert(w(seq![c]) == advance_sum(seq![c], adv));
        assert(w(seq![word[0], '-']) <= max_width);
        assert(false);
    }
    let pieces = wrap_pieces(line, max_width, w);
    assert(pieces == r.done.push((r.buffer, false)));
    assert forall|k: int| 0 <= k < pieces.len() - 1 implies (#[trigger] pieces[k]).1 by {
        assert(pieces[k] == r.done[k]);
    }
}

} // verus!
