use vstd::prelude::*;
use crate::measure::{is_measure, measure_text, width_fn};
use crate::text::{push_char, split_words, string_views, words};

verus! {

/// The physical lines finished so far, each with whether the wrapping ended it
/// with a hyphen inside a word, and the line still being filled.
pub struct WrapState {
    pub done: Seq<(Seq<char>, bool)>,
    pub buffer: Seq<char>,
}

/// The text of a finished line as it is drawn.
pub open spec fn render(p: (Seq<char>, bool)) -> Seq<char> {
    if p.1 {
        p.0.push('-')
    } else {
        p.0
    }
}

pub open spec fn rendered(done: Seq<(Seq<char>, bool)>) -> Seq<Seq<char>> {
    done.map_values(|p: (Seq<char>, bool)| render(p))
}

/// Whether `word` fits after `buffer` within `max_width`. On an empty buffer the
/// word is measured with a leading space, whose width is then allowed for.
pub open spec fn fits(
    buffer: Seq<char>,
    word: Seq<char>,
    max_width: int,
    w: spec_fn(Seq<char>) -> int,
) -> bool {
    if buffer.len() == 0 {
        w(seq![' '] + word) <= max_width + w(seq![' '])
    } else {
        w(buffer + seq![' '] + word) <= max_width
    }
}

/// Breaks `chars` into lines one character at a time: a character joins the line
/// while the line with a hyphen still fits; otherwise the line is finished with a
/// hyphen and the character starts the next one.
pub open spec fn split_word(
    st: WrapState,
    chars: Seq<char>,
    max_width: int,
    w: spec_fn(Seq<char>) -> int,
) -> WrapState
    decreases chars.len(),
{
    if chars.len() == 0 {
        st
    } else {
        let next = if w(st.buffer.push('-')) <= max_width {
            WrapState { done: st.done, buffer: st.buffer.push(chars[0]) }
        } else {
            WrapState { done: st.done.push((st.buffer, true)), buffer: seq![chars[0]] }
        };
        split_word(next, chars.drop_first(), max_width, w)
    }
}

/// Places `word` on an empty line: whole if it fits, else broken with hyphens.
pub open spec fn start_word(
    done: Seq<(Seq<char>, bool)>,
    word: Seq<char>,
    max_width: int,
    w: spec_fn(Seq<char>) -> int,
) -> WrapState {
    if fits(seq![], word, max_width, w) {
        WrapState { done, buffer: word }
    } else {
        split_word(WrapState { done, buffer: seq![] }, word, max_width, w)
    }
}

/// Places `word`: after the current line and a space if it fits there, else on a
/// fresh line once the current one is finished.
pub open spec fn place_word(
    st: WrapState,
    word: Seq<char>,
    max_width: int,
    w: spec_fn(Seq<char>) -> int,
) -> WrapState {
    if st.buffer.len() == 0 {
        start_word(st.done, word, max_width, w)
    } else if fits(st.buffer, word, max_width, w) {
        WrapState { done: st.done, buffer: st.buffer + seq![' '] + word }
    } else {
        start_word(st.done.push((st.buffer, false)), word, max_width, w)
    }
}

pub open spec fn place_words(
    st: WrapState,
    ws: Seq<Seq<char>>,
    max_width: int,
    w: spec_fn(Seq<char>) -> int,
) -> WrapState
    decreases ws.len(),
{
    if ws.len() == 0 {
        st
    } else {
        place_words(place_word(st, ws[0], max_width, w), ws.drop_first(), max_width, w)
    }
}

/// The physical lines of one logical line, before hyphens are drawn: the words
/// placed in order, then the last line, which is kept even when empty.
pub open spec fn wrap_pieces(
    line: Seq<char>,
    max_width: int,
    w: spec_fn(Seq<char>) -> int,
) -> Seq<(Seq<char>, bool)> {
    let st = place_words(WrapState { done: seq![], buffer: seq![] }, words(line), max_width, w);
    st.done.push((st.buffer, false))
}

/// The physical lines of one logical line, as drawn.
pub open spec fn wrap_model(
    line: Seq<char>,
    max_width: int,
    w: spec_fn(Seq<char>) -> int,
) -> Seq<Seq<char>> {
    rendered(wrap_pieces(line, max_width, w))
}

proof fn lemma_rendered_push(done: Seq<(Seq<char>, bool)>, p: (Seq<char>, bool))
    ensures
        rendered(done.push(p)) == rendered(done).push(render(p)),
{
    assert(rendered(done.push(p)) =~= rendered(done).push(render(p)));
}

/// Whether `word` fits after `buffer`; `space_width` is the width of a single space.
fn word_fits<F: Fn(&str) -> u32>(
    buffer: &String,
    word: &String,
    max_width: u32,
    space_width: u32,
    measure: &F,
) -> (r: bool)
    requires
        is_measure(*measure),
        space_width == width_fn(*measure)(seq![' ']),
    ensures
        r == fits(buffer@, word@, max_width as int, width_fn(*measure)),
{
    let mut candidate = buffer.clone();
    push_char(&mut candidate, ' ');
    candidate.append(word.as_str());
    let cw = measure_text(measure, candidate.as_str());
    if buffer.as_str().is_empty() {
        assert(candidate@ =~= seq![' '] + word@);
        assert(buffer@ =~= seq![]);
        (cw as u64) <= (max_width as u64) + (space_width as u64)
    } else {
        assert(candidate@ =~= buffer@ + seq![' '] + word@);
        cw <= max_width
    }
}

/// Breaks `word` into hyphenated lines after the current line (see `split_word`).
fn split_word_into<F: Fn(&str) -> u32>(
    done: &mut Vec<String>,
    buffer: &mut String,
    word: &String,
    max_width: u32,
    measure: &F,
    Ghost(st): Ghost<WrapState>,
)
    requires
        is_measure(*measure),
        string_views(old(done)@) == rendered(st.done),
        old(buffer)@ == st.buffer,
    ensures
        string_views(final(done)@) == rendered(
            split_word(st, word@, max_width as int, width_fn(*measure)).done,
        ),
        final(buffer)@ == split_word(st, word@, max_width as int, width_fn(*measure)).buffer,
{
    let ghost w = width_fn(*measure);
    let n = word.as_str().unicode_len();
    let mut i: usize = 0;
    let ghost mut cur = st;
    assert(word@.subrange(0, n as int) =~= word@);
    while i < n
        invariant
            is_measure(*measure),
            w == width_fn(*measure),
            n == word@.len(),
            i <= n,
            string_views(done@) == rendered(cur.done),
            buffer@ == cur.buffer,
            split_word(cur, word@.subrange(i as int, n as int), max_width as int, w)
                == split_word(st, word@, max_width as int, w),
        decreases n - i,
    {
        let c = word.as_str().get_char(i);
        let ghost rest = word@.subrange(i as int, n as int);
        assert(rest.drop_first() =~= word@.subrange(i + 1, n as int));
        let mut probe = buffer.clone();
        push_char(&mut probe, '-');
        let pw = measure_text(measure, probe.as_str());
        if pw <= max_width {
            push_char(buffer, c);
            proof {
                cur = WrapState { done: cur.done, buffer: cur.buffer.push(c) };
            }
        } else {
            proof {
                lemma_rendered_push(cur.done, (cur.buffer, true));
                assert(string_views(done@.push(probe)) =~= string_views(done@).push(probe@));
            }
            done.push(probe);
            *buffer = String::new();
            push_char(buffer, c);
            proof {
                assert(buffer@ =~= seq![c]);
                cur = WrapState { done: cur.done.push((cur.buffer, true)), buffer: seq![c] };
            }
        }
        i = i + 1;
    }
}

/// Breaks one logical line into physical lines no wider than `max_width` as
/// `measure` measures them: words are joined by single spaces while they fit, and
/// a word that does not fit on a line of its own is broken with hyphens.
pub fn wrap_line<F: Fn(&str) -> u32>(line: &str, max_width: u32, measure: &F) -> (r: Vec<String>)
    requires
        is_measure(*measure),
    ensures
        string_views(r@) == wrap_model(line@, max_width as int, width_fn(*measure)),
{
    let ghost w = width_fn(*measure);
    let ws = split_words(line);
    let mut space = String::new();
    push_char(&mut space, ' ');
    assert(space@ =~= seq![' ']);
    let space_width = measure_text(measure, space.as_str());
    let mut done: Vec<String> = Vec::new();
    let mut buffer = String::new();
    let ghost init = WrapState { done: seq![], buffer: seq![] };
    let ghost mut cur = init;
    let n = ws.len();
    let mut i: usize = 0;
    assert(string_views(ws@).subrange(0, n as int) =~= string_views(ws@));
    assert(string_views(done@) =~= rendered(cur.done));
    assert(buffer@ =~= cur.buffer);
    while i < n
        invariant
            is_measure(*measure),
            w == width_fn(*measure),
            space_width == w(seq![' ']),
            n == ws@.len(),
            i <= n,
            string_views(ws@) == words(line@),
            string_views(done@) == rendered(cur.done),
            buffer@ == cur.buffer,
            place_words(cur, string_views(ws@).subrange(i as int, n as int), max_width as int, w)
                == place_words(init, words(line@), max_width as int, w),
        decreases n - i,
    {
        let word = &ws[i];
        let ghost rest = string_views(ws@).subrange(i as int, n as int);
        assert(rest.drop_first() =~= string_views(ws@).subrange(i + 1, n as int));
        assert(rest[0] == word@);
        let ghost next = place_word(cur, word@, max_width as int, w);
        if buffer.as_str().is_empty() {
            assert(cur.buffer =~= seq![]);
            if word_fits(&buffer, word, max_width, space_width, measure) {
                buffer = word.clone();
            } else {
                split_word_into(&mut done, &mut buffer, word, max_width, measure, Ghost(cur));
            }
        } else if word_fits(&buffer, word, max_width, space_width, measure) {
            push_char(&mut buffer, ' ');
            buffer.append(word.as_str());
            assert(buffer@ =~= cur.buffer + seq![' '] + word@);
        } else {
            proof {
                lemma_rendered_push(cur.done, (cur.buffer, false));
            }
            let finished = buffer;
            done.push(finished);
            buffer = String::new();
            let ghost fresh = WrapState { done: cur.done.push((cur.buffer, false)), buffer: seq![] };
            assert(string_views(done@) =~= rendered(fresh.done));
            assert(buffer@ =~= fresh.buffer);
            if word_fits(&buffer, word, max_width, space_width, measure) {
                buffer = word.clone();
            } else {
                split_word_into(&mut done, &mut buffer, word, max_width, measure, Ghost(fresh));
            }
        }
        proof {
            cur = next;
        }
        i = i + 1;
    }
    proof {
        lemma_rendered_push(cur.done, (cur.buffer, false));
        assert(string_views(done@.push(buffer)) =~= string_views(done@).push(buffer@));
    }
    done.push(buffer);
    done
}

} // verus!
