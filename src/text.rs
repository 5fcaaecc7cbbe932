use vstd::prelude::*;

verus! {

/// The Unicode `White_Space` property, which `char::is_whitespace` tests.
pub open spec fn is_white_space(c: char) -> bool {
    let u = c as u32;
    (0x9 <= u && u <= 0xd) || u == 0x20 || u == 0x85 || u == 0xa0 || u == 0x1680
        || (0x2000 <= u && u <= 0x200a) || u == 0x2028 || u == 0x2029 || u == 0x202f
        || u == 0x205f || u == 0x3000
}

pub fn is_white_space_char(c: char) -> (r: bool)
    ensures
        r == is_white_space(c),
{
    let u = c as u32;
    (0x9 <= u && u <= 0xd) || u == 0x20 || u == 0x85 || u == 0xa0 || u == 0x1680
        || (0x2000 <= u && u <= 0x200a) || u == 0x2028 || u == 0x2029 || u == 0x202f
        || u == 0x205f || u == 0x3000
}

/// `s` without its leading white space.
pub open spec fn trim_start(s: Seq<char>) -> Seq<char>
    decreases s.len(),
{
    if s.len() > 0 && is_white_space(s[0]) {
        trim_start(s.drop_first())
    } else {
        s
    }
}

/// `s` without its trailing white space.
pub open spec fn trim_end(s: Seq<char>) -> Seq<char>
    decreases s.len(),
{
    if s.len() > 0 && is_white_space(s.last()) {
        trim_end(s.drop_last())
    } else {
        s
    }
}

pub open spec fn trim(s: Seq<char>) -> Seq<char> {
    trim_end(trim_start(s))
}

/// The lines of `rest`, each trimmed, where `cur` already holds the start of the first.
/// A line ends at `'\n'`; text after the last `'\n'` is a line only if it is not empty.
pub open spec fn lines_from(rest: Seq<char>, cur: Seq<char>) -> Seq<Seq<char>>
    decreases rest.len(),
{
    if rest.len() == 0 {
        if cur.len() == 0 {
            seq![]
        } else {
            seq![trim(cur)]
        }
    } else if rest[0] == '\n' {
        seq![trim(cur)] + lines_from(rest.drop_first(), seq![])
    } else {
        lines_from(rest.drop_first(), cur.push(rest[0]))
    }
}

/// The trimmed lines of a text, in order; blank lines are kept as empty lines.
pub open spec fn logical_lines(s: Seq<char>) -> Seq<Seq<char>> {
    lines_from(s, seq![])
}

/// The words of `rest` (maximal runs without white space), where `cur` already
/// holds the start of the first.
pub open spec fn words_from(rest: Seq<char>, cur: Seq<char>) -> Seq<Seq<char>>
    decreases rest.len(),
{
    if rest.len() == 0 {
        if cur.len() == 0 {
            seq![]
        } else {
            seq![cur]
        }
    } else if is_white_space(rest[0]) {
        if cur.len() == 0 {
            words_from(rest.drop_first(), cur)
        } else {
            seq![cur] + words_from(rest.drop_first(), seq![])
        }
    } else {
        words_from(rest.drop_first(), cur.push(rest[0]))
    }
}

/// The white-space separated words of a line, in order.
pub open spec fn words(s: Seq<char>) -> Seq<Seq<char>> {
    words_from(s, seq![])
}

pub open spec fn string_views(v: Seq<String>) -> Seq<Seq<char>> {
    v.map_values(|x: String| x@)
}

/// Relies on `String::push`: appends one character.
#[verifier::external_body]
pub(crate) fn push_char(s: &mut String, c: char)
    ensures
        final(s)@ == old(s)@.push(c),
{
    s.push(c);
}

/// Appends the characters of `s` from `from` up to `to`.
fn push_range(dst: &mut String, s: &str, from: usize, to: usize)
    requires
        from <= to <= s@.len(),
    ensures
        final(dst)@ == old(dst)@ + s@.subrange(from as int, to as int),
{
    let mut i = from;
    while i < to
        invariant
            from <= i <= to <= s@.len(),
            dst@ == old(dst)@ + s@.subrange(from as int, i as int),
        decreases to - i,
    {
        let c = s.get_char(i);
        push_char(dst, c);
        assert(s@.subrange(from as int, i + 1) =~= s@.subrange(from as int, i as int).push(c));
        i = i + 1;
    }
}

/// `s` with leading and trailing white space removed.
pub fn trim_text(s: &str) -> (r: String)
    ensures
        r@ == trim(s@),
{
    let n = s.unicode_len();
    let mut i: usize = 0;
    assert(s@.subrange(0, n as int) =~= s@);
    while i < n && is_white_space_char(s.get_char(i))
        invariant
            n == s@.len(),
            i <= n,
            trim_start(s@.subrange(i as int, n as int)) == trim_start(s@),
        decreases n - i,
    {
        assert(s@.subrange(i as int, n as int).drop_first() =~= s@.subrange(i + 1, n as int));
        i = i + 1;
    }
    assert(trim_start(s@) == s@.subrange(i as int, n as int));
    let mut j: usize = n;
    while j > i && is_white_space_char(s.get_char(j - 1))
        invariant
            n == s@.len(),
            i <= j <= n,
            trim_end(s@.subrange(i as int, j as int)) == trim(s@),
        decreases j,
    {
        assert(s@.subrange(i as int, j as int).drop_last() =~= s@.subrange(i as int, j - 1));
        j = j - 1;
    }
    let mut r = String::new();
    push_range(&mut r, s, i, j);
    assert(r@ =~= s@.subrange(i as int, j as int));
    r
}

/// Splits a text into its lines at `'\n'` and trims each; blank lines stay as empty strings.
pub fn split_lines(text: &str) -> (r: Vec<String>)
    ensures
        string_views(r@) == logical_lines(text@),
{
    let n = text.unicode_len();
    let mut out: Vec<String> = Vec::new();
    let mut cur = String::new();
    let mut i: usize = 0;
    assert(text@.subrange(0, n as int) =~= text@);
    assert(string_views(out@) =~= seq![]);
    assert(cur@ =~= seq![]);
    while i < n
        invariant
            n == text@.len(),
            i <= n,
            string_views(out@) + lines_from(text@.subrange(i as int, n as int), cur@)
                == logical_lines(text@),
        decreases n - i,
    {
        let c = text.get_char(i);
        let ghost rest = text@.subrange(i as int, n as int);
        assert(rest.drop_first() =~= text@.subrange(i + 1, n as int));
        if c == '\n' {
            let line = trim_text(cur.as_str());
            proof {
                assert(string_views(out@.push(line)) =~= string_views(out@).push(line@));
                assert(string_views(out@).push(line@) + lines_from(rest.drop_first(), seq![])
                    =~= string_views(out@) + (seq![trim(cur@)] + lines_from(rest.drop_first(), seq![])));
            }
            out.push(line);
            cur = String::new();
        } else {
            push_char(&mut cur, c);
        }
        i = i + 1;
    }
    if !cur.as_str().is_empty() {
        let line = trim_text(cur.as_str());
        proof {
            assert(string_views(out@.push(line)) =~= string_views(out@) + seq![line@]);
        }
        out.push(line);
    } else {
        assert(string_views(out@) + seq![] =~= string_views(out@));
    }
    out
}

/// Splits a line into its white-space separated words.
pub fn split_words(line: &str) -> (r: Vec<String>)
    ensures
        string_views(r@) == words(line@),
        forall|k: int| 0 <= k < r@.len() ==> #[trigger] r@[k]@.len() > 0,
{
    let n = line.unicode_len();
    let mut out: Vec<String> = Vec::new();
    let mut cur = String::new();
    let mut i: usize = 0;
    assert(line@.subrange(0, n as int) =~= line@);
    assert(string_views(out@) =~= seq![]);
    assert(cur@ =~= seq![]);
    while i < n
        invariant
            n == line@.len(),
            i <= n,
            string_views(out@) + words_from(line@.subrange(i as int, n as int), cur@)
                == words(line@),
            forall|k: int| 0 <= k < out@.len() ==> #[trigger] out@[k]@.len() > 0,
        decreases n - i,
    {
        let c = line.get_char(i);
        let ghost rest = line@.subrange(i as int, n as int);
        assert(rest.drop_first() =~= line@.subrange(i + 1, n as int));
        if is_white_space_char(c) {
            if !cur.as_str().is_empty() {
                proof {
                    assert(string_views(out@.push(cur)) =~= string_views(out@).push(cur@));
                    assert(string_views(out@).push(cur@) + words_from(rest.drop_first(), seq![])
                        =~= string_views(out@) + (seq![cur@] + words_from(rest.drop_first(), seq![])));
                }
                out.push(cur);
                cur = String::new();
            }
        } else {
            push_char(&mut cur, c);
        }
        i = i + 1;
    }
    if !cur.as_str().is_empty() {
        proof {
            assert(string_views(out@.push(cur)) =~= string_views(out@) + seq![cur@]);
        }
        out.push(cur);
    } else {
        assert(string_views(out@) + seq![] =~= string_views(out@));
    }
    out
}

} // verus!
