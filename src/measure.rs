use vstd::prelude::*;

verus! {

/// A measuring function: it accepts every text, and texts with the same characters
/// get the same width.
pub open spec fn is_measure<F: Fn(&str) -> u32>(f: F) -> bool {
    &&& forall|a: &str| #[trigger] f.requires((a,))
    &&& forall|a: &str, b: &str, r1: u32, r2: u32|
        a@ == b@ && #[trigger] f.ensures((a,), r1) && #[trigger] f.ensures((b,), r2) ==> r1 == r2
}

/// The width that the measuring function `f` gives the text `s`.
pub open spec fn width_of<F: Fn(&str) -> u32>(f: F, s: Seq<char>) -> int {
    (choose|p: (&str, u32)| p.0@ == s && #[trigger] f.ensures((p.0,), p.1)).1 as int
}

/// `width_of` for a fixed measuring function, as a function of the text alone.
pub open spec fn width_fn<F: Fn(&str) -> u32>(f: F) -> spec_fn(Seq<char>) -> int {
    |s: Seq<char>| width_of(f, s)
}

/// Measures `s` with `measure`.
pub fn measure_text<F: Fn(&str) -> u32>(measure: &F, s: &str) -> (r: u32)
    requires
        is_measure(*measure),
    ensures
        r == width_of(*measure, s@),
        r == width_fn(*measure)(s@),
{
    let r = measure(s);
    assert(exists|p: (&str, u32)| p.0@ == s@ && #[trigger] measure.ensures((p.0,), p.1)) by {
        assert(measure.ensures(((s, r).0,), (s, r).1));
    }
    r
}

} // verus!
