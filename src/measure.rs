use vstd::prelude::*;

use crate::raster::{Color, Raster};

verus! {

/// `f` measures text: it accepts every text and scale, and gives equal
/// results for equal text at equal scale. A font's `measure(text, scale)`
/// returns the (width, height) in pixels of `text` drawn at `scale`.
pub open spec fn is_metric<F: Fn(&str, u32) -> (u32, u32)>(f: F) -> bool {
    &&& forall|t: &str, s: u32| #[trigger] f.requires((t, s))
    &&& forall|t1: &str, t2: &str, s: u32, r1: (u32, u32), r2: (u32, u32)|
        t1@ == t2@ && #[trigger] f.ensures((t1, s), r1) && #[trigger] f.ensures((t2, s), r2) ==> r1
            == r2
}

/// `f` may give `r` for text `t` at scale `s`.
pub open spec fn measured<F: Fn(&str, u32) -> (u32, u32)>(
    f: F,
    t: Seq<char>,
    s: u32,
    r: (u32, u32),
) -> bool {
    exists|x: &str| x@ == t && #[trigger] f.ensures((x, s), r)
}

/// What `f` gives for text `t` at scale `s`.
pub open spec fn size_of<F: Fn(&str, u32) -> (u32, u32)>(f: F, t: Seq<char>, s: u32) -> (u32, u32) {
    choose|r: (u32, u32)| #[trigger] measured(f, t, s, r)
}

/// The width of text at scale `s`, as a function of the text.
pub open spec fn width_fn<F: Fn(&str, u32) -> (u32, u32)>(f: F, s: u32) -> spec_fn(Seq<char>) -> int {
    |t: Seq<char>| size_of(f, t, s).0 as int
}

/// Once `f` has given `r` for `x`, `r` is what it gives for `x`'s text.
pub proof fn lemma_size_of<F: Fn(&str, u32) -> (u32, u32)>(f: F, x: &str, s: u32, r: (u32, u32))
    requires
        is_metric(f),
        f.ensures((x, s), r),
    ensures
        size_of(f, x@, s) == r,
        width_fn(f, s)(x@) == r.0,
{
    assert(measured(f, x@, s, r));
    let r2 = choose|r2: (u32, u32)| #[trigger] measured(f, x@, s, r2);
    let x2 = choose|x2: &str| x2@ == x@ && #[trigger] f.ensures((x2, s), r2);
}

/// `d` draws text: `d(onto, text, scale, x, y, color)` accepts every
/// argument and returns a well-formed raster the size of `onto`, with `text`
/// drawn at `scale` from the top-left corner (`x`, `y`) in `color`; equal
/// pixels and text give equal pixels.
pub open spec fn is_painter<D: Fn(&Raster, &str, u32, u32, u32, Color) -> Raster>(d: D) -> bool {
    &&& forall|onto: &Raster, t: &str, s: u32, x: u32, y: u32, c: Color|
        #[trigger] d.requires((onto, t, s, x, y, c))
    &&& forall|onto: &Raster, t: &str, s: u32, x: u32, y: u32, c: Color, out: Raster|
        #[trigger] d.ensures((onto, t, s, x, y, c), out) && onto.wf() ==> out.wf() && out.same_size(
            onto,
        )
    &&& forall|
        a: &Raster,
        b: &Raster,
        ta: &str,
        tb: &str,
        s: u32,
        x: u32,
        y: u32,
        c: Color,
        out_a: Raster,
        out_b: Raster,
    |
        #[trigger] d.ensures((a, ta, s, x, y, c), out_a) && #[trigger] d.ensures(
            (b, tb, s, x, y, c),
            out_b,
        ) && a.wf() && b.wf() && a.same_size(b) && a.pixels() == b.pixels() && ta@ == tb@
            ==> out_a.pixels() == out_b.pixels()
}

} // verus!
