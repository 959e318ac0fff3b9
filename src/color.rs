use vstd::prelude::*;

use crate::error::RenderError;
use crate::raster::{Color, Raster};

verus! {

/// Channel `k` of a colour: 0 red, 1 green, 2 blue, 3 alpha.
pub open spec fn channel(c: Color, k: int) -> nat {
    if k == 0 {
        c.r as nat
    } else if k == 1 {
        c.g as nat
    } else if k == 2 {
        c.b as nat
    } else {
        c.a as nat
    }
}

/// The sum of channel `k` over a sequence of colours.
pub open spec fn channel_sum(s: Seq<Color>, k: int) -> nat
    decreases s.len(),
{
    if s.len() == 0 {
        0
    } else {
        channel_sum(s.drop_last(), k) + channel(s.last(), k)
    }
}

/// The per-channel mean of a non-empty sequence of colours, rounded down.
pub open spec fn mean_color(s: Seq<Color>) -> Color {
    Color {
        r: (channel_sum(s, 0) / s.len()) as u8,
        g: (channel_sum(s, 1) / s.len()) as u8,
        b: (channel_sum(s, 2) / s.len()) as u8,
        a: (channel_sum(s, 3) / s.len()) as u8,
    }
}

pub proof fn lemma_channel_sum_bound(s: Seq<Color>, k: int)
    ensures
        channel_sum(s, k) <= 255 * s.len(),
    decreases s.len(),
{
    if s.len() > 0 {
        lemma_channel_sum_bound(s.drop_last(), k);
    }
}

/// Taking one element out of a sequence takes its channel out of the sum.
pub proof fn lemma_channel_sum_remove(s: Seq<Color>, i: int, k: int)
    requires
        0 <= i < s.len(),
    ensures
        channel_sum(s, k) == channel_sum(s.remove(i), k) + channel(s[i], k),
    decreases s.len(),
{
    if i < s.len() - 1 {
        lemma_channel_sum_remove(s.drop_last(), i, k);
        assert(s.remove(i).drop_last() =~= s.drop_last().remove(i));
        assert(s.remove(i).last() == s.last());
    } else {
        assert(s.remove(i) =~= s.drop_last());
    }
}

/// Channel sums depend only on the multiset of colours, not on their order.
pub proof fn lemma_channel_sum_permutation(s1: Seq<Color>, s2: Seq<Color>, k: int)
    requires
        s1.to_multiset() == s2.to_multiset(),
    ensures
        channel_sum(s1, k) == channel_sum(s2, k),
    decreases s1.len(),
{
    broadcast use vstd::seq_lib::group_to_multiset_ensures;

    if s1.len() == 0 {
        assert(s2.to_multiset().len() == 0);
        assert(s2.len() == 0);
    } else {
        let x = s1.last();
        assert(s1.drop_last().push(x) =~= s1);
        assert(s1.to_multiset().count(x) > 0);
        assert(s2.to_multiset().count(x) > 0);
        assert(s2.contains(x));
        let j = choose|j: int| 0 <= j < s2.len() && s2[j] == x;
        assert(s2.remove(j).to_multiset() == s2.to_multiset().remove(x));
        assert(s1.drop_last().to_multiset() =~= s1.to_multiset().remove(x));
        lemma_channel_sum_permutation(s1.drop_last(), s2.remove(j), k);
        lemma_channel_sum_remove(s2, j, k);
    }
}

/// Every channel of a uniform sequence sums to its length times the channel.
pub proof fn lemma_channel_sum_uniform(s: Seq<Color>, c: Color, k: int)
    requires
        forall|i: int| 0 <= i < s.len() ==> s[i] == c,
    ensures
        channel_sum(s, k) == s.len() * channel(c, k),
    decreases s.len(),
{
    if s.len() > 0 {
        lemma_channel_sum_uniform(s.drop_last(), c, k);
        assert(s.len() * channel(c, k) == (s.len() - 1) * channel(c, k) + channel(c, k)) by (nonlinear_arith);
    }
}

/// The average colour of a raster does not depend on the order of its pixels:
/// two rasters that hold the same pixels, each as often, average alike.
pub proof fn lemma_average_permutation(a: &Raster, b: &Raster)
    requires
        a.pixels().to_multiset() == b.pixels().to_multiset(),
    ensures
        mean_color(a.pixels()) == mean_color(b.pixels()),
{
    broadcast use vstd::seq_lib::group_to_multiset_ensures;

    assert(a.pixels().len() == a.pixels().to_multiset().len());
    assert(b.pixels().len() == b.pixels().to_multiset().len());
    lemma_channel_sum_permutation(a.pixels(), b.pixels(), 0);
    lemma_channel_sum_permutation(a.pixels(), b.pixels(), 1);
    lemma_channel_sum_permutation(a.pixels(), b.pixels(), 2);
    lemma_channel_sum_permutation(a.pixels(), b.pixels(), 3);
}

/// A raster filled with one colour averages to exactly that colour.
pub proof fn lemma_average_uniform(r: &Raster, c: Color)
    requires
        r.pixels().len() > 0,
        forall|i: int| 0 <= i < r.pixels().len() ==> r.pixels()[i] == c,
    ensures
        mean_color(r.pixels()) == c,
{
    let s = r.pixels();
    let n = s.len();
    lemma_channel_sum_uniform(s, c, 0);
    lemma_channel_sum_uniform(s, c, 1);
    lemma_channel_sum_uniform(s, c, 2);
    lemma_channel_sum_uniform(s, c, 3);
    assert forall|v: nat| v < 256 implies #[trigger] ((n * v) / n) == v by {
        vstd::arithmetic::div_mod::lemma_div_multiples_vanish(v as int, n as int);
        assert(n * v == v * n) by (nonlinear_arith);
    }
    assert(channel_sum(s, 0) / n == c.r as nat);
    assert(channel_sum(s, 1) / n == c.g as nat);
    assert(channel_sum(s, 2) / n == c.b as nat);
    assert(channel_sum(s, 3) / n == c.a as nat);
}

/// The mean of `sum` over `n` items of at most 255 fits a byte.
proof fn lemma_mean_fits(sum: nat, n: nat)
    requires
        n > 0,
        sum <= 255 * n,
    ensures
        sum / n <= 255,
{
    vstd::arithmetic::div_mod::lemma_div_is_ordered(sum as int, 255 * n as int, n as int);
    vstd::arithmetic::div_mod::lemma_div_multiples_vanish(255, n as int);
    assert(255 * n == n * 255) by (nonlinear_arith);
}

/// The average colour of a raster: each channel summed over all pixels and
/// divided by the pixel count, rounded down. Fails with `InvalidInput` on a
/// raster without pixels.
pub fn average_color(raster: &Raster) -> (r: Result<Color, RenderError>)
    requires
        raster.wf(),
    ensures
        raster.pixels().len() == 0 ==> r == Err::<Color, RenderError>(RenderError::InvalidInput),
        raster.pixels().len() > 0 ==> r == Ok::<Color, RenderError>(mean_color(raster.pixels())),
{
    proof {
        raster.lemma_pixel_count();
    }
    let n: usize = (raster.width() as usize) * (raster.height() as usize);
    if n == 0 {
        return Err(RenderError::InvalidInput);
    }
    let ghost s = raster.pixels();
    let mut sums: [u128; 4] = [0, 0, 0, 0];
    let mut i: usize = 0;
    while i < n
        invariant
            n == s.len(),
            s == raster.pixels(),
            raster.wf(),
            n == raster.spec_width() * raster.spec_height(),
            i <= n,
            forall|k: int| 0 <= k < 4 ==> sums[k] == channel_sum(#[trigger] s.take(i as int), k),
            forall|k: int| 0 <= k < 4 ==> sums[k] <= 255 * i,
        decreases n - i,
    {
        let c = raster.pixel(i);
        proof {
            assert(s.take(i + 1).drop_last() =~= s.take(i as int));
        }
        sums[0] = sums[0] + c.r as u128;
        sums[1] = sums[1] + c.g as u128;
        sums[2] = sums[2] + c.b as u128;
        sums[3] = sums[3] + c.a as u128;
        i = i + 1;
    }
    proof {
        assert(s.take(n as int) =~= s);
        lemma_channel_sum_bound(s, 0);
        lemma_channel_sum_bound(s, 1);
        lemma_channel_sum_bound(s, 2);
        lemma_channel_sum_bound(s, 3);
        lemma_mean_fits(channel_sum(s, 0), n as nat);
        lemma_mean_fits(channel_sum(s, 1), n as nat);
        lemma_mean_fits(channel_sum(s, 2), n as nat);
        lemma_mean_fits(channel_sum(s, 3), n as nat);
    }
    let count = n as u128;
    Ok(
        Color {
            r: (sums[0] / count) as u8,
            g: (sums[1] / count) as u8,
            b: (sums[2] / count) as u8,
            a: (sums[3] / count) as u8,
        },
    )
}

} // verus!
