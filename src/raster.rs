use vstd::prelude::*;

use crate::error::RenderError;

verus! {

/// An RGBA colour, one byte per channel.
#[derive(Clone, Copy, Debug, PartialEq, Eq, Structural)]
pub struct Color {
    pub r: u8,
    pub g: u8,
    pub b: u8,
    pub a: u8,
}

/// The colour stored at pixel `i` of a row-major RGBA byte buffer.
pub open spec fn rgba_at(data: Seq<u8>, i: int) -> Color {
    Color { r: data[4 * i], g: data[4 * i + 1], b: data[4 * i + 2], a: data[4 * i + 3] }
}

/// The colour stored at pixel `i` of a row-major RGB byte buffer, made opaque.
pub open spec fn rgb_at(data: Seq<u8>, i: int) -> Color {
    Color { r: data[3 * i], g: data[3 * i + 1], b: data[3 * i + 2], a: 255 }
}

/// What `image`'s blending makes of a bottom pixel under a partly
/// transparent top pixel.
pub uninterp spec fn blend_of(bottom: (u8, u8, u8, u8), top: (u8, u8, u8, u8)) -> (u8, u8, u8, u8);

pub open spec fn tuple_of(c: Color) -> (u8, u8, u8, u8) {
    (c.r, c.g, c.b, c.a)
}

pub open spec fn color_of(t: (u8, u8, u8, u8)) -> Color {
    Color { r: t.0, g: t.1, b: t.2, a: t.3 }
}

/// Source-over compositing of `top` onto `bottom`: a fully transparent top
/// pixel leaves the bottom one, an opaque one replaces it.
pub open spec fn composite(bottom: Color, top: Color) -> Color {
    if top.a == 0 {
        bottom
    } else if top.a == 255 {
        top
    } else {
        color_of(blend_of(tuple_of(bottom), tuple_of(top)))
    }
}

/// Relies on `image::imageops::overlay`: each pixel of `top` that falls inside
/// `bottom` is blended onto it with `Rgba::blend`, which keeps the bottom pixel
/// under a transparent one and copies an opaque one; the rest of `bottom` is
/// left as it was.
#[verifier::external_body]
fn overlay_buffers(bottom: Vec<u8>, bw: u32, bh: u32, top: &Vec<u8>, tw: u32, th: u32, x: u32, y: u32) -> (r: Vec<u8>)
    requires
        bottom@.len() == bw * bh * 4,
        top@.len() == tw * th * 4,
    ensures
        r@.len() == bottom@.len(),
        forall|px: int, py: int|
            0 <= px < bw && 0 <= py < bh && !(x <= px < x + tw && y <= py < y + th) ==> #[trigger] rgba_at(
                r@,
                py * bw + px,
            ) == rgba_at(bottom@, py * bw + px),
        forall|px: int, py: int|
            0 <= px < bw && 0 <= py < bh && x <= px < x + tw && y <= py < y + th && rgba_at(
                top@,
                (py - y) * tw + (px - x),
            ).a == 0 ==> #[trigger] rgba_at(r@, py * bw + px) == rgba_at(bottom@, py * bw + px),
        forall|px: int, py: int|
            0 <= px < bw && 0 <= py < bh && x <= px < x + tw && y <= py < y + th && rgba_at(
                top@,
                (py - y) * tw + (px - x),
            ).a == 255 ==> #[trigger] rgba_at(r@, py * bw + px) == rgba_at(top@, (py - y) * tw + (px - x)),
        forall|px: int, py: int|
            0 <= px < bw && 0 <= py < bh && x <= px < x + tw && y <= py < y + th && 0 < rgba_at(
                top@,
                (py - y) * tw + (px - x),
            ).a < 255 ==> #[trigger] rgba_at(r@, py * bw + px) == color_of(
                blend_of(
                    tuple_of(rgba_at(bottom@, py * bw + px)),
                    tuple_of(rgba_at(top@, (py - y) * tw + (px - x))),
                ),
            ),
{
    let mut under = image::RgbaImage::from_raw(bw, bh, bottom).unwrap();
    let over = image::ImageBuffer::<image::Rgba<u8>, &[u8]>::from_raw(tw, th, top.as_slice()).unwrap();
    image::imageops::overlay(&mut under, &over, i64::from(x), i64::from(y));
    under.into_raw()
}

/// A fixed-size grid of RGBA pixels, stored row by row.
pub struct Raster {
    width: u32,
    height: u32,
    data: Vec<u8>,
}

impl Raster {
    pub closed spec fn spec_width(&self) -> u32 {
        self.width
    }

    pub closed spec fn spec_height(&self) -> u32 {
        self.height
    }

    /// The buffer holds four bytes for each pixel.
    pub closed spec fn wf(&self) -> bool {
        &&& self.data@.len() == self.width * self.height * 4
        &&& self.width * self.height * 4 <= usize::MAX
    }

    /// The pixels, row by row.
    pub closed spec fn pixels(&self) -> Seq<Color> {
        Seq::new((self.width * self.height) as nat, |i: int| rgba_at(self.data@, i))
    }

    /// The pixel in column `x` of row `y`.
    pub open spec fn pixel_at(&self, x: int, y: int) -> Color {
        self.pixels()[y * self.spec_width() + x]
    }

    pub open spec fn same_size(&self, other: &Raster) -> bool {
        self.spec_width() == other.spec_width() && self.spec_height() == other.spec_height()
    }

    /// Rasters of one size that agree at every position hold the same pixels.
    pub proof fn lemma_same_pixels(&self, other: &Raster)
        requires
            self.same_size(other),
            forall|px: int, py: int|
                0 <= px < self.spec_width() && 0 <= py < self.spec_height() ==> #[trigger] self.pixel_at(
                    px,
                    py,
                ) == other.pixel_at(px, py),
        ensures
            self.pixels() == other.pixels(),
    {
        let w = self.width as int;
        let h = self.height as int;
        assert forall|i: int| 0 <= i < self.pixels().len() implies self.pixels()[i]
            == other.pixels()[i] by {
            let px = i % w;
            let py = i / w;
            assert(w > 0) by (nonlinear_arith)
                requires
                    0 <= i < w * h,
                    w >= 0,
                    h >= 0,
            ;
            vstd::arithmetic::div_mod::lemma_fundamental_div_mod(i, w);
            assert(py * w + px == i) by (nonlinear_arith)
                requires
                    i == w * (i / w) + i % w,
                    px == i % w,
                    py == i / w,
            ;
            assert(py < h) by (nonlinear_arith)
                requires
                    py * w + px == i,
                    i < w * h,
                    0 <= px,
                    w > 0,
            ;
            vstd::arithmetic::div_mod::lemma_mod_bound(i, w);
            vstd::arithmetic::div_mod::lemma_div_pos_is_pos(i, w);
            assert(self.pixel_at(px, py) == other.pixel_at(px, py));
        }
        assert(self.pixels() =~= other.pixels());
    }

    pub proof fn lemma_pixel_count(&self)
        ensures
            self.pixels().len() == self.spec_width() * self.spec_height(),
            self.wf() ==> self.spec_width() * self.spec_height() * 4 <= usize::MAX,
    {
    }

    pub fn width(&self) -> (r: u32)
        ensures
            r == self.spec_width(),
    {
        self.width
    }

    pub fn height(&self) -> (r: u32)
        ensures
            r == self.spec_height(),
    {
        self.height
    }

    /// A raster over an RGBA buffer; fails with `InvalidInput` unless the
    /// buffer holds exactly four bytes per pixel.
    pub fn from_rgba(width: u32, height: u32, data: Vec<u8>) -> (r: Result<Raster, RenderError>)
        ensures
            (data@.len() == width * height * 4) <==> r is Ok,
            !(r is Ok) ==> r == Err::<Raster, RenderError>(RenderError::InvalidInput),
            r matches Ok(raster) ==> {
                &&& raster.wf()
                &&& raster.spec_width() == width
                &&& raster.spec_height() == height
                &&& forall|i: int|
                    0 <= i < width * height ==> #[trigger] raster.pixels()[i] == rgba_at(data@, i)
            },
    {
        assert((width as int) * (height as int) <= 0xffff_ffff * 0xffff_ffff) by (nonlinear_arith);
        let needed: u128 = (width as u128) * (height as u128) * 4;
        if data.len() as u128 != needed {
            return Err(RenderError::InvalidInput);
        }
        Ok(Raster { width, height, data })
    }

    /// A raster over an RGB buffer, each pixel made opaque; fails with
    /// `InvalidInput` unless the buffer holds exactly three bytes per pixel.
    pub fn from_rgb(width: u32, height: u32, data: &Vec<u8>) -> (r: Result<Raster, RenderError>)
        requires
            width * height * 4 <= usize::MAX,
        ensures
            (data@.len() == width * height * 3) <==> r is Ok,
            !(r is Ok) ==> r == Err::<Raster, RenderError>(RenderError::InvalidInput),
            r matches Ok(raster) ==> {
                &&& raster.wf()
                &&& raster.spec_width() == width
                &&& raster.spec_height() == height
                &&& forall|i: int|
                    0 <= i < width * height ==> #[trigger] raster.pixels()[i] == rgb_at(data@, i)
            },
    {
        let n: usize = (width as usize) * (height as usize);
        if data.len() as u128 != (n as u128) * 3 {
            return Err(RenderError::InvalidInput);
        }
        let mut out: Vec<u8> = Vec::with_capacity(n * 4);
        let mut i: usize = 0;
        while i < n
            invariant
                n == width * height,
                n * 4 <= usize::MAX,
                data@.len() == n * 3,
                i <= n,
                out@.len() == 4 * i,
                forall|j: int| 0 <= j < i ==> #[trigger] rgba_at(out@, j) == rgb_at(data@, j),
            decreases n - i,
        {
            let ghost prev = out@;
            let k = 3 * i;
            out.push(data[k]);
            out.push(data[k + 1]);
            out.push(data[k + 2]);
            out.push(255);
            i = i + 1;
            assert forall|j: int| 0 <= j < i implies #[trigger] rgba_at(out@, j) == rgb_at(data@, j) by {
                if j < i - 1 {
                    assert(rgba_at(out@, j) == rgba_at(prev, j));
                }
            }
        }
        Ok(Raster { width, height, data: out })
    }

    /// A raster of the given size with every pixel set to `color`.
    pub fn filled(width: u32, height: u32, color: Color) -> (r: Raster)
        requires
            width * height * 4 <= usize::MAX,
        ensures
            r.wf(),
            r.spec_width() == width,
            r.spec_height() == height,
            forall|i: int| 0 <= i < width * height ==> #[trigger] r.pixels()[i] == color,
    {
        let n: usize = (width as usize) * (height as usize);
        let mut out: Vec<u8> = Vec::with_capacity(n * 4);
        let mut i: usize = 0;
        while i < n
            invariant
                n == width * height,
                n * 4 <= usize::MAX,
                i <= n,
                out@.len() == 4 * i,
                forall|j: int| 0 <= j < i ==> #[trigger] rgba_at(out@, j) == color,
            decreases n - i,
        {
            let ghost prev = out@;
            out.push(color.r);
            out.push(color.g);
            out.push(color.b);
            out.push(color.a);
            i = i + 1;
            assert forall|j: int| 0 <= j < i implies #[trigger] rgba_at(out@, j) == color by {
                if j < i - 1 {
                    assert(rgba_at(out@, j) == rgba_at(prev, j));
                }
            }
        }
        Raster { width, height, data: out }
    }

    /// A fully transparent raster of the given size.
    pub fn transparent(width: u32, height: u32) -> (r: Raster)
        requires
            width * height * 4 <= usize::MAX,
        ensures
            r.wf(),
            r.spec_width() == width,
            r.spec_height() == height,
            forall|i: int|
                0 <= i < width * height ==> #[trigger] r.pixels()[i] == (Color { r: 0, g: 0, b: 0, a: 0 }),
    {
        Raster::filled(width, height, Color { r: 0, g: 0, b: 0, a: 0 })
    }

    /// A copy of this raster.
    pub fn copy(&self) -> (r: Raster)
        ensures
            r.wf() == self.wf(),
            r.same_size(self),
            r.pixels() == self.pixels(),
    {
        let data = self.data.clone();
        proof {
            assert(data@ =~= self.data@);
        }
        Raster { width: self.width, height: self.height, data }
    }

    /// The colour of pixel `i`, counted row by row.
    pub fn pixel(&self, i: usize) -> (c: Color)
        requires
            self.wf(),
            i < self.spec_width() * self.spec_height(),
        ensures
            c == self.pixels()[i as int],
    {
        assert(4 * i + 3 < self.data@.len() <= usize::MAX) by (nonlinear_arith)
            requires
                self.data@.len() == self.width * self.height * 4,
                self.width * self.height * 4 <= usize::MAX,
                i < self.width * self.height,
        ;
        let k = 4 * i;
        Color { r: self.data[k], g: self.data[k + 1], b: self.data[k + 2], a: self.data[k + 3] }
    }

    /// The RGBA bytes, row by row.
    pub fn as_bytes(&self) -> (r: &Vec<u8>)
        requires
            self.wf(),
        ensures
            r@.len() == self.spec_width() * self.spec_height() * 4,
            forall|i: int|
                0 <= i < self.spec_width() * self.spec_height() ==> #[trigger] rgba_at(r@, i) == self.pixels()[i],
    {
        &self.data
    }

    /// Lays `top` over this raster with its top-left corner at (`x`, `y`),
    /// alpha-compositing each covered pixel; the part of `top` that falls
    /// outside is dropped, and the size does not change.
    pub fn overlay(&mut self, top: &Raster, x: u32, y: u32)
        requires
            old(self).wf(),
            top.wf(),
        ensures
            final(self).wf(),
            final(self).same_size(old(self)),
            forall|px: int, py: int|
                0 <= px < old(self).spec_width() && 0 <= py < old(self).spec_height()
                    ==> #[trigger] final(self).pixel_at(px, py) == if x <= px < x + top.spec_width()
                    && y <= py < y + top.spec_height() {
                    composite(old(self).pixel_at(px, py), top.pixel_at(px - x, py - y))
                } else {
                    old(self).pixel_at(px, py)
                },
    {
        let mut bottom: Vec<u8> = Vec::new();
        std::mem::swap(&mut bottom, &mut self.data);
        let data = overlay_buffers(bottom, self.width, self.height, &top.data, top.width, top.height, x, y);
        self.data = data;
        assert forall|px: int, py: int|
            0 <= px < old(self).spec_width() && 0 <= py < old(self).spec_height()
                implies #[trigger] self.pixel_at(px, py) == if x <= px < x + top.spec_width()
                && y <= py < y + top.spec_height() {
                composite(old(self).pixel_at(px, py), top.pixel_at(px - x, py - y))
            } else {
                old(self).pixel_at(px, py)
            } by {
            lemma_index_in_grid(px, py, self.width as int, self.height as int);
            if x <= px < x + top.spec_width() && y <= py < y + top.spec_height() {
                lemma_index_in_grid(px - x, py - y, top.width as int, top.height as int);
            }
        }
    }
}

/// A cell of a `w` x `h` grid has a row-major index below `w * h`.
pub proof fn lemma_index_in_grid(x: int, y: int, w: int, h: int)
    requires
        0 <= x < w,
        0 <= y < h,
    ensures
        0 <= y * w + x < w * h,
{
    assert(y * w + x < w * h) by (nonlinear_arith)
        requires
            0 <= x < w,
            0 <= y < h,
    ;
    assert(0 <= y * w) by (nonlinear_arith)
        requires
            0 <= x < w,
            0 <= y < h,
    ;
}

} // verus!
