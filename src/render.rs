use vstd::prelude::*;

use crate::color::{average_color, mean_color};
use crate::date::Date;
use crate::error::RenderError;
use crate::fit::{
    lemma_draws_block_unique, same_layout, lemma_fits_lines_size, lemma_fits_single_line_size, draw_block, draws_block, fit_lines, fit_single_line, fits_lines, fits_single_line, min_line_height,
    TextBlock,
};
use crate::measure::{is_metric, is_painter};
use crate::raster::{composite, lemma_index_in_grid, Color, Raster};
use crate::text::{attribution_of, format_attribution, normalize_quote, quote_text};

verus! {

/// The most lines a quote is shown on.
pub const MAX_QUOTE_LINES: u32 = 5;

/// The opacity of the white panels behind the text: 60% of 255.
pub const PANEL_OPACITY: u8 = 153;

/// A typeface as the renderer uses it: `measure(text, scale)` gives the
/// (width, height) of `text` drawn at `scale`, and `draw(onto, text, scale,
/// x, y, color)` returns `onto` with `text` drawn on it.
pub struct Typeface<M, D> {
    pub measure: M,
    pub draw: D,
}

impl<M: Fn(&str, u32) -> (u32, u32), D: Fn(&Raster, &str, u32, u32, u32, Color) -> Raster> Typeface<M, D> {
    pub open spec fn wf(&self) -> bool {
        is_metric(self.measure) && is_painter(self.draw)
    }
}

/// Where the panels go on a background, all in pixels. Every size is a
/// fixed fraction of the background's height: the margin 1/5, the quote's
/// padding 1/20, the gap between the panels and the attribution's padding
/// 1/40; the quote gets 3/4 of the height inside the margins and the
/// attribution 1/7 of it.
pub struct Layout {
    pub margin: u32,
    pub inner_width: u32,
    pub quote_height: u32,
    pub quote_padding: u32,
    pub attribution_top: u32,
    pub attribution_height: u32,
    pub attribution_padding: u32,
}

pub open spec fn margin_of(h: int) -> int {
    h / 5
}

pub open spec fn inner_width_of(w: int, h: int) -> int {
    w - 2 * margin_of(h)
}

pub open spec fn inner_height_of(h: int) -> int {
    h - 2 * margin_of(h)
}

pub open spec fn quote_height_of(h: int) -> int {
    inner_height_of(h) * 3 / 4
}

pub open spec fn quote_padding_of(h: int) -> int {
    h / 20
}

pub open spec fn gap_of(h: int) -> int {
    h / 40
}

pub open spec fn attribution_height_of(h: int) -> int {
    inner_height_of(h) / 7
}

pub open spec fn attribution_padding_of(h: int) -> int {
    h / 40
}

/// Both panels leave room for text inside their padding.
pub open spec fn layout_fits(w: int, h: int) -> bool {
    &&& inner_width_of(w, h) > 2 * quote_padding_of(h)
    &&& quote_height_of(h) > 2 * quote_padding_of(h)
    &&& inner_width_of(w, h) > 2 * attribution_padding_of(h)
    &&& attribution_height_of(h) > 2 * attribution_padding_of(h)
}

impl Layout {
    /// The layout of a `w` x `h` background.
    pub open spec fn of(self, w: int, h: int) -> bool {
        &&& self.margin == margin_of(h)
        &&& self.inner_width == inner_width_of(w, h)
        &&& self.quote_height == quote_height_of(h)
        &&& self.quote_padding == quote_padding_of(h)
        &&& self.attribution_top == margin_of(h) + quote_height_of(h) + gap_of(h)
        &&& self.attribution_height == attribution_height_of(h)
        &&& self.attribution_padding == attribution_padding_of(h)
    }
}

/// The layout of a `width` x `height` background; fails with `LayoutError`
/// where a panel would leave no room for text inside its padding.
pub fn layout_for(width: u32, height: u32) -> (r: Result<Layout, RenderError>)
    ensures
        layout_fits(width as int, height as int) <==> r is Ok,
        r is Err ==> r == Err::<Layout, RenderError>(RenderError::LayoutError),
        r matches Ok(l) ==> l.of(width as int, height as int),
{
    let margin = height / 5;
    if width as u64 <= 2 * margin as u64 {
        return Err(RenderError::LayoutError);
    }
    let inner_width = width - 2 * margin;
    let inner_height = height - 2 * margin;
    let quote_height = ((inner_height as u64 * 3) / 4) as u32;
    let quote_padding = height / 20;
    let gap = height / 40;
    let attribution_height = inner_height / 7;
    let attribution_padding = height / 40;
    if inner_width as u64 <= 2 * quote_padding as u64 || quote_height as u64 <= 2
        * quote_padding as u64 || inner_width as u64 <= 2 * attribution_padding as u64
        || attribution_height as u64 <= 2 * attribution_padding as u64 {
        return Err(RenderError::LayoutError);
    }
    Ok(
        Layout {
            margin,
            inner_width,
            quote_height,
            quote_padding,
            attribution_top: margin + quote_height + gap,
            attribution_height,
            attribution_padding,
        },
    )
}

/// Where a span of `size` starts when centred in `total`; an odd spare
/// pixel falls after the span, so the span leans to the top-left.
pub open spec fn centred(total: int, size: int) -> int {
    (total - size) / 2
}

/// The pixel in column `u` of row `v` of a panel filled with `color` that
/// has `content` laid on it at (`padding`, `padding`).
pub open spec fn panel_pixel(content: Raster, color: Color, padding: int, u: int, v: int) -> Color {
    if padding <= u < padding + content.spec_width() && padding <= v < padding
        + content.spec_height() {
        composite(color, content.pixel_at(u - padding, v - padding))
    } else {
        color
    }
}

/// `canvas` is what `render_panel` gives for `block`: a transparent
/// `max_width` x `max_height` raster with, centred on it, a panel filled with
/// `panel_color` that holds, at (`padding`, `padding`), the block drawn line
/// by line in `text_color`.
pub open spec fn is_panel<D: Fn(&Raster, &str, u32, u32, u32, Color) -> Raster>(
    canvas: Raster,
    block: TextBlock,
    draw: D,
    text_color: Color,
    panel_color: Color,
    max_width: int,
    max_height: int,
    padding: int,
) -> bool {
    let panel_width = block.width + 2 * padding;
    let panel_height = block.height + 2 * padding;
    let x = centred(max_width, panel_width);
    let y = centred(max_height, panel_height);
    &&& canvas.wf()
    &&& canvas.spec_width() == max_width
    &&& canvas.spec_height() == max_height
    &&& forall|px: int, py: int|
        0 <= px < max_width && 0 <= py < max_height && !(x <= px < x + panel_width && y <= py < y
            + panel_height) ==> #[trigger] canvas.pixel_at(px, py) == (Color { r: 0, g: 0, b: 0, a: 0 })
    &&& exists|content: Raster|
        {
            &&& content.wf()
            &&& content.spec_width() == block.width
            &&& content.spec_height() == block.height
            &&& exists|stages: Seq<Raster>|
                draws_block(draw, &block, text_color, stages) && stages.last() == content
            &&& forall|px: int, py: int|
                x <= px < x + panel_width && y <= py < y + panel_height && px < max_width && py
                    < max_height ==> #[trigger] canvas.pixel_at(px, py) == composite(
                    Color { r: 0, g: 0, b: 0, a: 0 },
                    panel_pixel(content, panel_color, padding, px - x, py - y),
                )
        }
}

/// Panels of two blocks laid out the same way, drawn by one deterministic
/// painter, hold the same pixels.
pub proof fn lemma_panel_unique<D: Fn(&Raster, &str, u32, u32, u32, Color) -> Raster>(
    ca: Raster,
    cb: Raster,
    ba: TextBlock,
    bb: TextBlock,
    draw: D,
    text_color: Color,
    panel_color: Color,
    max_width: int,
    max_height: int,
    padding: int,
)
    requires
        is_painter(draw),
        same_layout(ba, bb),
        is_panel(ca, ba, draw, text_color, panel_color, max_width, max_height, padding),
        is_panel(cb, bb, draw, text_color, panel_color, max_width, max_height, padding),
    ensures
        ca.same_size(&cb),
        ca.pixels() == cb.pixels(),
{
    let x = centred(max_width, ba.width + 2 * padding);
    let y = centred(max_height, ba.height + 2 * padding);
    let content_a = choose|content: Raster|
        {
            &&& content.wf()
            &&& content.spec_width() == ba.width
            &&& content.spec_height() == ba.height
            &&& exists|stages: Seq<Raster>|
                draws_block(draw, &ba, text_color, stages) && stages.last() == content
            &&& forall|px: int, py: int|
                x <= px < x + ba.width + 2 * padding && y <= py < y + ba.height + 2 * padding && px
                    < max_width && py < max_height ==> #[trigger] ca.pixel_at(px, py) == composite(
                    Color { r: 0, g: 0, b: 0, a: 0 },
                    panel_pixel(content, panel_color, padding, px - x, py - y),
                )
        };
    let content_b = choose|content: Raster|
        {
            &&& content.wf()
            &&& content.spec_width() == bb.width
            &&& content.spec_height() == bb.height
            &&& exists|stages: Seq<Raster>|
                draws_block(draw, &bb, text_color, stages) && stages.last() == content
            &&& forall|px: int, py: int|
                x <= px < x + bb.width + 2 * padding && y <= py < y + bb.height + 2 * padding && px
                    < max_width && py < max_height ==> #[trigger] cb.pixel_at(px, py) == composite(
                    Color { r: 0, g: 0, b: 0, a: 0 },
                    panel_pixel(content, panel_color, padding, px - x, py - y),
                )
        };
    let sa = choose|stages: Seq<Raster>|
        draws_block(draw, &ba, text_color, stages) && stages.last() == content_a;
    let sb = choose|stages: Seq<Raster>|
        draws_block(draw, &bb, text_color, stages) && stages.last() == content_b;
    lemma_draws_block_unique(draw, ba, bb, text_color, sa, sb, ba.lines.len() as int);
    assert(content_a.pixels() == content_b.pixels());
    assert forall|px: int, py: int|
        0 <= px < ca.spec_width() && 0 <= py < ca.spec_height() implies #[trigger] ca.pixel_at(
        px,
        py,
    ) == cb.pixel_at(px, py) by {
        if x <= px < x + ba.width + 2 * padding && y <= py < y + ba.height + 2 * padding {
            assert(panel_pixel(content_a, panel_color, padding, px - x, py - y) == panel_pixel(
                content_b,
                panel_color,
                padding,
                px - x,
                py - y,
            ));
        }
    }
    ca.lemma_same_pixels(&cb);
}

/// Renders a text block onto a panel: the panel is the block plus `padding`
/// on every side, filled with `panel_color`, with the text drawn in
/// `text_color` at (`padding`, `padding`); it is centred in a transparent
/// raster of `max_width` x `max_height`, which is returned. Fails with
/// `LayoutError` where the padding leaves no room for text or the panel is
/// larger than the raster.
pub fn render_panel<D: Fn(&Raster, &str, u32, u32, u32, Color) -> Raster>(
    block: &TextBlock,
    text_color: Color,
    panel_color: Color,
    max_width: u32,
    max_height: u32,
    padding: u32,
    draw: &D,
) -> (r: Result<Raster, RenderError>)
    requires
        block.wf(),
        is_painter(*draw),
        max_width * max_height * 4 <= usize::MAX,
    ensures
        (2 * padding < max_width && 2 * padding < max_height && block.width + 2 * padding
            <= max_width && block.height + 2 * padding <= max_height) <==> r is Ok,
        r is Err ==> r == Err::<Raster, RenderError>(RenderError::LayoutError),
        r matches Ok(canvas) ==> is_panel(
            canvas,
            *block,
            *draw,
            text_color,
            panel_color,
            max_width as int,
            max_height as int,
            padding as int,
        ),
{
    if max_width as u64 <= 2 * padding as u64 || max_height as u64 <= 2 * padding as u64 {
        return Err(RenderError::LayoutError);
    }
    let panel_width_wide: u64 = block.width as u64 + 2 * padding as u64;
    let panel_height_wide: u64 = block.height as u64 + 2 * padding as u64;
    if panel_width_wide > max_width as u64 || panel_height_wide > max_height as u64 {
        return Err(RenderError::LayoutError);
    }
    let panel_width = panel_width_wide as u32;
    let panel_height = panel_height_wide as u32;
    proof {
        lemma_smaller_area(block.width as int, block.height as int, max_width as int, max_height as int);
        lemma_smaller_area(panel_width as int, panel_height as int, max_width as int, max_height as int);
    }
    let content = draw_block(block, text_color, draw);
    let mut panel = Raster::filled(panel_width, panel_height, panel_color);
    let ghost plain = panel;
    panel.overlay(&content, padding, padding);
    let mut canvas = Raster::transparent(max_width, max_height);
    let ghost blank = canvas;
    let x = (max_width - panel_width) / 2;
    let y = (max_height - panel_height) / 2;
    canvas.overlay(&panel, x, y);
    proof {
        assert forall|px: int, py: int|
            0 <= px < max_width && 0 <= py < max_height && !(x <= px < x + panel_width && y <= py < y
                + panel_height) implies #[trigger] canvas.pixel_at(px, py) == (Color {
            r: 0,
            g: 0,
            b: 0,
            a: 0,
        }) by {
            lemma_index_in_grid(px, py, max_width as int, max_height as int);
            assert(canvas.pixel_at(px, py) == blank.pixel_at(px, py));
        }
        assert forall|px: int, py: int|
            x <= px < x + panel_width && y <= py < y + panel_height && px < max_width && py
                < max_height implies #[trigger] canvas.pixel_at(px, py) == composite(
            Color { r: 0, g: 0, b: 0, a: 0 },
            panel_pixel(content, panel_color, padding as int, px - x, py - y),
        ) by {
            lemma_index_in_grid(px, py, max_width as int, max_height as int);
            lemma_index_in_grid(px - x, py - y, panel_width as int, panel_height as int);
            assert(blank.pixel_at(px, py) == (Color { r: 0, g: 0, b: 0, a: 0 }));
            assert(plain.pixel_at(px - x, py - y) == panel_color);
        }
    }
    Ok(canvas)
}

/// A rectangle inside another has no larger an area.
proof fn lemma_smaller_area(w: int, h: int, big_w: int, big_h: int)
    requires
        0 <= w <= big_w,
        0 <= h <= big_h,
    ensures
        w * h * 4 <= big_w * big_h * 4,
{
    assert(w * h <= big_w * big_h) by (nonlinear_arith)
        requires
            0 <= w <= big_w,
            0 <= h <= big_h,
    ;
}

/// `image` is `background` with the quote canvas laid over the region
/// inside the margins at its top, and the attribution canvas over the
/// region below it, past the gap; elsewhere it is the background.
pub open spec fn composed(image: Raster, background: Raster, quote: Raster, attribution: Raster) -> bool {
    let w = background.spec_width() as int;
    let h = background.spec_height() as int;
    let m = margin_of(h);
    let inner = inner_width_of(w, h);
    let attribution_top = m + quote_height_of(h) + gap_of(h);
    forall|px: int, py: int|
        0 <= px < w && 0 <= py < h ==> #[trigger] image.pixel_at(px, py) == if m <= px < m + inner
            && m <= py < m + quote_height_of(h) {
            composite(background.pixel_at(px, py), quote.pixel_at(px - m, py - m))
        } else if m <= px < m + inner && attribution_top <= py < attribution_top
            + attribution_height_of(h) {
            composite(background.pixel_at(px, py), attribution.pixel_at(px - m, py - attribution_top))
        } else {
            background.pixel_at(px, py)
        }
}

/// `canvas` is the quote's panel over `background`: `b` is the quote laid
/// out as `fit_lines` does for the quote's region, and `canvas` is that block
/// as `render_panel` draws it, in the background's average colour.
pub open spec fn quote_panel_of<
    QM: Fn(&str, u32) -> (u32, u32),
    QD: Fn(&Raster, &str, u32, u32, u32, Color) -> Raster,
>(canvas: Raster, background: Raster, quote: Seq<char>, font: Typeface<QM, QD>, b: TextBlock) -> bool {
    let w = background.spec_width() as int;
    let h = background.spec_height() as int;
    &&& fits_lines(
        b,
        font.measure,
        quote_text(quote),
        inner_width_of(w, h) - 2 * quote_padding_of(h),
        quote_height_of(h) - 2 * quote_padding_of(h),
        MAX_QUOTE_LINES as int,
    )
    &&& is_panel(
        canvas,
        b,
        font.draw,
        mean_color(background.pixels()),
        Color { r: 255, g: 255, b: 255, a: PANEL_OPACITY },
        inner_width_of(w, h),
        quote_height_of(h),
        quote_padding_of(h),
    )
}

/// `canvas` is the attribution's panel over `background`: `b` is the line
/// `"{author}, {DD/MM/YYYY}"` laid out as `fit_single_line` does for the
/// attribution's region, and `canvas` is that block as `render_panel` draws
/// it, in the background's average colour.
pub open spec fn attribution_panel_of<
    AM: Fn(&str, u32) -> (u32, u32),
    AD: Fn(&Raster, &str, u32, u32, u32, Color) -> Raster,
>(
    canvas: Raster,
    background: Raster,
    author: Seq<char>,
    date: Date,
    font: Typeface<AM, AD>,
    b: TextBlock,
) -> bool {
    let w = background.spec_width() as int;
    let h = background.spec_height() as int;
    &&& b.lines[0]@ == attribution_of(author, date.text())
    &&& fits_single_line(
        b,
        font.measure,
        b.lines[0]@,
        inner_width_of(w, h) - 2 * attribution_padding_of(h),
        attribution_height_of(h) - 2 * attribution_padding_of(h),
    )
    &&& is_panel(
        canvas,
        b,
        font.draw,
        mean_color(background.pixels()),
        Color { r: 255, g: 255, b: 255, a: PANEL_OPACITY },
        inner_width_of(w, h),
        attribution_height_of(h),
        attribution_padding_of(h),
    )
}

/// `image` is what `render` gives: the background with the quote's panel
/// and the attribution's panel composed over it.
pub open spec fn rendered<
    QM: Fn(&str, u32) -> (u32, u32),
    QD: Fn(&Raster, &str, u32, u32, u32, Color) -> Raster,
    AM: Fn(&str, u32) -> (u32, u32),
    AD: Fn(&Raster, &str, u32, u32, u32, Color) -> Raster,
>(
    image: Raster,
    background: Raster,
    quote: Seq<char>,
    author: Seq<char>,
    date: Date,
    quote_font: Typeface<QM, QD>,
    attribution_font: Typeface<AM, AD>,
) -> bool {
    &&& image.wf()
    &&& image.same_size(&background)
    &&& exists|quote_canvas: Raster, attribution_canvas: Raster|
        {
            &&& #[trigger] composed(image, background, quote_canvas, attribution_canvas)
            &&& exists|b: TextBlock|
                #[trigger] quote_panel_of(quote_canvas, background, quote, quote_font, b)
            &&& exists|b: TextBlock|
                #[trigger] attribution_panel_of(
                    attribution_canvas,
                    background,
                    author,
                    date,
                    attribution_font,
                    b,
                )
        }
}

/// `render` is a function of its inputs: two images that it may give for
/// the same background, text, date and typefaces hold the same pixels.
pub proof fn lemma_render_deterministic<
    QM: Fn(&str, u32) -> (u32, u32),
    QD: Fn(&Raster, &str, u32, u32, u32, Color) -> Raster,
    AM: Fn(&str, u32) -> (u32, u32),
    AD: Fn(&Raster, &str, u32, u32, u32, Color) -> Raster,
>(
    first: Raster,
    second: Raster,
    background: Raster,
    quote: Seq<char>,
    author: Seq<char>,
    date: Date,
    quote_font: Typeface<QM, QD>,
    attribution_font: Typeface<AM, AD>,
)
    requires
        quote_font.wf(),
        attribution_font.wf(),
        rendered(first, background, quote, author, date, quote_font, attribution_font),
        rendered(second, background, quote, author, date, quote_font, attribution_font),
    ensures
        first.same_size(&second),
        first.pixels() == second.pixels(),
{
    let w = background.spec_width() as int;
    let h = background.spec_height() as int;
    let text_color = mean_color(background.pixels());
    let panel = Color { r: 255, g: 255, b: 255, a: PANEL_OPACITY };
    let (q1, a1) = choose|q: Raster, a: Raster|
        {
            &&& #[trigger] composed(first, background, q, a)
            &&& exists|b: TextBlock| #[trigger] quote_panel_of(q, background, quote, quote_font, b)
            &&& exists|b: TextBlock|
                #[trigger] attribution_panel_of(a, background, author, date, attribution_font, b)
        };
    let (q2, a2) = choose|q: Raster, a: Raster|
        {
            &&& #[trigger] composed(second, background, q, a)
            &&& exists|b: TextBlock| #[trigger] quote_panel_of(q, background, quote, quote_font, b)
            &&& exists|b: TextBlock|
                #[trigger] attribution_panel_of(a, background, author, date, attribution_font, b)
        };
    let qb1 = choose|b: TextBlock| #[trigger] quote_panel_of(q1, background, quote, quote_font, b);
    let qb2 = choose|b: TextBlock| #[trigger] quote_panel_of(q2, background, quote, quote_font, b);
    let ab1 = choose|b: TextBlock|
        #[trigger] attribution_panel_of(a1, background, author, date, attribution_font, b);
    let ab2 = choose|b: TextBlock|
        #[trigger] attribution_panel_of(a2, background, author, date, attribution_font, b);
    lemma_fits_lines_size(
        qb1,
        qb2,
        quote_font.measure,
        quote_text(quote),
        inner_width_of(w, h) - 2 * quote_padding_of(h),
        quote_height_of(h) - 2 * quote_padding_of(h),
        MAX_QUOTE_LINES as int,
    );
    lemma_fits_single_line_size(
        ab1,
        ab2,
        attribution_font.measure,
        attribution_of(author, date.text()),
        inner_width_of(w, h) - 2 * attribution_padding_of(h),
        attribution_height_of(h) - 2 * attribution_padding_of(h),
    );
    lemma_panel_unique(
        q1,
        q2,
        qb1,
        qb2,
        quote_font.draw,
        text_color,
        panel,
        inner_width_of(w, h),
        quote_height_of(h),
        quote_padding_of(h),
    );
    lemma_panel_unique(
        a1,
        a2,
        ab1,
        ab2,
        attribution_font.draw,
        text_color,
        panel,
        inner_width_of(w, h),
        attribution_height_of(h),
        attribution_padding_of(h),
    );
    assert forall|px: int, py: int|
        0 <= px < first.spec_width() && 0 <= py < first.spec_height() implies #[trigger] first.pixel_at(
        px,
        py,
    ) == second.pixel_at(px, py) by {
        assert(composed(first, background, q1, a1));
        assert(composed(second, background, q2, a2));
    }
    first.lemma_same_pixels(&second);
}

/// Everything that `render` needs to succeed: a background with pixels, a
/// date that exists, a background large enough for the layout, a quote box
/// tall enough for one line, and panels that fit their regions once their
/// text is laid out.
pub open spec fn renderable<
    QM: Fn(&str, u32) -> (u32, u32),
    QD: Fn(&Raster, &str, u32, u32, u32, Color) -> Raster,
    AM: Fn(&str, u32) -> (u32, u32),
    AD: Fn(&Raster, &str, u32, u32, u32, Color) -> Raster,
>(
    background: Raster,
    quote: Seq<char>,
    author: Seq<char>,
    date: Date,
    quote_font: Typeface<QM, QD>,
    attribution_font: Typeface<AM, AD>,
) -> bool {
    let w = background.spec_width() as int;
    let h = background.spec_height() as int;
    let inner = inner_width_of(w, h);
    let quote_padding = quote_padding_of(h);
    let attribution_padding = attribution_padding_of(h);
    &&& background.pixels().len() > 0
    &&& date.valid()
    &&& layout_fits(w, h)
    &&& min_line_height(quote_height_of(h) - 2 * quote_padding, MAX_QUOTE_LINES as int) > 0
    &&& forall|b: TextBlock|
        #[trigger] fits_lines(
            b,
            quote_font.measure,
            quote_text(quote),
            inner - 2 * quote_padding,
            quote_height_of(h) - 2 * quote_padding,
            MAX_QUOTE_LINES as int,
        ) ==> b.width + 2 * quote_padding <= inner && b.height + 2 * quote_padding
            <= quote_height_of(h)
    &&& forall|b: TextBlock|
        b.lines[0]@ == attribution_of(author, date.text())
            && #[trigger] fits_single_line(
            b,
            attribution_font.measure,
            b.lines[0]@,
            inner - 2 * attribution_padding,
            attribution_height_of(h) - 2 * attribution_padding,
        ) ==> b.width + 2 * attribution_padding <= inner && b.height + 2 * attribution_padding
            <= attribution_height_of(h)
}

proof fn lemma_rendered<
    QM: Fn(&str, u32) -> (u32, u32),
    QD: Fn(&Raster, &str, u32, u32, u32, Color) -> Raster,
    AM: Fn(&str, u32) -> (u32, u32),
    AD: Fn(&Raster, &str, u32, u32, u32, Color) -> Raster,
>(
    image: Raster,
    background: Raster,
    quote: Seq<char>,
    author: Seq<char>,
    date: Date,
    quote_font: Typeface<QM, QD>,
    attribution_font: Typeface<AM, AD>,
    quote_block: TextBlock,
    quote_canvas: Raster,
    attribution_block: TextBlock,
    attribution_canvas: Raster,
)
    requires
        image.wf(),
        image.same_size(&background),
        composed(image, background, quote_canvas, attribution_canvas),
        fits_lines(
            quote_block,
            quote_font.measure,
            quote_text(quote),
            inner_width_of(background.spec_width() as int, background.spec_height() as int) - 2
                * quote_padding_of(background.spec_height() as int),
            quote_height_of(background.spec_height() as int) - 2 * quote_padding_of(
                background.spec_height() as int,
            ),
            MAX_QUOTE_LINES as int,
        ),
        is_panel(
            quote_canvas,
            quote_block,
            quote_font.draw,
            mean_color(background.pixels()),
            Color { r: 255, g: 255, b: 255, a: PANEL_OPACITY },
            inner_width_of(background.spec_width() as int, background.spec_height() as int),
            quote_height_of(background.spec_height() as int),
            quote_padding_of(background.spec_height() as int),
        ),
        attribution_block.lines[0]@ == attribution_of(
            author,
            date.text(),
        ),
        fits_single_line(
            attribution_block,
            attribution_font.measure,
            attribution_block.lines[0]@,
            inner_width_of(background.spec_width() as int, background.spec_height() as int) - 2
                * attribution_padding_of(background.spec_height() as int),
            attribution_height_of(background.spec_height() as int) - 2 * attribution_padding_of(
                background.spec_height() as int,
            ),
        ),
        is_panel(
            attribution_canvas,
            attribution_block,
            attribution_font.draw,
            mean_color(background.pixels()),
            Color { r: 255, g: 255, b: 255, a: PANEL_OPACITY },
            inner_width_of(background.spec_width() as int, background.spec_height() as int),
            attribution_height_of(background.spec_height() as int),
            attribution_padding_of(background.spec_height() as int),
        ),
    ensures
        rendered(image, background, quote, author, date, quote_font, attribution_font),
{
    assert(quote_panel_of(quote_canvas, background, quote, quote_font, quote_block));
    assert(attribution_panel_of(
        attribution_canvas,
        background,
        author,
        date,
        attribution_font,
        attribution_block,
    ));
}

/// Renders a quote image: the quote in one panel and the attribution
/// (`"{author}, {DD/MM/YYYY}"`) in a second one below it, both over
/// `background`, with the text in the background's average colour. The
/// result has the background's size; outside the two regions the panels are
/// allotted, it is the background itself. Fails with `InvalidInput` on a
/// background without pixels or a date that does not exist, and with
/// `LayoutError` where the background is too small for the layout or a panel
/// does not fit its region.
pub fn render<
    QM: Fn(&str, u32) -> (u32, u32),
    QD: Fn(&Raster, &str, u32, u32, u32, Color) -> Raster,
    AM: Fn(&str, u32) -> (u32, u32),
    AD: Fn(&Raster, &str, u32, u32, u32, Color) -> Raster,
>(
    background: &Raster,
    quote: &str,
    author: &str,
    date: &Date,
    quote_font: &Typeface<QM, QD>,
    attribution_font: &Typeface<AM, AD>,
) -> (r: Result<Raster, RenderError>)
    requires
        background.wf(),
        quote_font.wf(),
        attribution_font.wf(),
    ensures
        (background.pixels().len() == 0 || !date.valid()) <==> r == Err::<Raster, RenderError>(
            RenderError::InvalidInput,
        ),
        background.pixels().len() > 0 && date.valid() && !layout_fits(
            background.spec_width() as int,
            background.spec_height() as int,
        ) ==> r == Err::<Raster, RenderError>(RenderError::LayoutError),
        r is Err ==> r == Err::<Raster, RenderError>(RenderError::InvalidInput) || r == Err::<
            Raster,
            RenderError,
        >(RenderError::LayoutError),
        renderable(*background, quote@, author@, *date, *quote_font, *attribution_font) <==> r is Ok,
        r matches Ok(image) ==> image.wf() && image.same_size(background),
        r matches Ok(image) ==> rendered(
            image,
            *background,
            quote@,
            author@,
            *date,
            *quote_font,
            *attribution_font,
        ),
{
    let text_color = match average_color(background) {
        Ok(c) => c,
        Err(e) => {
            return Err(e);
        },
    };
    if !date.is_valid() {
        return Err(RenderError::InvalidInput);
    }
    let layout = match layout_for(background.width(), background.height()) {
        Ok(l) => l,
        Err(e) => {
            return Err(e);
        },
    };
    proof {
        background.lemma_pixel_count();
        lemma_smaller_area(
            layout.inner_width as int,
            layout.quote_height as int,
            background.spec_width() as int,
            background.spec_height() as int,
        );
        lemma_smaller_area(
            layout.inner_width as int,
            layout.attribution_height as int,
            background.spec_width() as int,
            background.spec_height() as int,
        );
    }
    let panel = Color { r: 255, g: 255, b: 255, a: PANEL_OPACITY };
    let shown_quote = normalize_quote(quote);
    let quote_block = match fit_lines(
        shown_quote.as_str(),
        &quote_font.measure,
        layout.inner_width - 2 * layout.quote_padding,
        layout.quote_height - 2 * layout.quote_padding,
        MAX_QUOTE_LINES,
    ) {
        Ok(b) => b,
        Err(e) => {
            return Err(e);
        },
    };
    let quote_panel = match render_panel(
        &quote_block,
        text_color,
        panel,
        layout.inner_width,
        layout.quote_height,
        layout.quote_padding,
        &quote_font.draw,
    ) {
        Ok(p) => p,
        Err(e) => {
            return Err(e);
        },
    };
    let attribution = format_attribution(author, date);
    let attribution_block = fit_single_line(
        attribution.as_str(),
        &attribution_font.measure,
        layout.inner_width - 2 * layout.attribution_padding,
        layout.attribution_height - 2 * layout.attribution_padding,
    );
    let attribution_panel = match render_panel(
        &attribution_block,
        text_color,
        panel,
        layout.inner_width,
        layout.attribution_height,
        layout.attribution_padding,
        &attribution_font.draw,
    ) {
        Ok(p) => p,
        Err(e) => {
            return Err(e);
        },
    };
    let mut image = background.copy();
    image.overlay(&quote_panel, layout.margin, layout.margin);
    image.overlay(&attribution_panel, layout.margin, layout.attribution_top);
    proof {
        let w = background.spec_width() as int;
        let h = background.spec_height() as int;
        assert forall|b: TextBlock|
            #[trigger] fits_lines(
                b,
                quote_font.measure,
                quote_text(quote@),
                inner_width_of(w, h) - 2 * quote_padding_of(h),
                quote_height_of(h) - 2 * quote_padding_of(h),
                MAX_QUOTE_LINES as int,
            ) implies b.width == quote_block.width && b.height == quote_block.height by {
            lemma_fits_lines_size(
                b,
                quote_block,
                quote_font.measure,
                quote_text(quote@),
                inner_width_of(w, h) - 2 * quote_padding_of(h),
                quote_height_of(h) - 2 * quote_padding_of(h),
                MAX_QUOTE_LINES as int,
            );
        }
        assert forall|b: TextBlock|
            b.lines[0]@ == attribution_of(author@, date.text()) && #[trigger] fits_single_line(
                b,
                attribution_font.measure,
                b.lines[0]@,
                inner_width_of(w, h) - 2 * attribution_padding_of(h),
                attribution_height_of(h) - 2 * attribution_padding_of(h),
            ) implies b.width == attribution_block.width && b.height == attribution_block.height by {
            lemma_fits_single_line_size(
                b,
                attribution_block,
                attribution_font.measure,
                attribution_of(author@, date.text()),
                inner_width_of(w, h) - 2 * attribution_padding_of(h),
                attribution_height_of(h) - 2 * attribution_padding_of(h),
            );
        }
        assert(renderable(*background, quote@, author@, *date, *quote_font, *attribution_font));
        assert(composed(image, *background, quote_panel, attribution_panel));
        lemma_rendered(
            image,
            *background,
            quote@,
            author@,
            *date,
            *quote_font,
            *attribution_font,
            quote_block,
            quote_panel,
            attribution_block,
            attribution_panel,
        );
    }
    Ok(image)
}

} // verus!
