use vstd::prelude::*;

use crate::error::RenderError;
use crate::measure::{is_metric, is_painter, lemma_size_of, size_of, width_fn};
use crate::raster::{Color, Raster};
use crate::text::{chars_of, string_from_chars};
use crate::wrap::{lemma_wrap_lines_fit, lines_view, wrap_lines, wrap_text};

verus! {

/// The mark that ends a line cut short.
pub const ELLIPSIS: char = '\u{2026}';

/// Line height over glyph scale, in tenths: lines are spaced 1.3 times the
/// scale apart.
pub const LINE_HEIGHT_TENTHS: u64 = 13;

/// The height of one line when `max_lines` lines share `max_height`.
pub open spec fn min_line_height(max_height: int, max_lines: int) -> int {
    (10 * max_height) / (13 * max_lines)
}

/// The gap between lines that are `line_height` apart.
pub open spec fn line_gap(line_height: int) -> int {
    (3 * line_height) / 13
}

/// The smallest glyph scale, at which `max_lines` lines fit `max_height`.
pub open spec fn min_scale(max_height: int, max_lines: int) -> int {
    min_line_height(max_height, max_lines) - line_gap(min_line_height(max_height, max_lines))
}

/// The first `n` lines, the last of them with its final character replaced
/// by an ellipsis, if there are more than `n`.
pub open spec fn truncated(lines: Seq<Seq<char>>, n: int) -> Seq<Seq<char>> {
    if lines.len() > n {
        lines.take(n).update(n - 1, lines[n - 1].drop_last().push(ELLIPSIS))
    } else {
        lines
    }
}

/// Text that wraps to more than `n` lines keeps only its first `n`, and the
/// last of those has its final character replaced by an ellipsis.
pub proof fn lemma_truncated(lines: Seq<Seq<char>>, n: int)
    requires
        n >= 1,
        lines.len() > n,
    ensures
        truncated(lines, n).len() == n,
        forall|i: int| 0 <= i < n - 1 ==> #[trigger] truncated(lines, n)[i] == lines[i],
        truncated(lines, n)[n - 1] == lines[n - 1].drop_last().push(ELLIPSIS),
{
}

/// The lines of `text` when wrapped at the smallest scale and cut to
/// `max_lines`.
pub open spec fn fitted_lines<F: Fn(&str, u32) -> (u32, u32)>(
    f: F,
    text: Seq<char>,
    max_width: int,
    max_height: int,
    max_lines: int,
) -> Seq<Seq<char>> {
    truncated(
        wrap_lines(width_fn(f, min_scale(max_height, max_lines) as u32), text, max_width),
        max_lines,
    )
}

/// The scale for one line: the full height, shrunk in proportion where the
/// line measured at that height, `size`, is wider than `max_width`.
pub open spec fn shrink_to_width(size: (u32, u32), max_width: int, max_height: int) -> int {
    if size.0 == 0 {
        max_height
    } else {
        let estimate = (size.1 * max_width) / (size.0 as int);
        if estimate < max_height {
            estimate
        } else {
            max_height
        }
    }
}

/// The largest of some widths, 0 for none.
pub open spec fn seq_max(s: Seq<u32>) -> int
    decreases s.len(),
{
    if s.len() == 0 {
        0
    } else if seq_max(s.drop_last()) < s.last() {
        s.last() as int
    } else {
        seq_max(s.drop_last())
    }
}

proof fn lemma_seq_max(s: Seq<u32>)
    ensures
        0 <= seq_max(s) <= u32::MAX,
        forall|i: int| 0 <= i < s.len() ==> s[i] <= seq_max(s),
    decreases s.len(),
{
    if s.len() > 0 {
        lemma_seq_max(s.drop_last());
        assert forall|i: int| 0 <= i < s.len() implies s[i] <= seq_max(s) by {
            if i < s.len() - 1 {
                assert(s[i] == s.drop_last()[i]);
            }
        }
    }
}

/// Wrapped text with the scale and the size it is drawn at: line `i` is
/// drawn `line_height * i` pixels from the top, centred across `width`.
pub struct TextBlock {
    pub lines: Vec<String>,
    /// The width of each line at `scale`.
    pub widths: Vec<u32>,
    pub scale: u32,
    pub line_height: u32,
    pub width: u32,
    pub height: u32,
}

impl TextBlock {
    pub open spec fn wf(&self) -> bool {
        &&& self.lines.len() >= 1
        &&& self.widths.len() == self.lines.len()
        &&& self.width == seq_max(self.widths@)
        &&& self.line_height * (self.lines.len() - 1) <= u32::MAX
    }

    /// The column where line `i` starts.
    pub open spec fn line_x(&self, i: int) -> int {
        self.width / 2 - self.widths[i] / 2
    }

    /// The row where line `i` starts.
    pub open spec fn line_y(&self, i: int) -> int {
        self.line_height * i
    }
}

/// `b` is `text` laid out by `fit_lines` for a `max_width` x `max_height`
/// box and at most `max_lines` lines.
pub open spec fn fits_lines<F: Fn(&str, u32) -> (u32, u32)>(
    b: TextBlock,
    f: F,
    text: Seq<char>,
    max_width: int,
    max_height: int,
    max_lines: int,
) -> bool {
    let line_height = min_line_height(max_height, max_lines);
    &&& b.wf()
    &&& lines_view(b.lines@) == fitted_lines(f, text, max_width, max_height, max_lines)
    &&& b.line_height == line_height
    &&& b.lines.len() == 1 ==> b.scale == shrink_to_width(
        size_of(f, b.lines[0]@, max_height as u32),
        max_width,
        max_height,
    ) && b.height == b.scale
    &&& b.lines.len() > 1 ==> b.scale == min_scale(max_height, max_lines) && b.height
        == line_height * b.lines.len() - line_gap(line_height)
    &&& forall|i: int|
        0 <= i < b.lines.len() ==> #[trigger] b.widths[i] == size_of(f, b.lines[i]@, b.scale).0
}

/// `b` is `text` laid out on one line by `fit_single_line` for a
/// `max_width` x `max_height` box.
pub open spec fn fits_single_line<F: Fn(&str, u32) -> (u32, u32)>(
    b: TextBlock,
    f: F,
    text: Seq<char>,
    max_width: int,
    max_height: int,
) -> bool {
    &&& b.wf()
    &&& b.lines.len() == 1
    &&& b.lines[0]@ == text
    &&& b.scale == shrink_to_width(size_of(f, text, max_height as u32), max_width, max_height)
    &&& b.height == b.scale
    &&& b.line_height == b.height
    &&& b.widths[0] == size_of(f, text, b.scale).0
}

/// `a` and `b` lay out the same lines the same way.
pub open spec fn same_layout(a: TextBlock, b: TextBlock) -> bool {
    &&& a.lines.len() == b.lines.len()
    &&& forall|i: int| 0 <= i < a.lines.len() ==> #[trigger] a.lines[i]@ == b.lines[i]@
    &&& a.widths@ == b.widths@
    &&& a.scale == b.scale
    &&& a.line_height == b.line_height
    &&& a.width == b.width
    &&& a.height == b.height
}

/// Two layouts of the same text for the same box are the same.
pub proof fn lemma_fits_lines_size<F: Fn(&str, u32) -> (u32, u32)>(
    a: TextBlock,
    b: TextBlock,
    f: F,
    text: Seq<char>,
    max_width: int,
    max_height: int,
    max_lines: int,
)
    requires
        fits_lines(a, f, text, max_width, max_height, max_lines),
        fits_lines(b, f, text, max_width, max_height, max_lines),
    ensures
        same_layout(a, b),
{
    assert(lines_view(a.lines@).len() == a.lines.len());
    assert(lines_view(b.lines@).len() == b.lines.len());
    assert(a.lines[0]@ == lines_view(a.lines@)[0]);
    assert(b.lines[0]@ == lines_view(b.lines@)[0]);
    assert forall|i: int| 0 <= i < a.lines.len() implies a.lines[i]@ == b.lines[i]@ by {
        assert(a.lines[i]@ == lines_view(a.lines@)[i]);
        assert(b.lines[i]@ == lines_view(b.lines@)[i]);
    }
    assert(a.widths@ =~= b.widths@);
}

/// Two one-line layouts of the same text for the same box are the same.
pub proof fn lemma_fits_single_line_size<F: Fn(&str, u32) -> (u32, u32)>(
    a: TextBlock,
    b: TextBlock,
    f: F,
    text: Seq<char>,
    max_width: int,
    max_height: int,
)
    requires
        fits_single_line(a, f, text, max_width, max_height),
        fits_single_line(b, f, text, max_width, max_height),
    ensures
        same_layout(a, b),
{
    assert(a.widths@ =~= b.widths@);
}

/// Measures each line at `scale`; gives the widths and the largest.
fn measure_widths<F: Fn(&str, u32) -> (u32, u32)>(lines: &Vec<String>, measure: &F, scale: u32) -> (r: (
    Vec<u32>,
    u32,
))
    requires
        is_metric(*measure),
    ensures
        r.0.len() == lines.len(),
        forall|i: int| 0 <= i < lines.len() ==> #[trigger] r.0[i] == size_of(*measure, lines[i]@, scale).0,
        r.1 == seq_max(r.0@),
{
    let mut widths: Vec<u32> = Vec::new();
    let mut widest: u32 = 0;
    let mut i: usize = 0;
    while i < lines.len()
        invariant
            is_metric(*measure),
            i <= lines.len(),
            widths.len() == i,
            forall|j: int| 0 <= j < i ==> #[trigger] widths[j] == size_of(*measure, lines[j]@, scale).0,
            widest == seq_max(widths@),
        decreases lines.len() - i,
    {
        let line = lines[i].as_str();
        let size = measure(line, scale);
        proof {
            lemma_size_of(*measure, line, scale, size);
        }
        let ghost before = widths@;
        widths.push(size.0);
        proof {
            assert(widths@.drop_last() =~= before);
        }
        if widest < size.0 {
            widest = size.0;
        }
        i = i + 1;
    }
    (widths, widest)
}

proof fn lemma_line_bound(line_height: int, count: int, max_lines: int, max_height: int)
    requires
        max_lines >= 1,
        0 <= count <= max_lines,
        0 <= max_height,
        line_height == min_line_height(max_height, max_lines),
    ensures
        0 <= line_height * count <= max_height,
        count >= 1 ==> line_height <= line_height * count,
{
    assert(line_height * (13 * max_lines) <= 10 * max_height) by (nonlinear_arith)
        requires
            line_height == (10 * max_height) / (13 * max_lines),
            max_lines >= 1,
            max_height >= 0,
    ;
    assert(0 <= line_height * count <= line_height * max_lines) by (nonlinear_arith)
        requires
            0 <= count <= max_lines,
            line_height >= 0,
    ;
    if count >= 1 {
        assert(line_height <= line_height * count) by (nonlinear_arith)
            requires
                1 <= count,
                line_height >= 0,
        ;
    }
    assert(line_height * max_lines <= max_height) by (nonlinear_arith)
        requires
            line_height * (13 * max_lines) <= 10 * max_height,
            line_height >= 0,
            max_lines >= 1,
    ;
}

proof fn lemma_product_fits(a: u32, b: u32)
    ensures
        a * b <= u64::MAX,
{
    assert(a * b <= 0xffff_ffff * 0xffff_ffff) by (nonlinear_arith)
        requires
            a <= 0xffff_ffff,
            b <= 0xffff_ffff,
    ;
}

/// Lays text out to fit a `max_width` x `max_height` box with at most
/// `max_lines` lines. The text is wrapped at the smallest scale, at which
/// `max_lines` lines fit the height, and cut to `max_lines` lines with an
/// ellipsis. A single line is then drawn as large as the box allows (the full
/// height, shrunk in proportion to fit the width); several lines stay at the
/// smallest scale. Fails with `LayoutError` where the box has no width or is
/// too low for one line.
pub fn fit_lines<F: Fn(&str, u32) -> (u32, u32)>(
    text: &str,
    measure: &F,
    max_width: u32,
    max_height: u32,
    max_lines: u32,
) -> (r: Result<TextBlock, RenderError>)
    requires
        is_metric(*measure),
        max_lines >= 1,
    ensures
        (min_line_height(max_height as int, max_lines as int) == 0 || max_width == 0) <==> r is Err,
        r is Err ==> r == Err::<TextBlock, RenderError>(RenderError::LayoutError),
        r matches Ok(b) ==> fits_lines(
            b,
            *measure,
            text@,
            max_width as int,
            max_height as int,
            max_lines as int,
        ),
{
    let wide_height: u64 = (10 * max_height as u64) / (LINE_HEIGHT_TENTHS * max_lines as u64);
    if wide_height == 0 || max_width == 0 {
        return Err(RenderError::LayoutError);
    }
    let ghost lh = min_line_height(max_height as int, max_lines as int);
    proof {
        lemma_line_bound(lh, 1, max_lines as int, max_height as int);
    }
    let line_height = wide_height as u32;
    let gap = ((3 * line_height as u64) / LINE_HEIGHT_TENTHS) as u32;
    let scale = line_height - gap;
    let mut lines = wrap_text(text, measure, scale, max_width);
    let ghost wrapped = lines_view(lines@);
    let limit = max_lines as usize;
    if lines.len() > limit {
        proof {
            if text@.len() == 0 {
                assert(wrapped.len() == 1);
            }
            lemma_wrap_lines_fit(width_fn(*measure, scale), text@, max_width as int);
        }
        lines.truncate(limit);
        let last = lines.pop();
        match last {
            Some(line) => {
                let mut cs = chars_of(line.as_str());
                cs.pop();
                cs.push(ELLIPSIS);
                lines.push(string_from_chars(cs));
            },
            None => {},
        }
        proof {
            assert(lines_view(lines@) =~= truncated(wrapped, max_lines as int));
        }
    }
    let count = lines.len();
    proof {
        assert(lines_view(lines@).len() == count);
        if text@.len() > 0 {
            lemma_wrap_lines_fit(width_fn(*measure, scale), text@, max_width as int);
        }
        assert(count >= 1);
        lemma_line_bound(lh, count as int, max_lines as int, max_height as int);
        lemma_line_bound(lh, (count - 1) as int, max_lines as int, max_height as int);
    }
    let mut block_scale = scale;
    let mut height: u32 = 0;
    if count == 1 {
        let line = lines[0].as_str();
        let size = measure(line, max_height);
        proof {
            lemma_size_of(*measure, line, max_height, size);
        }
        block_scale = max_height;
        if size.0 != 0 {
            proof {
                lemma_product_fits(size.1, max_width);
            }
            let estimate: u64 = (size.1 as u64 * max_width as u64) / size.0 as u64;
            if estimate < max_height as u64 {
                block_scale = estimate as u32;
            }
        }
        height = block_scale;
    } else {
        height = line_height * (count as u32) - gap;
    }
    let (widths, width) = measure_widths(&lines, measure, block_scale);
    Ok(TextBlock { lines, widths, scale: block_scale, line_height, width, height })
}

/// Lays one line of text out to fit a `max_width` x `max_height` box: drawn
/// at the full height, shrunk in proportion where it would be too wide.
pub fn fit_single_line<F: Fn(&str, u32) -> (u32, u32)>(
    text: &str,
    measure: &F,
    max_width: u32,
    max_height: u32,
) -> (b: TextBlock)
    requires
        is_metric(*measure),
    ensures
        fits_single_line(b, *measure, text@, max_width as int, max_height as int),
{
    let size = measure(text, max_height);
    proof {
        lemma_size_of(*measure, text, max_height, size);
    }
    let mut scale = max_height;
    if size.0 != 0 {
        proof {
            lemma_product_fits(size.1, max_width);
        }
        let estimate: u64 = (size.1 as u64 * max_width as u64) / size.0 as u64;
        if estimate < max_height as u64 {
            scale = estimate as u32;
        }
    }
    let mut lines: Vec<String> = Vec::new();
    lines.push(text.to_owned());
    let (widths, width) = measure_widths(&lines, measure, scale);
    TextBlock { lines, widths, scale, line_height: scale, width, height: scale }
}

/// `out` is what `d` may give for drawing `line` on `onto`.
pub open spec fn draw_step<D: Fn(&Raster, &str, u32, u32, u32, Color) -> Raster>(
    d: D,
    onto: Raster,
    line: Seq<char>,
    scale: u32,
    x: u32,
    y: u32,
    color: Color,
    out: Raster,
) -> bool {
    exists|t: &str| t@ == line && #[trigger] d.ensures((&onto, t, scale, x, y, color), out)
}

/// `stages` runs from a transparent raster of the block's size through one
/// drawing per line: stage `i + 1` is stage `i` with line `i` drawn at
/// (`line_x(i)`, `line_y(i)`).
pub open spec fn draws_block<D: Fn(&Raster, &str, u32, u32, u32, Color) -> Raster>(
    d: D,
    block: &TextBlock,
    color: Color,
    stages: Seq<Raster>,
) -> bool {
    &&& stages.len() == block.lines.len() + 1
    &&& stages[0].wf()
    &&& stages[0].spec_width() == block.width
    &&& stages[0].spec_height() == block.height
    &&& forall|i: int|
        0 <= i < block.width * block.height ==> #[trigger] stages[0].pixels()[i] == (Color {
            r: 0,
            g: 0,
            b: 0,
            a: 0,
        })
    &&& forall|i: int|
        0 <= i < block.lines.len() ==> draw_step(
            d,
            #[trigger] stages[i],
            block.lines[i]@,
            block.scale,
            block.line_x(i) as u32,
            block.line_y(i) as u32,
            color,
            stages[i + 1],
        )
}

/// A deterministic painter draws two blocks laid out the same way alike:
/// their stages agree up to stage `i`.
pub proof fn lemma_draws_block_unique<D: Fn(&Raster, &str, u32, u32, u32, Color) -> Raster>(
    d: D,
    a: TextBlock,
    b: TextBlock,
    color: Color,
    sa: Seq<Raster>,
    sb: Seq<Raster>,
    i: int,
)
    requires
        is_painter(d),
        same_layout(a, b),
        draws_block(d, &a, color, sa),
        draws_block(d, &b, color, sb),
        0 <= i <= a.lines.len(),
    ensures
        sa[i].wf(),
        sb[i].wf(),
        sa[i].same_size(&sb[i]),
        sa[i].pixels() == sb[i].pixels(),
    decreases i,
{
    if i == 0 {
        sa[0].lemma_pixel_count();
        sb[0].lemma_pixel_count();
        assert(sa[0].pixels() =~= sb[0].pixels());
    } else {
        let j = i - 1;
        lemma_draws_block_unique(d, a, b, color, sa, sb, j);
        assert(draw_step(
            d,
            sa[j],
            a.lines[j]@,
            a.scale,
            a.line_x(j) as u32,
            a.line_y(j) as u32,
            color,
            sa[j + 1],
        ));
        assert(draw_step(
            d,
            sb[j],
            b.lines[j]@,
            b.scale,
            b.line_x(j) as u32,
            b.line_y(j) as u32,
            color,
            sb[j + 1],
        ));
        assert(a.widths[j] == b.widths[j]);
        let ta = choose|t: &str|
            t@ == a.lines[j]@ && #[trigger] d.ensures(
                (&sa[j], t, a.scale, a.line_x(j) as u32, a.line_y(j) as u32, color),
                sa[j + 1],
            );
        let tb = choose|t: &str|
            t@ == b.lines[j]@ && #[trigger] d.ensures(
                (&sb[j], t, b.scale, b.line_x(j) as u32, b.line_y(j) as u32, color),
                sb[j + 1],
            );
    }
}

/// Draws each line of `block` in `color` onto a transparent raster of the
/// block's size, line `i` at (`line_x(i)`, `line_y(i)`).
pub fn draw_block<D: Fn(&Raster, &str, u32, u32, u32, Color) -> Raster>(
    block: &TextBlock,
    color: Color,
    draw: &D,
) -> (r: Raster)
    requires
        block.wf(),
        is_painter(*draw),
        block.width * block.height * 4 <= usize::MAX,
    ensures
        r.wf(),
        r.spec_width() == block.width,
        r.spec_height() == block.height,
        exists|stages: Seq<Raster>|
            draws_block(*draw, block, color, stages) && stages.last() == r,
{
    proof {
        lemma_seq_max(block.widths@);
    }
    let mut canvas = Raster::transparent(block.width, block.height);
    let ghost mut stages: Seq<Raster> = seq![canvas];
    let mut i: usize = 0;
    while i < block.lines.len()
        invariant
            block.wf(),
            is_painter(*draw),
            i <= block.lines.len(),
            canvas.wf(),
            canvas.spec_width() == block.width,
            canvas.spec_height() == block.height,
            forall|j: int| 0 <= j < block.widths.len() ==> block.widths[j] <= block.width,
            stages.len() == i + 1,
            stages[i as int] == canvas,
            stages[0].wf(),
            stages[0].spec_width() == block.width,
            stages[0].spec_height() == block.height,
            forall|j: int|
                0 <= j < block.width * block.height ==> #[trigger] stages[0].pixels()[j] == (Color {
                    r: 0,
                    g: 0,
                    b: 0,
                    a: 0,
                }),
            forall|j: int|
                0 <= j < i ==> draw_step(
                    *draw,
                    #[trigger] stages[j],
                    block.lines[j]@,
                    block.scale,
                    block.line_x(j) as u32,
                    block.line_y(j) as u32,
                    color,
                    stages[j + 1],
                ),
        decreases block.lines.len() - i,
    {
        let x = block.width / 2 - block.widths[i] / 2;
        proof {
            assert(block.line_height * i <= block.line_height * (block.lines.len() - 1)) by (nonlinear_arith)
                requires
                    i < block.lines.len(),
            ;
        }
        let y = ((block.line_height as u64) * (i as u64)) as u32;
        let line = block.lines[i].as_str();
        let next = draw(&canvas, line, block.scale, x, y, color);
        proof {
            assert(draw_step(*draw, canvas, block.lines[i as int]@, block.scale, x, y, color, next));
            stages = stages.push(next);
        }
        canvas = next;
        i = i + 1;
    }
    proof {
        assert(draws_block(*draw, block, color, stages));
        assert(stages.last() == canvas);
    }
    canvas
}

} // verus!
