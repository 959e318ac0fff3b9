use vstd::prelude::*;

use crate::color::{average_color, mean_color};
use crate::date::Date;
use crate::error::RenderError;
use crate::raster::{lemma_index_in_grid, Color, Raster};

verus! {

/// The side of the square swatch that `render` paints.
pub const SWATCH_SIZE: u32 = 100;

/// Paints a `SWATCH_SIZE` square of the background's average colour, made
/// opaque, into its top-left corner; the rest of the background is kept.
/// Fails with `InvalidInput` on a background without pixels and with
/// `LayoutError` where the square does not fit. The quote, author and date
/// are not drawn.
pub fn render(background: &Raster, _quote: &str, _author: &str, _date: &Date) -> (r: Result<
    Raster,
    RenderError,
>)
    requires
        background.wf(),
    ensures
        background.pixels().len() == 0 ==> r == Err::<Raster, RenderError>(RenderError::InvalidInput),
        background.pixels().len() > 0 && (background.spec_width() < SWATCH_SIZE
            || background.spec_height() < SWATCH_SIZE) ==> r == Err::<Raster, RenderError>(
            RenderError::LayoutError,
        ),
        background.pixels().len() > 0 && background.spec_width() >= SWATCH_SIZE
            && background.spec_height() >= SWATCH_SIZE ==> r is Ok,
        r matches Ok(image) ==> {
            let mean = mean_color(background.pixels());
            &&& image.wf()
            &&& image.same_size(background)
            &&& forall|px: int, py: int|
                0 <= px < background.spec_width() && 0 <= py < background.spec_height()
                    ==> #[trigger] image.pixel_at(px, py) == if px < SWATCH_SIZE && py < SWATCH_SIZE {
                    Color { r: mean.r, g: mean.g, b: mean.b, a: 255 }
                } else {
                    background.pixel_at(px, py)
                }
        },
{
    let mean = match average_color(background) {
        Ok(c) => c,
        Err(e) => {
            return Err(e);
        },
    };
    if background.width() < SWATCH_SIZE || background.height() < SWATCH_SIZE {
        return Err(RenderError::LayoutError);
    }
    let swatch = Raster::filled(
        SWATCH_SIZE,
        SWATCH_SIZE,
        Color { r: mean.r, g: mean.g, b: mean.b, a: 255 },
    );
    let mut image = background.copy();
    image.overlay(&swatch, 0, 0);
    proof {
        assert forall|px: int, py: int|
            0 <= px < background.spec_width() && 0 <= py < background.spec_height() && px
                < SWATCH_SIZE && py < SWATCH_SIZE implies #[trigger] image.pixel_at(px, py) == (Color {
            r: mean.r,
            g: mean.g,
            b: mean.b,
            a: 255,
        }) by {
            lemma_index_in_grid(px, py, SWATCH_SIZE as int, SWATCH_SIZE as int);
        }
    }
    Ok(image)
}

} // verus!
