use quote_bot::date::Date;
use quote_bot::error::RenderError;
use quote_bot::fit::fit_lines;
use quote_bot::raster::{Color, Raster};
use quote_bot::render::{layout_for, render, render_panel, Typeface};
use quote_bot::renderer;

fn half_mono(t: &str, s: u32) -> (u32, u32) {
    (t.chars().count() as u32 * s / 2, s)
}

fn mono(t: &str, s: u32) -> (u32, u32) {
    (t.chars().count() as u32 * s, s)
}

/// Paints a solid box the size of the text where it is drawn.
fn boxes(onto: &Raster, t: &str, s: u32, x: u32, y: u32, c: Color) -> Raster {
    let (w, h) = half_mono(t, s);
    let mut out = onto.copy();
    out.overlay(&Raster::filled(w, h, c), x, y);
    out
}

fn face() -> Typeface<fn(&str, u32) -> (u32, u32), fn(&Raster, &str, u32, u32, u32, Color) -> Raster> {
    Typeface { measure: half_mono, draw: boxes }
}

fn background(width: u32, height: u32) -> Raster {
    let mut data = Vec::new();
    for i in 0..width * height {
        data.extend_from_slice(&[(i % 251) as u8, 40, 90]);
    }
    Raster::from_rgb(width, height, &data).unwrap()
}

fn june_29() -> Date {
    Date { year: 2023, month: 6, day: 29 }
}

#[test]
fn layout_fractions() {
    let l = layout_for(600, 400).unwrap();
    assert_eq!(l.margin, 80);
    assert_eq!(l.inner_width, 440);
    assert_eq!(l.quote_height, 180);
    assert_eq!(l.quote_padding, 20);
    assert_eq!(l.attribution_top, 80 + 180 + 10);
    assert_eq!(l.attribution_height, 34);
    assert_eq!(l.attribution_padding, 10);
}

#[test]
fn small_backgrounds_have_no_layout() {
    assert!(matches!(layout_for(10, 4), Err(RenderError::LayoutError)));
    assert!(matches!(layout_for(2, 100), Err(RenderError::LayoutError)));
    assert!(matches!(layout_for(0, 0), Err(RenderError::LayoutError)));
}

#[test]
fn render_keeps_the_background_size() {
    let bg = background(600, 400);
    let image = render(&bg, "Hello world", "- Jane Doe", &june_29(), &face(), &face()).unwrap();
    assert_eq!(image.width(), 600);
    assert_eq!(image.height(), 400);
    assert_eq!(image.as_bytes().len(), 600 * 400 * 4);
}

#[test]
fn render_leaves_the_margins_alone() {
    let bg = background(600, 400);
    let image = render(&bg, "Hello world", "Jane", &june_29(), &face(), &face()).unwrap();
    for (x, y) in [(0u32, 0u32), (599, 399), (10, 200), (590, 100), (300, 5), (300, 395)] {
        let i = (y * 600 + x) as usize;
        assert_eq!(image.pixel(i), bg.pixel(i));
    }
    // the centre of the quote panel is covered
    let centre = (150 * 600 + 300) as usize;
    assert_ne!(image.pixel(centre), bg.pixel(centre));
}

#[test]
fn render_rejects_a_background_too_small_for_the_margins() {
    let bg = background(10, 4);
    let r = render(&bg, "Hello", "Jane", &june_29(), &face(), &face());
    assert!(matches!(r, Err(RenderError::LayoutError)));
    let narrow = background(30, 200);
    let r = render(&narrow, "Hello", "Jane", &june_29(), &face(), &face());
    assert!(matches!(r, Err(RenderError::LayoutError)));
}

#[test]
fn render_rejects_empty_background_and_bad_date() {
    let empty = Raster::filled(0, 0, Color { r: 0, g: 0, b: 0, a: 255 });
    let r = render(&empty, "Hello", "Jane", &june_29(), &face(), &face());
    assert!(matches!(r, Err(RenderError::InvalidInput)));
    let bg = background(600, 400);
    let bad = Date { year: 2023, month: 2, day: 30 };
    let r = render(&bg, "Hello", "Jane", &bad, &face(), &face());
    assert!(matches!(r, Err(RenderError::InvalidInput)));
}

#[test]
fn render_reports_a_panel_that_does_not_fit() {
    // a font twice as wide leaves a single token wider than its panel
    let wide: Typeface<fn(&str, u32) -> (u32, u32), fn(&Raster, &str, u32, u32, u32, Color) -> Raster> =
        Typeface { measure: mono, draw: boxes };
    let bg = background(600, 400);
    let r = render(&bg, "Pneumonoultramicroscopicsilicovolcanoconiosis", "Jane", &june_29(), &wide, &face());
    assert!(matches!(r, Err(RenderError::LayoutError)));
}

#[test]
fn panel_is_centred_on_a_transparent_canvas() {
    let block = fit_lines("aaa bbb", &mono, 64, 130, 5).unwrap();
    let white = Color { r: 255, g: 255, b: 255, a: 255 };
    let black = Color { r: 0, g: 0, b: 0, a: 255 };
    let canvas = render_panel(&block, black, white, 100, 60, 2, &boxes).unwrap();
    assert_eq!((canvas.width(), canvas.height()), (100, 60));
    // panel 68 x 40 at (16, 10)
    assert_eq!(canvas.pixel(0), Color { r: 0, g: 0, b: 0, a: 0 });
    assert_eq!(canvas.pixel(10 * 100 + 15), Color { r: 0, g: 0, b: 0, a: 0 });
    assert_eq!(canvas.pixel(10 * 100 + 16), white);
    assert_eq!(canvas.pixel(12 * 100 + 18), black);
    assert_eq!(canvas.pixel(49 * 100 + 83), white);
    assert_eq!(canvas.pixel(50 * 100 + 83), Color { r: 0, g: 0, b: 0, a: 0 });
    assert!(matches!(
        render_panel(&block, black, white, 67, 60, 2, &boxes),
        Err(RenderError::LayoutError)
    ));
    assert!(matches!(
        render_panel(&block, black, white, 100, 39, 2, &boxes),
        Err(RenderError::LayoutError)
    ));
}

#[test]
fn swatch_of_the_average_colour() {
    let bg = Raster::filled(120, 110, Color { r: 30, g: 60, b: 90, a: 255 });
    let image = renderer::render(&bg, "q", "a", &june_29()).unwrap();
    assert_eq!((image.width(), image.height()), (120, 110));
    assert_eq!(image.pixel(0), Color { r: 30, g: 60, b: 90, a: 255 });
    let small = Raster::filled(99, 200, Color { r: 1, g: 1, b: 1, a: 255 });
    assert!(matches!(renderer::render(&small, "q", "a", &june_29()), Err(RenderError::LayoutError)));
    let empty = Raster::filled(0, 200, Color { r: 1, g: 1, b: 1, a: 255 });
    assert!(matches!(renderer::render(&empty, "q", "a", &june_29()), Err(RenderError::InvalidInput)));
}

#[test]
fn swatch_covers_only_the_corner() {
    let bg = background(150, 120);
    let image = renderer::render(&bg, "q", "a", &june_29()).unwrap();
    let avg = quote_bot::color::average_color(&bg).unwrap();
    let opaque = Color { r: avg.r, g: avg.g, b: avg.b, a: 255 };
    assert_eq!(image.pixel(99 * 150 + 99), opaque);
    assert_eq!(image.pixel(99 * 150 + 100), bg.pixel(99 * 150 + 100));
    assert_eq!(image.pixel(100 * 150), bg.pixel(100 * 150));
}

#[test]
fn error_messages() {
    assert_eq!(RenderError::InvalidInput.message(), "invalid input");
    assert_eq!(RenderError::LayoutError.message(), "layout error");
    assert_eq!(RenderError::RenderError.message(), "render error");
}

#[test]
fn odd_panel_leans_to_the_top_left() {
    let block = quote_bot::fit::fit_single_line("a", &mono, 8, 1);
    assert_eq!((block.width, block.height), (1, 1));
    let white = Color { r: 255, g: 255, b: 255, a: 255 };
    let clear = Color { r: 0, g: 0, b: 0, a: 0 };
    let canvas = render_panel(&block, white, white, 10, 10, 1, &boxes).unwrap();
    // a 3 x 3 panel in a 10 x 10 raster starts at (3, 3)
    assert_eq!(canvas.pixel(3 * 10 + 3), white);
    assert_eq!(canvas.pixel(5 * 10 + 5), white);
    assert_eq!(canvas.pixel(2 * 10 + 3), clear);
    assert_eq!(canvas.pixel(3 * 10 + 2), clear);
    assert_eq!(canvas.pixel(6 * 10 + 6), clear);
    assert_eq!(canvas.pixel(5 * 10 + 6), clear);
}

#[test]
fn padding_that_fills_the_region_is_a_layout_error() {
    let block = quote_bot::fit::fit_single_line("", &mono, 8, 1);
    let white = Color { r: 255, g: 255, b: 255, a: 255 };
    assert!(matches!(render_panel(&block, white, white, 2, 2, 1, &boxes), Err(RenderError::LayoutError)));
    assert!(matches!(render_panel(&block, white, white, 3, 2, 1, &boxes), Err(RenderError::LayoutError)));
    assert!(render_panel(&block, white, white, 3, 3, 1, &boxes).is_ok());
}

#[test]
fn equal_inputs_render_equal_images() {
    let bg = background(600, 400);
    let a = render(&bg, "Hello world", "Jane", &june_29(), &face(), &face()).unwrap();
    let b = render(&bg, "Hello world", "Jane", &june_29(), &face(), &face()).unwrap();
    assert_eq!(a.as_bytes(), b.as_bytes());
}
