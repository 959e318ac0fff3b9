use quote_bot::color::average_color;
use quote_bot::error::RenderError;
use quote_bot::raster::{Color, Raster};

fn rgba(r: u8, g: u8, b: u8, a: u8) -> Color {
    Color { r, g, b, a }
}

fn raster_of(width: u32, height: u32, pixels: &[Color]) -> Raster {
    let mut data = Vec::new();
    for p in pixels {
        data.extend_from_slice(&[p.r, p.g, p.b, p.a]);
    }
    Raster::from_rgba(width, height, data).unwrap()
}

#[test]
fn average_of_uniform_raster_is_its_colour() {
    let c = rgba(12, 200, 77, 255);
    let r = Raster::filled(7, 5, c);
    assert_eq!(average_color(&r), Ok(c));
    let translucent = rgba(1, 2, 3, 4);
    assert_eq!(average_color(&Raster::filled(3, 3, translucent)), Ok(translucent));
}

#[test]
fn average_rounds_down() {
    let r = raster_of(
        3,
        1,
        &[rgba(0, 0, 0, 255), rgba(255, 255, 255, 255), rgba(10, 20, 31, 255)],
    );
    // sums 265, 275, 286 over 3 pixels
    assert_eq!(average_color(&r), Ok(rgba(88, 91, 95, 255)));
}

#[test]
fn average_ignores_pixel_order() {
    let pixels = [
        rgba(1, 2, 3, 255),
        rgba(250, 0, 9, 255),
        rgba(17, 99, 200, 255),
        rgba(0, 255, 128, 255),
        rgba(64, 64, 64, 255),
        rgba(3, 1, 2, 255),
    ];
    let mut shuffled = pixels;
    shuffled.reverse();
    shuffled.swap(0, 3);
    let a = average_color(&raster_of(3, 2, &pixels));
    let b = average_color(&raster_of(3, 2, &shuffled));
    let c = average_color(&raster_of(2, 3, &shuffled));
    assert_eq!(a, b);
    assert_eq!(a, c);
}

#[test]
fn average_of_empty_raster_is_invalid() {
    assert_eq!(average_color(&Raster::filled(0, 4, rgba(1, 1, 1, 1))), Err(RenderError::InvalidInput));
    assert_eq!(average_color(&Raster::filled(4, 0, rgba(1, 1, 1, 1))), Err(RenderError::InvalidInput));
}

#[test]
fn large_raster_average_does_not_overflow() {
    let c = rgba(255, 255, 255, 255);
    let r = Raster::filled(4000, 3000, c);
    assert_eq!(average_color(&r), Ok(c));
}

#[test]
fn buffers_of_the_wrong_length_are_refused() {
    assert!(matches!(Raster::from_rgba(2, 2, vec![0; 15]), Err(RenderError::InvalidInput)));
    assert!(matches!(Raster::from_rgb(2, 2, &vec![0; 13]), Err(RenderError::InvalidInput)));
    assert!(Raster::from_rgba(2, 2, vec![0; 16]).is_ok());
}

#[test]
fn rgb_pixels_become_opaque() {
    let r = Raster::from_rgb(2, 1, &vec![1, 2, 3, 4, 5, 6]).unwrap();
    assert_eq!(r.width(), 2);
    assert_eq!(r.height(), 1);
    assert_eq!(r.pixel(0), rgba(1, 2, 3, 255));
    assert_eq!(r.pixel(1), rgba(4, 5, 6, 255));
    assert_eq!(r.as_bytes(), &vec![1, 2, 3, 255, 4, 5, 6, 255]);
}

#[test]
fn overlay_opaque_replaces_and_transparent_keeps() {
    let mut base = Raster::filled(4, 4, rgba(10, 10, 10, 255));
    let top = raster_of(2, 1, &[rgba(200, 100, 50, 255), rgba(0, 0, 0, 0)]);
    base.overlay(&top, 1, 2);
    assert_eq!(base.width(), 4);
    assert_eq!(base.height(), 4);
    assert_eq!(base.pixel(2 * 4 + 1), rgba(200, 100, 50, 255));
    assert_eq!(base.pixel(2 * 4 + 2), rgba(10, 10, 10, 255));
    assert_eq!(base.pixel(0), rgba(10, 10, 10, 255));
}

#[test]
fn overlay_blends_translucent_pixels() {
    let mut base = Raster::filled(1, 1, rgba(0, 0, 0, 255));
    let top = Raster::filled(1, 1, rgba(255, 255, 255, 153));
    base.overlay(&top, 0, 0);
    let p = base.pixel(0);
    assert_ne!(p, rgba(0, 0, 0, 255));
    assert_ne!(p, rgba(255, 255, 255, 153));
    assert!(p.r >= 150 && p.r <= 155);
    assert_eq!(p.a, 255);
}

#[test]
fn overlay_is_clipped_to_the_bottom_raster() {
    let mut base = Raster::filled(2, 2, rgba(0, 0, 0, 255));
    let top = Raster::filled(3, 3, rgba(9, 9, 9, 255));
    base.overlay(&top, 1, 1);
    assert_eq!(base.as_bytes().len(), 16);
    assert_eq!(base.pixel(3), rgba(9, 9, 9, 255));
    assert_eq!(base.pixel(0), rgba(0, 0, 0, 255));
    assert_eq!(base.pixel(1), rgba(0, 0, 0, 255));
}

#[test]
fn copy_keeps_pixels() {
    let r = raster_of(2, 1, &[rgba(1, 2, 3, 4), rgba(5, 6, 7, 8)]);
    let c = r.copy();
    assert_eq!(c.as_bytes(), r.as_bytes());
    assert_eq!((c.width(), c.height()), (2, 1));
}
