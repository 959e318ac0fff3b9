use quote_bot::error::RenderError;
use quote_bot::fit::{draw_block, fit_lines, fit_single_line};
use quote_bot::raster::{Color, Raster};

fn mono(t: &str, s: u32) -> (u32, u32) {
    (t.chars().count() as u32 * s, s)
}

fn keep(onto: &Raster, _t: &str, _s: u32, _x: u32, _y: u32, _c: Color) -> Raster {
    onto.copy()
}

#[test]
fn six_lines_are_cut_to_five_with_an_ellipsis() {
    // max height 130 over 5 lines: line height 20, gap 4, scale 16;
    // each word is 16 px per character, 4 characters fit a 64 px line
    let text = "aaa bbb ccc ddd eee fff";
    let block = fit_lines(text, &mono, 64, 130, 5).unwrap();
    assert_eq!(block.line_height, 20);
    assert_eq!(block.scale, 16);
    assert_eq!(
        block.lines,
        vec!["aaa ", "bbb ", "ccc ", "ddd ", "eee\u{2026}"]
    );
    assert_eq!(block.height, 20 * 5 - 4);
    assert_eq!(block.widths, vec![64, 64, 64, 64, 64]);
    assert_eq!(block.width, 64);
}

#[test]
fn a_few_lines_stay_at_the_smallest_scale() {
    let block = fit_lines("aaa bbb", &mono, 64, 130, 5).unwrap();
    assert_eq!(block.lines, vec!["aaa ", "bbb"]);
    assert_eq!(block.scale, 16);
    assert_eq!(block.height, 36);
    assert_eq!(block.widths, vec![64, 48]);
    assert_eq!(block.width, 64);
}

#[test]
fn one_line_grows_to_the_box() {
    // at the full height of 100 the line is 300 wide
    let block = fit_lines("abc", &mono, 300, 100, 5).unwrap();
    assert_eq!(block.lines, vec!["abc"]);
    assert_eq!(block.scale, 100);
    assert_eq!(block.height, 100);
    assert_eq!(block.width, 300);
    let narrow = fit_lines("abc", &mono, 150, 100, 5).unwrap();
    assert_eq!(narrow.scale, 50);
    assert_eq!(narrow.height, 50);
    assert_eq!(narrow.width, 150);
}

#[test]
fn too_low_a_box_is_a_layout_error() {
    assert!(matches!(fit_lines("abc", &mono, 300, 6, 5), Err(RenderError::LayoutError)));
    assert!(fit_lines("abc", &mono, 300, 7, 5).is_ok());
}

#[test]
fn single_line_shrinks_to_width() {
    let block = fit_single_line("Jane Doe, 29/06/2023", &mono, 420, 14);
    assert_eq!(block.scale, 14);
    assert_eq!(block.width, 280);
    let block = fit_single_line("Jane Doe, 29/06/2023", &mono, 200, 14);
    assert_eq!(block.scale, 10);
    assert_eq!(block.height, 10);
    assert_eq!(block.width, 200);
}

#[test]
fn empty_measure_keeps_full_height() {
    let block = fit_single_line("", &mono, 200, 14);
    assert_eq!(block.scale, 14);
    assert_eq!(block.width, 0);
}

#[test]
fn block_is_drawn_line_by_line_at_its_size() {
    let block = fit_lines("aaa bbb", &mono, 64, 130, 5).unwrap();
    let calls = std::cell::RefCell::new(Vec::new());
    let record = |onto: &Raster, t: &str, s: u32, x: u32, y: u32, _c: Color| {
        calls.borrow_mut().push((t.to_string(), s, x, y));
        onto.copy()
    };
    let r = draw_block(&block, Color { r: 1, g: 2, b: 3, a: 255 }, &record);
    assert_eq!((r.width(), r.height()), (64, 36));
    assert_eq!(
        calls.into_inner(),
        vec![("aaa ".to_string(), 16, 0, 0), ("bbb".to_string(), 16, 8, 20)]
    );
    let plain = draw_block(&block, Color { r: 1, g: 2, b: 3, a: 255 }, &keep);
    assert_eq!(plain.pixel(0), Color { r: 0, g: 0, b: 0, a: 0 });
}

#[test]
fn a_box_without_width_is_a_layout_error() {
    assert!(matches!(fit_lines("abc", &mono, 0, 100, 5), Err(RenderError::LayoutError)));
    assert!(fit_lines("abc", &mono, 1, 100, 5).is_ok());
}
