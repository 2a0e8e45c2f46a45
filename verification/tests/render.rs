use labelrender::error::Error;
use labelrender::layout::{FontKind, FontMetrics, GlyphRaster, LineRaster, TextOptions, TextRaster};
use labelrender::ops::Op;
use labelrender::render::{Render, RenderConfig};

fn cfg(min_x: usize, max_x: usize, y: usize) -> RenderConfig {
    RenderConfig { min_x, max_x, y }
}

fn opts(vcentre: bool) -> TextOptions {
    TextOptions { font: FontKind::Outline, size: 24, vcentre }
}

fn metrics(line_height: usize, line_gap: usize) -> FontMetrics {
    FontMetrics { ascent: line_height, line_height, line_gap }
}

/// A glyph whose ink is a filled w-by-h block at the line origin.
fn block_glyph(advance: usize, w: u32, h: u32) -> GlyphRaster {
    let mut pixels = Vec::new();
    for px in 0..w {
        for py in 0..h {
            pixels.push((px, py));
        }
    }
    GlyphRaster { advance, left: 0, top: 0, pixels }
}

fn one_line(glyphs: Vec<GlyphRaster>, line_height: usize) -> TextRaster {
    TextRaster { metrics: metrics(line_height, 0), lines: vec![LineRaster { glyphs }] }
}

#[test]
fn default_config_matches_the_stock_geometry() {
    assert_eq!(RenderConfig::default(), cfg(32, 1024, 64));
}

#[test]
fn new_render_uses_the_configured_size() {
    let r = Render::new(cfg(32, 1024, 64)).unwrap();
    assert_eq!(r.display.size(), (32, 64));
    let r = Render::new(cfg(0, 100, 8)).unwrap();
    assert_eq!(r.display.size(), (0, 8));
    assert_eq!(Render::new(cfg(32, 1024, 0)).unwrap_err(), Error::OutOfBounds);
}

#[test]
fn pad_advances_and_grows_without_drawing() {
    let mut r = Render::new(cfg(0, 100, 8)).unwrap();
    r.render(&[Op::Pad(5)]).unwrap();
    assert_eq!(r.display.size(), (5, 8));
    for x in 0..5 {
        for y in 0..8 {
            assert_eq!(r.display.get(x, y).unwrap(), false);
        }
    }
}

#[test]
fn pad_past_the_ceiling_is_rejected() {
    let mut r = Render::new(cfg(0, 100, 8)).unwrap();
    assert_eq!(r.render(&[Op::Pad(101)]).unwrap_err(), Error::WidthExceeded);
    assert_eq!(r.display.size(), (0, 8));
}

#[test]
fn pad_inside_an_already_wide_canvas_is_fine() {
    let mut r = Render::new(cfg(200, 100, 8)).unwrap();
    r.render(&[Op::Pad(150)]).unwrap();
    assert_eq!(r.display.size(), (200, 8));
}

#[test]
fn text_draws_at_the_cursor() {
    let mut r = Render::new(cfg(0, 100, 8)).unwrap();
    let raster = one_line(vec![block_glyph(4, 4, 2)], 2);
    r.render(&[Op::Pad(5), Op::Text { raster, opts: opts(false) }]).unwrap();
    // leftmost ink at the cursor, canvas as wide as pad + advance
    assert_eq!(r.display.size(), (9, 8));
    for x in 0..9 {
        for y in 0..8 {
            let expect = (5..9).contains(&x) && y < 2;
            assert_eq!(r.display.get(x, y).unwrap(), expect, "pixel {} {}", x, y);
        }
    }
}

#[test]
fn text_advance_is_the_widest_line() {
    let mut r = Render::new(cfg(0, 100, 8)).unwrap();
    let raster = TextRaster {
        metrics: metrics(3, 1),
        lines: vec![
            LineRaster { glyphs: vec![block_glyph(2, 1, 1)] },
            LineRaster { glyphs: vec![block_glyph(4, 1, 1), block_glyph(3, 1, 1)] },
        ],
    };
    let w = r.render_text(0, &raster, &opts(false)).unwrap();
    assert_eq!(w, 7);
    // second line drawn one line height below the first
    assert_eq!(r.display.get(0, 0).unwrap(), true);
    assert_eq!(r.display.get(0, 3).unwrap(), true);
}

#[test]
fn empty_text_advances_nothing() {
    let mut r = Render::new(cfg(0, 100, 8)).unwrap();
    let raster = one_line(vec![], 2);
    let w = r.render_text(0, &raster, &opts(false)).unwrap();
    assert_eq!(w, 0);
    assert_eq!(r.display.size(), (0, 8));
}

#[test]
fn vertical_centring_offsets_the_block() {
    let mut r = Render::new(cfg(0, 100, 16)).unwrap();
    // one line of height 4: start row = 16/2 - 4/2 = 6
    let raster = one_line(vec![block_glyph(1, 1, 1)], 4);
    r.render_text(0, &raster, &opts(true)).unwrap();
    assert_eq!(r.display.get(0, 6).unwrap(), true);
    for y in 0..16 {
        if y != 6 {
            assert_eq!(r.display.get(0, y).unwrap(), false);
        }
    }
}

#[test]
fn an_oversized_centred_block_is_out_of_bounds() {
    let mut r = Render::new(cfg(0, 100, 8)).unwrap();
    let raster = one_line(vec![block_glyph(1, 1, 1)], 20);
    assert_eq!(r.render_text(0, &raster, &opts(true)).unwrap_err(), Error::OutOfBounds);
    assert_eq!(r.display.size(), (0, 8));
}

#[test]
fn malformed_metrics_are_a_font_load_failure() {
    let mut r = Render::new(cfg(0, 100, 8)).unwrap();
    let no_lines = TextRaster { metrics: metrics(4, 0), lines: vec![] };
    assert_eq!(r.render_text(0, &no_lines, &opts(false)).unwrap_err(), Error::FontLoadFailure);
    let gap_above_height = TextRaster {
        metrics: FontMetrics { ascent: 2, line_height: 2, line_gap: 3 },
        lines: vec![LineRaster { glyphs: vec![] }],
    };
    assert_eq!(
        r.render_text(0, &gap_above_height, &opts(false)).unwrap_err(),
        Error::FontLoadFailure
    );
}

#[test]
fn ink_below_the_canvas_is_out_of_bounds() {
    let mut r = Render::new(cfg(0, 100, 8)).unwrap();
    let glyph = GlyphRaster { advance: 2, left: 0, top: 7, pixels: vec![(0, 0), (0, 1)] };
    let raster = one_line(vec![glyph], 2);
    assert_eq!(r.render_text(0, &raster, &opts(false)).unwrap_err(), Error::OutOfBounds);
    // the failing run contributed nothing
    assert_eq!(r.display.size(), (0, 8));
}

#[test]
fn ink_left_of_the_canvas_is_out_of_bounds() {
    let mut r = Render::new(cfg(0, 100, 8)).unwrap();
    let glyph = GlyphRaster { advance: 2, left: -3, top: 0, pixels: vec![(0, 0)] };
    let raster = one_line(vec![glyph], 2);
    assert_eq!(r.render_text(1, &raster, &opts(false)).unwrap_err(), Error::OutOfBounds);
}

#[test]
fn ink_past_the_ceiling_exceeds_the_width() {
    let mut r = Render::new(cfg(0, 10, 8)).unwrap();
    let raster = one_line(vec![block_glyph(4, 4, 1)], 2);
    assert_eq!(
        r.render_text(8, &raster, &opts(false)).unwrap_err(),
        Error::WidthExceeded
    );
    assert_eq!(r.display.size(), (0, 8));
}

#[test]
fn barcode_is_an_unsupported_operation() {
    let mut r = Render::new(cfg(0, 100, 8)).unwrap();
    let e = r
        .render(&[Op::Pad(3), Op::Barcode(String::from("12345")), Op::Pad(9)])
        .unwrap_err();
    assert_eq!(e, Error::UnsupportedOperation);
    // the canvas keeps the state from before the barcode: the pad's growth
    assert_eq!(r.display.size(), (3, 8));
}

#[test]
fn operations_apply_strictly_in_order() {
    let mut r = Render::new(cfg(0, 100, 8)).unwrap();
    let a = one_line(vec![block_glyph(2, 1, 1)], 2);
    let b = one_line(vec![block_glyph(2, 1, 1)], 2);
    r.render(&[
        Op::Text { raster: a, opts: opts(false) },
        Op::Pad(3),
        Op::Text { raster: b, opts: opts(false) },
    ])
    .unwrap();
    // first run at column 0, second at column 2 + 3 = 5
    assert_eq!(r.display.get(0, 0).unwrap(), true);
    assert_eq!(r.display.get(5, 0).unwrap(), true);
    assert_eq!(r.display.get(2, 0).unwrap(), false);
    assert_eq!(r.display.size(), (6, 8));
}

#[test]
fn bytes_exports_the_finished_canvas() {
    let mut r = Render::new(cfg(0, 100, 8)).unwrap();
    r.render(&[Op::Pad(1), Op::Text { raster: one_line(vec![block_glyph(1, 1, 1)], 1), opts: opts(false) }])
        .unwrap();
    assert_eq!(r.display.size(), (2, 8));
    assert_eq!(r.bytes(), vec![0b0000_0010, 0, 0, 0, 0, 0, 0, 0]);
}
