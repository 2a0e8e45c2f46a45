use vstd::prelude::*;

use crate::error::Error;
use crate::framebuffer::Framebuffer;

verus! {

/// Which font resource a text run is rasterized with.
#[derive(Clone, Copy, Debug, PartialEq, Eq, Structural)]
pub enum FontKind {
    /// A fixed-cell bitmap font.
    Bitmap,
    /// A scalable outline font.
    Outline,
}

/// Layout options of one text run.
#[derive(Clone, Copy, Debug)]
pub struct TextOptions {
    /// Which font the run was rasterized with.
    pub font: FontKind,
    /// Point size used for outline fonts.
    pub size: u32,
    /// Centre the text block vertically on the canvas.
    pub vcentre: bool,
}

/// Vertical font metrics at the chosen scale, rounded to whole pixels.
#[derive(Clone, Copy, Debug)]
pub struct FontMetrics {
    /// Ascent above the baseline, rounded up.
    pub ascent: usize,
    /// Ascent minus descent plus line gap, rounded up.
    pub line_height: usize,
    /// Gap between consecutive lines, rounded down.
    pub line_gap: usize,
}

/// One rasterized glyph of a line, reduced to plain pixel data.
///
/// The coverage mask lists the offsets inside the glyph's pixel bounding box
/// whose coverage passed the binary threshold; anti-aliased intensities have
/// already been collapsed to on/off.
#[derive(Clone, Debug)]
pub struct GlyphRaster {
    /// Horizontal advance of the glyph, rounded up.
    pub advance: usize,
    /// x of the pixel bounding box, relative to the line's left edge.
    pub left: i32,
    /// y of the pixel bounding box, relative to the line's top edge.
    pub top: i32,
    /// Offsets of the covered pixels inside the bounding box.
    pub pixels: Vec<(u32, u32)>,
}

/// The rasterized glyphs of one line of text, in left-to-right order.
#[derive(Clone, Debug)]
pub struct LineRaster {
    pub glyphs: Vec<GlyphRaster>,
}

/// A whole text run rasterized into plain data: the font's vertical metrics
/// and one glyph list per line of the string.
#[derive(Clone, Debug)]
pub struct TextRaster {
    pub metrics: FontMetrics,
    pub lines: Vec<LineRaster>,
}

impl TextRaster {
    /// Metric sanity: splitting a string on line breaks always yields at
    /// least one line, and the line gap never exceeds the line height, so a
    /// block's height is never negative.
    pub open spec fn wf(self) -> bool {
        &&& self.lines@.len() >= 1
        &&& self.metrics.line_gap <= self.metrics.line_height
    }

    /// Total block height: `line_height` per line, with the one trailing
    /// line gap discounted.
    pub open spec fn block_height(self) -> int {
        self.metrics.line_height * self.lines@.len() - self.metrics.line_gap
    }

    /// The horizontal advance of the whole run: the widest line.
    pub open spec fn advance_width(self) -> int {
        lines_max_width(self.lines@)
    }
}

/// Sum of the glyph advances of one line.
pub open spec fn advances_sum(gs: Seq<GlyphRaster>) -> int
    decreases gs.len(),
{
    if gs.len() == 0 {
        0
    } else {
        advances_sum(gs.drop_last()) + gs.last().advance
    }
}

/// The widest line of a rasterized run, by summed advances.
pub open spec fn lines_max_width(ls: Seq<LineRaster>) -> int
    decreases ls.len(),
{
    if ls.len() == 0 {
        0
    } else {
        let rest = lines_max_width(ls.drop_last());
        let last = advances_sum(ls.last().glyphs@);
        if last > rest {
            last
        } else {
            rest
        }
    }
}

/// Canvas x of covered pixel `p` of glyph `g` for a line starting at `x`.
pub open spec fn glyph_px_x(g: GlyphRaster, x: int, p: int) -> int {
    x + g.left + g.pixels@[p].0
}

/// Canvas y of covered pixel `p` of glyph `g` for a line whose top is `line_y`.
pub open spec fn glyph_px_y(g: GlyphRaster, line_y: int, p: int) -> int {
    line_y + g.top + g.pixels@[p].1
}

/// Whether some covered pixel of `g` lands on canvas coordinate `(i, j)`.
pub open spec fn glyph_covers(g: GlyphRaster, x: int, line_y: int, i: int, j: int) -> bool {
    exists|p: int|
        0 <= p < g.pixels@.len() && i == #[trigger] glyph_px_x(g, x, p) && j == glyph_px_y(
            g,
            line_y,
            p,
        )
}

/// Whether some glyph of `line` covers canvas coordinate `(i, j)`.
pub open spec fn line_covers(line: LineRaster, x: int, line_y: int, i: int, j: int) -> bool {
    exists|gi: int|
        0 <= gi < line.glyphs@.len() && glyph_covers(#[trigger] line.glyphs@[gi], x, line_y, i, j)
}

/// Whether the run covers canvas coordinate `(i, j)`, each line placed
/// `line_height` below the one before, the first at `base_y`.
pub open spec fn text_covers(r: TextRaster, x: int, base_y: int, i: int, j: int) -> bool {
    exists|li: int|
        0 <= li < r.lines@.len() && line_covers(
            #[trigger] r.lines@[li],
            x,
            base_y + li * r.metrics.line_height,
            i,
            j,
        )
}

/// Every covered pixel of `g` lands inside the canvas rows, at a
/// non-negative column below `limit`.
pub open spec fn glyph_fits(g: GlyphRaster, x: int, line_y: int, height: int, limit: int) -> bool {
    forall|p: int|
        0 <= p < g.pixels@.len() ==> {
            &&& 0 <= #[trigger] glyph_px_x(g, x, p) < limit
            &&& 0 <= glyph_px_y(g, line_y, p) < height
        }
}

/// Every glyph of the line fits.
pub open spec fn line_fits(line: LineRaster, x: int, line_y: int, height: int, limit: int) -> bool {
    forall|gi: int|
        0 <= gi < line.glyphs@.len() ==> glyph_fits(
            #[trigger] line.glyphs@[gi],
            x,
            line_y,
            height,
            limit,
        )
}

/// Every line of the run fits at its own vertical position.
pub open spec fn text_fits(r: TextRaster, x: int, base_y: int, height: int, limit: int) -> bool {
    forall|li: int|
        0 <= li < r.lines@.len() ==> line_fits(
            #[trigger] r.lines@[li],
            x,
            base_y + li * r.metrics.line_height,
            height,
            limit,
        )
}

/// Some covered pixel of `g` misses the canvas rows or lies left of it.
pub open spec fn glyph_row_miss(g: GlyphRaster, x: int, line_y: int, height: int) -> bool {
    exists|p: int|
        0 <= p < g.pixels@.len() && (#[trigger] glyph_px_x(g, x, p) < 0 || !(0 <= glyph_px_y(
            g,
            line_y,
            p,
        ) < height))
}

/// Some covered pixel of `g` lies at or past the width limit.
pub open spec fn glyph_wide(g: GlyphRaster, x: int, limit: int) -> bool {
    exists|p: int| 0 <= p < g.pixels@.len() && #[trigger] glyph_px_x(g, x, p) >= limit
}

/// Some pixel of the line misses the canvas rows or lies left of it.
pub open spec fn line_row_miss(line: LineRaster, x: int, line_y: int, height: int) -> bool {
    exists|gi: int|
        0 <= gi < line.glyphs@.len() && glyph_row_miss(
            #[trigger] line.glyphs@[gi],
            x,
            line_y,
            height,
        )
}

/// Some pixel of the line lies at or past the width limit.
pub open spec fn line_wide(line: LineRaster, x: int, limit: int) -> bool {
    exists|gi: int|
        0 <= gi < line.glyphs@.len() && glyph_wide(#[trigger] line.glyphs@[gi], x, limit)
}

/// Validates every covered pixel of one glyph against the canvas rows and
/// the width limit, before anything is drawn.
pub fn check_glyph(g: &GlyphRaster, x: usize, line_y: i128, height: usize, limit: usize) -> (r:
    Result<(), Error>)
    requires
        -0x1_0000_0000_0000 <= line_y <= 0x1_0000_0000_0000_0000_0000,
    ensures
        match r {
            Ok(()) => glyph_fits(*g, x as int, line_y as int, height as int, limit as int),
            Err(e) => {
                &&& !glyph_fits(*g, x as int, line_y as int, height as int, limit as int)
                &&& (e == Error::OutOfBounds || e == Error::WidthExceeded)
                &&& (e == Error::OutOfBounds ==> glyph_row_miss(
                    *g,
                    x as int,
                    line_y as int,
                    height as int,
                ))
                &&& (e == Error::WidthExceeded ==> glyph_wide(*g, x as int, limit as int))
            },
        },
{
    let n = g.pixels.len();
    let mut p: usize = 0;
    while p < n
        invariant
            n == g.pixels@.len(),
            p <= n,
            -0x1_0000_0000_0000 <= line_y <= 0x1_0000_0000_0000_0000_0000,
            forall|p2: int|
                0 <= p2 < p ==> {
                    &&& 0 <= #[trigger] glyph_px_x(*g, x as int, p2) < limit
                    &&& 0 <= glyph_px_y(*g, line_y as int, p2) < height
                },
        decreases n - p,
    {
        let (px, py) = g.pixels[p];
        let fx = x as i128 + g.left as i128 + px as i128;
        let fy = line_y + g.top as i128 + py as i128;
        proof {
            assert(fx == glyph_px_x(*g, x as int, p as int));
            assert(fy == glyph_px_y(*g, line_y as int, p as int));
        }
        if fx < 0 || fy < 0 || fy >= height as i128 {
            return Err(Error::OutOfBounds);
        }
        if fx >= limit as i128 {
            return Err(Error::WidthExceeded);
        }
        p = p + 1;
    }
    Ok(())
}

/// Validates every glyph of one line, before anything is drawn.
pub fn check_line(line: &LineRaster, x: usize, line_y: i128, height: usize, limit: usize) -> (r:
    Result<(), Error>)
    requires
        -0x1_0000_0000_0000 <= line_y <= 0x1_0000_0000_0000_0000_0000,
    ensures
        match r {
            Ok(()) => line_fits(*line, x as int, line_y as int, height as int, limit as int),
            Err(e) => {
                &&& !line_fits(*line, x as int, line_y as int, height as int, limit as int)
                &&& (e == Error::OutOfBounds || e == Error::WidthExceeded)
                &&& (e == Error::OutOfBounds ==> line_row_miss(
                    *line,
                    x as int,
                    line_y as int,
                    height as int,
                ))
                &&& (e == Error::WidthExceeded ==> line_wide(*line, x as int, limit as int))
            },
        },
{
    let n = line.glyphs.len();
    let mut gi: usize = 0;
    while gi < n
        invariant
            n == line.glyphs@.len(),
            gi <= n,
            -0x1_0000_0000_0000 <= line_y <= 0x1_0000_0000_0000_0000_0000,
            forall|gi2: int|
                0 <= gi2 < gi ==> glyph_fits(
                    #[trigger] line.glyphs@[gi2],
                    x as int,
                    line_y as int,
                    height as int,
                    limit as int,
                ),
        decreases n - gi,
    {
        match check_glyph(&line.glyphs[gi], x, line_y, height, limit) {
            Ok(()) => {},
            Err(e) => {
                return Err(e);
            },
        }
        gi = gi + 1;
    }
    Ok(())
}

/// Pixels covered by the first `p_end` mask entries of `g` alone.
spec fn glyph_covers_upto(g: GlyphRaster, x: int, line_y: int, p_end: int, i: int, j: int) -> bool {
    exists|p: int|
        0 <= p < p_end && p < g.pixels@.len() && i == #[trigger] glyph_px_x(g, x, p) && j
            == glyph_px_y(g, line_y, p)
}

/// Pixels covered by the first `g_end` glyphs of `line` alone.
spec fn line_covers_upto(line: LineRaster, x: int, line_y: int, g_end: int, i: int, j: int) -> bool {
    exists|gi: int|
        0 <= gi < g_end && gi < line.glyphs@.len() && glyph_covers(
            #[trigger] line.glyphs@[gi],
            x,
            line_y,
            i,
            j,
        )
}

/// Writes every covered pixel of one glyph into the framebuffer.
///
/// The caller has already validated the mask, so every write lands inside
/// the canvas rows; columns may grow.
pub fn draw_glyph(fb: &mut Framebuffer, x: usize, line_y: i128, g: &GlyphRaster)
    requires
        old(fb).wf(),
        -0x1_0000_0000_0000 <= line_y <= 0x1_0000_0000_0000_0000_0000,
        forall|p: int|
            0 <= p < g.pixels@.len() ==> {
                &&& 0 <= #[trigger] glyph_px_x(*g, x as int, p) <= usize::MAX
                &&& 0 <= glyph_px_y(*g, line_y as int, p) < old(fb).height
            },
    ensures
        final(fb).wf(),
        final(fb).height == old(fb).height,
        final(fb).width() >= old(fb).width(),
        final(fb).width() == old(fb).width() || (exists|j: int| #[trigger] glyph_covers(*g, x as int, line_y as int, final(fb).width() - 1, j)),
        forall|i: int, j: int|
            0 <= i < final(fb).width() && 0 <= j < final(fb).height ==> #[trigger] final(fb).pixel(
                i,
                j,
            ) == ((i < old(fb).width() && old(fb).pixel(i, j)) || glyph_covers(
                *g,
                x as int,
                line_y as int,
                i,
                j,
            )),
        forall|i: int, j: int|
            #[trigger] glyph_covers(*g, x as int, line_y as int, i, j) ==> i < final(fb).width(),
{
    let ghost pre = *fb;
    let n = g.pixels.len();
    let mut p: usize = 0;
    while p < n
        invariant
            fb.wf(),
            n == g.pixels@.len(),
            p <= n,
            fb.height == pre.height,
            fb.width() >= pre.width(),
            -0x1_0000_0000_0000 <= line_y <= 0x1_0000_0000_0000_0000_0000,
            forall|p2: int|
                0 <= p2 < g.pixels@.len() ==> {
                    &&& 0 <= #[trigger] glyph_px_x(*g, x as int, p2) <= usize::MAX
                    &&& 0 <= glyph_px_y(*g, line_y as int, p2) < pre.height
                },
            fb.width() == pre.width() || (exists|j: int| #[trigger] glyph_covers_upto(*g, x as int, line_y as int, p as int, fb.width() - 1, j)),
            forall|i: int, j: int|
                0 <= i < fb.width() && 0 <= j < fb.height ==> #[trigger] fb.pixel(i, j) == ((i
                    < pre.width() && pre.pixel(i, j)) || glyph_covers_upto(
                    *g,
                    x as int,
                    line_y as int,
                    p as int,
                    i,
                    j,
                )),
            forall|i: int, j: int|
                #[trigger] glyph_covers_upto(*g, x as int, line_y as int, p as int, i, j) ==> i
                    < fb.width(),
        decreases n - p,
    {
        let (px, py) = g.pixels[p];
        proof {
            assert(glyph_px_x(*g, x as int, p as int) == x + g.left + px);
            assert(glyph_px_y(*g, line_y as int, p as int) == line_y + g.top + py);
        }
        let fx_w = x as i128 + g.left as i128 + px as i128;
        let fy_w = line_y + g.top as i128 + py as i128;
        let fx = fx_w as usize;
        let fy = fy_w as usize;
        let ghost mid = *fb;
        let res = fb.set(fx, fy, true);
        proof {
            assert(res is Ok);
            assert forall|i: int, j: int|
                0 <= i < fb.width() && 0 <= j < fb.height implies #[trigger] fb.pixel(i, j) == ((i
                < pre.width() && pre.pixel(i, j)) || glyph_covers_upto(
                *g,
                x as int,
                line_y as int,
                p + 1,
                i,
                j,
            )) by {
                if i == fx && j == fy {
                    assert(i == glyph_px_x(*g, x as int, p as int));
                    assert(j == glyph_px_y(*g, line_y as int, p as int));
                    assert(glyph_covers_upto(*g, x as int, line_y as int, p + 1, i, j));
                } else {
                    assert(fb.pixel(i, j) == (i < mid.width() && mid.pixel(i, j)));
                    if glyph_covers_upto(*g, x as int, line_y as int, p + 1, i, j) {
                        let p2 = choose|p2: int|
                            0 <= p2 < p + 1 && p2 < g.pixels@.len() && i == #[trigger] glyph_px_x(
                                *g,
                                x as int,
                                p2,
                            ) && j == glyph_px_y(*g, line_y as int, p2);
                        assert(p2 < p || p2 == p);
                        if p2 == p {
                            assert(i == fx && j == fy);
                        } else {
                            assert(glyph_covers_upto(*g, x as int, line_y as int, p as int, i, j));
                        }
                    }
                }
            }
            assert forall|i: int, j: int|
                #[trigger] glyph_covers_upto(*g, x as int, line_y as int, p + 1, i, j) implies i
                < fb.width() by {
                let p2 = choose|p2: int|
                    0 <= p2 < p + 1 && p2 < g.pixels@.len() && i == #[trigger] glyph_px_x(
                        *g,
                        x as int,
                        p2,
                    ) && j == glyph_px_y(*g, line_y as int, p2);
                if p2 == p {
                    assert(i == fx);
                } else {
                    assert(glyph_covers_upto(*g, x as int, line_y as int, p as int, i, j));
                    assert(i < mid.width());
                }
            }
            if fb.width() != mid.width() {
                assert(fb.width() == fx + 1);
                assert(glyph_covers_upto(
                    *g,
                    x as int,
                    line_y as int,
                    p + 1,
                    fb.width() - 1,
                    fy as int,
                ));
            } else if fb.width() != pre.width() {
                let j = choose|j: int| #[trigger] glyph_covers_upto(*g, x as int, line_y as int, p as int, fb.width() - 1, j);
                assert(glyph_covers_upto(*g, x as int, line_y as int, p + 1, fb.width() - 1, j));
            }
        }
        p = p + 1;
    }
    proof {
        assert forall|i: int, j: int|
            #[trigger] glyph_covers(*g, x as int, line_y as int, i, j) implies glyph_covers_upto(
            *g,
            x as int,
            line_y as int,
            n as int,
            i,
            j,
        ) by {}
        assert forall|i: int, j: int|
            #[trigger] glyph_covers_upto(*g, x as int, line_y as int, n as int, i, j) implies glyph_covers(
            *g,
            x as int,
            line_y as int,
            i,
            j,
        ) by {}
    }
}

/// Writes every covered pixel of one line's glyphs into the framebuffer.
pub fn draw_line(fb: &mut Framebuffer, x: usize, line_y: i128, line: &LineRaster)
    requires
        old(fb).wf(),
        -0x1_0000_0000_0000 <= line_y <= 0x1_0000_0000_0000_0000_0000,
        forall|gi: int, p: int|
            0 <= gi < line.glyphs@.len() && 0 <= p < (#[trigger] line.glyphs@[gi]).pixels@.len()
                ==> {
                &&& 0 <= #[trigger] glyph_px_x(line.glyphs@[gi], x as int, p) <= usize::MAX
                &&& 0 <= glyph_px_y(line.glyphs@[gi], line_y as int, p) < old(fb).height
            },
    ensures
        final(fb).wf(),
        final(fb).height == old(fb).height,
        final(fb).width() >= old(fb).width(),
        final(fb).width() == old(fb).width() || (exists|j: int| #[trigger] line_covers(*line, x as int, line_y as int, final(fb).width() - 1, j)),
        forall|i: int, j: int|
            0 <= i < final(fb).width() && 0 <= j < final(fb).height ==> #[trigger] final(fb).pixel(
                i,
                j,
            ) == ((i < old(fb).width() && old(fb).pixel(i, j)) || line_covers(
                *line,
                x as int,
                line_y as int,
                i,
                j,
            )),
        forall|i: int, j: int|
            #[trigger] line_covers(*line, x as int, line_y as int, i, j) ==> i < final(fb).width(),
{
    let ghost pre = *fb;
    let n = line.glyphs.len();
    let mut gi: usize = 0;
    while gi < n
        invariant
            fb.wf(),
            n == line.glyphs@.len(),
            gi <= n,
            fb.height == pre.height,
            fb.width() >= pre.width(),
            -0x1_0000_0000_0000 <= line_y <= 0x1_0000_0000_0000_0000_0000,
            forall|gi2: int, p: int|
                0 <= gi2 < line.glyphs@.len() && 0 <= p < (#[trigger] line.glyphs@[gi2]).pixels@.len()
                    ==> {
                    &&& 0 <= #[trigger] glyph_px_x(line.glyphs@[gi2], x as int, p) <= usize::MAX
                    &&& 0 <= glyph_px_y(line.glyphs@[gi2], line_y as int, p) < pre.height
                },
            fb.width() == pre.width() || (exists|j: int| #[trigger] line_covers_upto(*line, x as int, line_y as int, gi as int, fb.width() - 1, j)),
            forall|i: int, j: int|
                0 <= i < fb.width() && 0 <= j < fb.height ==> #[trigger] fb.pixel(i, j) == ((i
                    < pre.width() && pre.pixel(i, j)) || line_covers_upto(
                    *line,
                    x as int,
                    line_y as int,
                    gi as int,
                    i,
                    j,
                )),
            forall|i: int, j: int|
                #[trigger] line_covers_upto(*line, x as int, line_y as int, gi as int, i, j) ==> i
                    < fb.width(),
        decreases n - gi,
    {
        let g = &line.glyphs[gi];
        let ghost mid = *fb;
        draw_glyph(fb, x, line_y, g);
        proof {
            assert forall|i: int, j: int|
                0 <= i < fb.width() && 0 <= j < fb.height implies #[trigger] fb.pixel(i, j) == ((i
                < pre.width() && pre.pixel(i, j)) || line_covers_upto(
                *line,
                x as int,
                line_y as int,
                gi + 1,
                i,
                j,
            )) by {
                if glyph_covers(line.glyphs@[gi as int], x as int, line_y as int, i, j) {
                    assert(line_covers_upto(*line, x as int, line_y as int, gi + 1, i, j));
                }
                if line_covers_upto(*line, x as int, line_y as int, gi + 1, i, j) {
                    let gi2 = choose|gi2: int|
                        0 <= gi2 < gi + 1 && gi2 < line.glyphs@.len() && glyph_covers(
                            #[trigger] line.glyphs@[gi2],
                            x as int,
                            line_y as int,
                            i,
                            j,
                        );
                    if gi2 == gi {
                        assert(fb.pixel(i, j));
                    } else {
                        assert(line_covers_upto(*line, x as int, line_y as int, gi as int, i, j));
                        assert(i < mid.width());
                        assert(mid.pixel(i, j));
                        assert(fb.pixel(i, j));
                    }
                }
            }
            assert forall|i: int, j: int|
                #[trigger] line_covers_upto(*line, x as int, line_y as int, gi + 1, i, j) implies i
                < fb.width() by {
                let gi2 = choose|gi2: int|
                    0 <= gi2 < gi + 1 && gi2 < line.glyphs@.len() && glyph_covers(
                        #[trigger] line.glyphs@[gi2],
                        x as int,
                        line_y as int,
                        i,
                        j,
                    );
                if gi2 == gi {
                } else {
                    assert(line_covers_upto(*line, x as int, line_y as int, gi as int, i, j));
                    assert(i < mid.width());
                }
            }
            if fb.width() != mid.width() {
                let j = choose|j: int| #[trigger] glyph_covers(
                    line.glyphs@[gi as int],
                    x as int,
                    line_y as int,
                    fb.width() - 1,
                    j,
                );
                assert(line_covers_upto(*line, x as int, line_y as int, gi + 1, fb.width() - 1, j));
            } else if fb.width() != pre.width() {
                let j = choose|j: int| #[trigger] line_covers_upto(*line, x as int, line_y as int, gi as int, fb.width() - 1, j);
                assert(line_covers_upto(*line, x as int, line_y as int, gi + 1, fb.width() - 1, j));
            }
        }
        gi = gi + 1;
    }
    proof {
        assert forall|i: int, j: int|
            #[trigger] line_covers(*line, x as int, line_y as int, i, j) implies line_covers_upto(
            *line,
            x as int,
            line_y as int,
            n as int,
            i,
            j,
        ) by {}
        assert forall|i: int, j: int|
            #[trigger] line_covers_upto(*line, x as int, line_y as int, n as int, i, j) implies line_covers(
            *line,
            x as int,
            line_y as int,
            i,
            j,
        ) by {}
    }
}

} // verus!
