use vstd::prelude::*;

use crate::error::Error;
use crate::framebuffer::{row_bytes, nth_bit, Framebuffer};
use crate::layout::{
    advances_sum, check_line, draw_line, glyph_covers, glyph_fits, glyph_px_x, glyph_px_y,
    glyph_row_miss, line_covers, line_fits, line_row_miss, line_wide, lines_max_width, text_covers,
    text_fits, GlyphRaster, LineRaster, TextOptions, TextRaster,
};
use crate::ops::Op;

verus! {

/// Bounds of one render job's canvas.
#[derive(Clone, Copy, Debug, PartialEq, Eq, Structural)]
pub struct RenderConfig {
    /// Initial canvas width.
    pub min_x: usize,
    /// Ceiling on canvas width growth; growing past it fails, it never clips.
    pub max_x: usize,
    /// Fixed canvas height (print-head dot count).
    pub y: usize,
}

impl Default for RenderConfig {
    /// The stock label geometry: 32..1024 columns, 64 rows.
    fn default() -> (r: Self)
        ensures
            r.min_x == 32,
            r.max_x == 1024,
            r.y == 64,
    {
        RenderConfig { min_x: 32, max_x: 1024, y: 64 }
    }
}

/// Columns a text op may still touch: the op-start width or the configured
/// ceiling, whichever is larger (an already-wide canvas stays usable).
pub open spec fn spec_limit(width: nat, max_x: nat) -> int {
    if width > max_x {
        width as int
    } else {
        max_x as int
    }
}

/// Vertical start of a text block: centred when asked for, else the top row.
pub open spec fn spec_base_y(r: TextRaster, vcentre: bool, height: int) -> int {
    if vcentre {
        height / 2 - r.block_height() / 2
    } else {
        0
    }
}

/// A text op succeeds exactly when the raster's metrics are sane, a centred
/// block fits the canvas height, every covered pixel lands on the canvas
/// inside the width limit, and the advance keeps the cursor inside `usize`.
pub open spec fn text_ok(
    pre: Framebuffer,
    x: nat,
    r: TextRaster,
    opts: TextOptions,
    max_x: nat,
) -> bool {
    &&& r.wf()
    &&& (opts.vcentre ==> r.block_height() / 2 <= pre.height as int / 2)
    &&& text_fits(
        r,
        x as int,
        spec_base_y(r, opts.vcentre, pre.height as int),
        pre.height as int,
        spec_limit(pre.width(), max_x),
    )
    &&& r.advance_width() <= usize::MAX
    &&& x + r.advance_width() <= usize::MAX
}

/// How a successful text op relates the canvas before and after it: covered
/// pixels turn on, every other pixel is unchanged, and the width grows by
/// exactly as much as the rightmost covered pixel demands.
pub open spec fn text_rel(
    pre: Framebuffer,
    x: nat,
    r: TextRaster,
    opts: TextOptions,
    post: Framebuffer,
) -> bool {
    let base_y = spec_base_y(r, opts.vcentre, pre.height as int);
    &&& post.height == pre.height
    &&& post.width() >= pre.width()
    &&& (post.width() == pre.width() || (exists|j: int| #[trigger]
    text_covers(r, x as int, base_y, post.width() - 1, j)))
    &&& forall|i: int, j: int|
        0 <= i < post.width() && 0 <= j < post.height ==> #[trigger] post.pixel(i, j) == ((i
            < pre.width() && pre.pixel(i, j)) || text_covers(r, x as int, base_y, i, j))
    &&& forall|i: int, j: int|
        #[trigger] text_covers(r, x as int, base_y, i, j) ==> i < post.width()
}

/// Some pixel of the run misses the canvas rows or lies left of it.
pub open spec fn text_row_miss(r: TextRaster, x: int, base_y: int, height: int) -> bool {
    exists|li: int|
        0 <= li < r.lines@.len() && line_row_miss(
            #[trigger] r.lines@[li],
            x,
            base_y + li * r.metrics.line_height,
            height,
        )
}

/// Some pixel of the run lies at or past the width limit.
pub open spec fn text_wide(r: TextRaster, x: int, limit: int) -> bool {
    exists|li: int| 0 <= li < r.lines@.len() && line_wide(#[trigger] r.lines@[li], x, limit)
}

/// Pixels covered by the first `l_end` lines of the run alone.
spec fn text_covers_upto(r: TextRaster, x: int, base_y: int, l_end: int, i: int, j: int) -> bool {
    exists|li: int|
        0 <= li < l_end && li < r.lines@.len() && line_covers(
            #[trigger] r.lines@[li],
            x,
            base_y + li * r.metrics.line_height,
            i,
            j,
        )
}

/// Which error a failing text op reports: malformed metrics are a font-load
/// failure, a block or pixel outside the canvas rows is out of bounds, and a
/// pixel or cursor past the width limit exceeds the width.
pub open spec fn text_err(
    pre: Framebuffer,
    x: nat,
    r: TextRaster,
    opts: TextOptions,
    max_x: nat,
    e: Error,
) -> bool {
    if !r.wf() {
        e == Error::FontLoadFailure
    } else if opts.vcentre && r.block_height() / 2 > pre.height as int / 2 {
        e == Error::OutOfBounds
    } else {
        let base_y = spec_base_y(r, opts.vcentre, pre.height as int);
        ||| (e == Error::WidthExceeded && (r.advance_width() > usize::MAX || x + r.advance_width()
            > usize::MAX || text_wide(r, x as int, spec_limit(pre.width(), max_x))))
        ||| (e == Error::OutOfBounds && text_row_miss(r, x as int, base_y, pre.height as int))
    }
}

/// A pad op succeeds exactly when the new cursor stays inside the width
/// ceiling or inside the already-grown canvas.
pub open spec fn pad_ok(pre: Framebuffer, x: nat, columns: nat, max_x: nat) -> bool {
    x + columns <= max_x || x + columns <= pre.width()
}

/// A pad grows the canvas to the new cursor position and changes no pixel.
pub open spec fn pad_rel(pre: Framebuffer, x: nat, columns: nat, post: Framebuffer) -> bool {
    &&& post.height == pre.height
    &&& post.width() == if x + columns > pre.width() {
        (x + columns) as int
    } else {
        pre.width() as int
    }
    &&& forall|i: int, j: int|
        0 <= i < post.width() && 0 <= j < post.height ==> #[trigger] post.pixel(i, j) == (i
            < pre.width() && pre.pixel(i, j))
}

/// Whether one operation succeeds from the given canvas and cursor.
pub open spec fn op_ok(pre: Framebuffer, x: nat, op: Op, max_x: nat) -> bool {
    match op {
        Op::Text { raster, opts } => text_ok(pre, x, raster, opts, max_x),
        Op::Pad(c) => pad_ok(pre, x, c as nat, max_x),
        Op::Barcode(_) => false,
    }
}

/// How one successful operation relates canvas and cursor before and after.
pub open spec fn op_rel(
    pre: Framebuffer,
    x: nat,
    op: Op,
    max_x: nat,
    post: Framebuffer,
    x2: nat,
) -> bool {
    match op {
        Op::Text { raster, opts } => {
            &&& text_ok(pre, x, raster, opts, max_x)
            &&& text_rel(pre, x, raster, opts, post)
            &&& x2 == x + raster.advance_width()
        },
        Op::Pad(c) => {
            &&& pad_ok(pre, x, c as nat, max_x)
            &&& pad_rel(pre, x, c as nat, post)
            &&& x2 == x + c
        },
        Op::Barcode(_) => false,
    }
}

/// Which error a failing operation reports.
pub open spec fn op_err(pre: Framebuffer, x: nat, op: Op, max_x: nat, e: Error) -> bool {
    match op {
        Op::Text { raster, opts } => text_err(pre, x, raster, opts, max_x, e),
        Op::Pad(_) => e == Error::WidthExceeded,
        Op::Barcode(_) => e == Error::UnsupportedOperation,
    }
}

/// How a whole operation sequence, applied strictly in order, relates the
/// canvas and cursor at its start to those at its end.
pub open spec fn ops_rel(
    pre: Framebuffer,
    x: nat,
    ops: Seq<Op>,
    max_x: nat,
    post: Framebuffer,
    x2: nat,
) -> bool
    decreases ops.len(),
{
    if ops.len() == 0 {
        post == pre && x2 == x
    } else {
        exists|mid: Framebuffer, xm: nat|
            #[trigger] op_rel(pre, x, ops[0], max_x, mid, xm) && ops_rel(
                mid,
                xm,
                ops.skip(1),
                max_x,
                post,
                x2,
            )
    }
}

/// Appending one more successful operation extends a successful sequence.
proof fn lemma_ops_rel_snoc(
    pre: Framebuffer,
    x: nat,
    s: Seq<Op>,
    op: Op,
    max_x: nat,
    mid: Framebuffer,
    xm: nat,
    post: Framebuffer,
    x2: nat,
)
    requires
        ops_rel(pre, x, s, max_x, mid, xm),
        op_rel(mid, xm, op, max_x, post, x2),
    ensures
        ops_rel(pre, x, s.push(op), max_x, post, x2),
    decreases s.len(),
{
    if s.len() == 0 {
        assert(mid == pre && xm == x);
        assert(s.push(op)[0] == op);
        assert(s.push(op).skip(1) =~= Seq::<Op>::empty());
        assert(ops_rel(post, x2, s.push(op).skip(1), max_x, post, x2));
    } else {
        let (mid1, x1) = choose|mid1: Framebuffer, x1: nat|
            #[trigger] op_rel(pre, x, s[0], max_x, mid1, x1) && ops_rel(
                mid1,
                x1,
                s.skip(1),
                max_x,
                mid,
                xm,
            );
        lemma_ops_rel_snoc(mid1, x1, s.skip(1), op, max_x, mid, xm, post, x2);
        assert(s.push(op).skip(1) =~= s.skip(1).push(op));
        assert(s.push(op)[0] == s[0]);
    }
}

/// Bound for products of machine-word sized factors.
proof fn lemma_mul_u64(a: int, b: int)
    by (nonlinear_arith)
    requires
        0 <= a <= 0xffff_ffff_ffff_ffff,
        0 <= b <= 0xffff_ffff_ffff_ffff,
    ensures
        a * b <= 0xffff_ffff_ffff_fffe_0000_0000_0000_0001,
{
}

/// One more advance keeps a line's running sum inside `u128`.
proof fn lemma_sum_step(sum: int, adv: int, gi: int)
    by (nonlinear_arith)
    requires
        0 <= sum,
        sum <= gi * 0xffff_ffff_ffff_ffff,
        0 <= adv <= 0xffff_ffff_ffff_ffff,
        0 <= gi <= 0xffff_ffff_ffff_ffff,
    ensures
        sum + adv <= (gi + 1) * 0xffff_ffff_ffff_ffff,
        sum + adv <= 0xffff_ffff_ffff_ffff_ffff_ffff_ffff_fffe,
{
}

/// A whole line's advance sum stays inside `u128`.
proof fn lemma_sum_bound(ng: int)
    by (nonlinear_arith)
    requires
        0 <= ng <= 0xffff_ffff_ffff_ffff,
    ensures
        ng * 0xffff_ffff_ffff_ffff <= 0xffff_ffff_ffff_ffff_ffff_ffff_ffff_fffe,
{
}

/// A render job: the configured bounds and the canvas being composed.
#[derive(Debug)]
pub struct Render {
    /// The canvas bounds this job was created with.
    pub cfg: RenderConfig,
    /// The canvas all operations draw into.
    pub display: Framebuffer,
}

impl Render {
    /// The canvas matches the configured height and is well formed.
    pub open spec fn wf(self) -> bool {
        &&& self.display.wf()
        &&& self.display.height == self.cfg.y
    }

    /// Create a new render job over a zero-filled canvas of the configured
    /// initial size.  Fails when the configured height is zero.
    pub fn new(cfg: RenderConfig) -> (r: Result<Render, Error>)
        ensures
            match r {
                Ok(rd) => {
                    &&& rd.wf()
                    &&& rd.cfg == cfg
                    &&& rd.display.width() == cfg.min_x
                    &&& rd.display.all_off()
                },
                Err(e) => e == Error::OutOfBounds && cfg.y == 0,
            },
    {
        let display = Framebuffer::new(cfg.y, cfg.min_x)?;
        Ok(Render { cfg, display })
    }

    /// Advance the cursor by `columns` without drawing, forcing the canvas
    /// to grow to the new cursor position so later content starts at the
    /// right offset.  Growth past the configured ceiling fails; the canvas
    /// is then untouched.
    pub fn pad(&mut self, x: usize, columns: usize) -> (r: Result<usize, Error>)
        requires
            old(self).wf(),
        ensures
            final(self).wf(),
            final(self).cfg == old(self).cfg,
            match r {
                Ok(c) => {
                    &&& c == columns
                    &&& x + columns <= usize::MAX
                    &&& pad_ok(old(self).display, x as nat, columns as nat, old(self).cfg.max_x as nat)
                    &&& pad_rel(old(self).display, x as nat, columns as nat, final(self).display)
                },
                Err(e) => {
                    &&& *final(self) == *old(self)
                    &&& e == Error::WidthExceeded
                    &&& !pad_ok(old(self).display, x as nat, columns as nat, old(self).cfg.max_x as nat)
                },
            },
    {
        let wd = self.display.data.len();
        let end = match x.checked_add(columns) {
            Some(e) => e,
            None => {
                return Err(Error::WidthExceeded);
            },
        };
        if end > wd && end > self.cfg.max_x {
            return Err(Error::WidthExceeded);
        }
        if end > wd {
            let res = self.display.set(end - 1, 0, false);
            proof {
                assert(res is Ok);
            }
        }
        Ok(columns)
    }

    /// Lay out and draw one rasterized text run at cursor `x`: vertical
    /// placement from the font metrics, then line after line of covered
    /// pixels, each line `line_height` below the one before.  The whole run
    /// is validated first; a failing run reports its error and leaves the
    /// canvas untouched.  On success the returned advance is the widest
    /// line's summed glyph advances.
    #[verifier::loop_isolation(false)]
    pub fn render_text(&mut self, x: usize, raster: &TextRaster, opts: &TextOptions) -> (r: Result<
        usize,
        Error,
    >)
        requires
            old(self).wf(),
        ensures
            final(self).wf(),
            final(self).cfg == old(self).cfg,
            match r {
                Ok(w) => {
                    &&& text_ok(
                        old(self).display,
                        x as nat,
                        *raster,
                        *opts,
                        old(self).cfg.max_x as nat,
                    )
                    &&& w == raster.advance_width()
                    &&& text_rel(old(self).display, x as nat, *raster, *opts, final(self).display)
                },
                Err(e) => {
                    &&& *final(self) == *old(self)
                    &&& !text_ok(
                        old(self).display,
                        x as nat,
                        *raster,
                        *opts,
                        old(self).cfg.max_x as nat,
                    )
                    &&& text_err(
                        old(self).display,
                        x as nat,
                        *raster,
                        *opts,
                        old(self).cfg.max_x as nat,
                        e,
                    )
                },
            },
    {
        let ghost pre = self.display;
        let ghost cfg0 = self.cfg;
        let h = self.cfg.y;
        let n_lines = raster.lines.len();
        let lh = raster.metrics.line_height;
        let gap = raster.metrics.line_gap;
        if n_lines == 0 || gap > lh {
            return Err(Error::FontLoadFailure);
        }
        proof {
            lemma_mul_u64(lh as int, n_lines as int);
            assert((lh as int) * (n_lines as int) >= (lh as int) * 1) by (nonlinear_arith)
                requires
                    n_lines >= 1,
                    lh >= 0,
            ;
        }
        let t: u128 = (lh as u128) * (n_lines as u128) - (gap as u128);
        proof {
            assert(t == raster.block_height());
        }
        let base_y: usize;
        if opts.vcentre {
            if t / 2 > (h as u128) / 2 {
                return Err(Error::OutOfBounds);
            }
            base_y = h / 2 - (t / 2) as usize;
        } else {
            base_y = 0;
        }
        let ghost sby = spec_base_y(*raster, opts.vcentre, h as int);
        proof {
            assert(base_y == sby);
        }
        // advance widths: the widest line, by summed glyph advances
        let mut max_w: u128 = 0;
        let mut li: usize = 0;
        while li < n_lines
            invariant
                n_lines == raster.lines@.len(),
                li <= n_lines,
                max_w == lines_max_width(raster.lines@.take(li as int)),
                max_w <= 0xffff_ffff_ffff_ffff_ffff_ffff_ffff_fffeu128,
            decreases n_lines - li,
        {
            let line = &raster.lines[li];
            let ng = line.glyphs.len();
            let mut sum: u128 = 0;
            let mut gi: usize = 0;
            while gi < ng
                invariant
                    ng == line.glyphs@.len(),
                    gi <= ng,
                    sum == advances_sum(line.glyphs@.take(gi as int)),
                    sum <= (gi as int) * 0xffff_ffff_ffff_ffff,
                decreases ng - gi,
            {
                let adv = line.glyphs[gi].advance;
                proof {
                    lemma_sum_step(sum as int, adv as int, gi as int);
                    assert(line.glyphs@.take(gi + 1).drop_last() =~= line.glyphs@.take(gi as int));
                    assert(line.glyphs@.take(gi + 1).last() == line.glyphs@[gi as int]);
                }
                sum = sum + adv as u128;
                gi = gi + 1;
            }
            proof {
                assert(line.glyphs@.take(ng as int) =~= line.glyphs@);
                assert(raster.lines@.take(li + 1).drop_last() =~= raster.lines@.take(li as int));
                assert(raster.lines@.take(li + 1).last() == raster.lines@[li as int]);
                lemma_sum_bound(ng as int);
            }
            if sum > max_w {
                max_w = sum;
            }
            li = li + 1;
        }
        proof {
            assert(raster.lines@.take(n_lines as int) =~= raster.lines@);
        }
        if max_w > (usize::MAX as u128) {
            return Err(Error::WidthExceeded);
        }
        let w = max_w as usize;
        if x > usize::MAX - w {
            return Err(Error::WidthExceeded);
        }
        // width limit for this op: the op-start width or the ceiling
        let cur_w = self.display.data.len();
        let max_x = self.cfg.max_x;
        let limit = if cur_w > max_x {
            cur_w
        } else {
            max_x
        };
        proof {
            assert(limit as int == spec_limit(pre.width(), max_x as nat));
        }
        // validation pass: nothing is drawn unless the whole run fits
        let mut li: usize = 0;
        while li < n_lines
            invariant
                self.display == pre,
                self.cfg == cfg0,
                n_lines == raster.lines@.len(),
                li <= n_lines,
                h == cfg0.y,
                lh == raster.metrics.line_height,
                base_y == sby,
                0 <= sby <= h,
                limit as int == spec_limit(pre.width(), max_x as nat),
                forall|li2: int|
                    0 <= li2 < li ==> line_fits(
                        #[trigger] raster.lines@[li2],
                        x as int,
                        sby + li2 * lh,
                        h as int,
                        limit as int,
                    ),
            decreases n_lines - li,
        {
            let line = &raster.lines[li];
            proof {
                lemma_mul_u64(li as int, lh as int);
            }
            let line_y_u: u128 = base_y as u128 + (li as u128) * (lh as u128);
            let ghost ly = sby + (li as int) * (lh as int);
            proof {
                assert(line_y_u == ly);
            }
            if line_y_u >= (h as u128) + 0x8000_0000u128 {
                // every covered pixel of this line would lie below the canvas
                let ng = line.glyphs.len();
                let mut gi: usize = 0;
                while gi < ng
                    invariant
                        ng == line.glyphs@.len(),
                        gi <= ng,
                        self.display == pre,
                        self.cfg == cfg0,
                        ly >= h + 0x8000_0000,
                        h == cfg0.y,
                        n_lines == raster.lines@.len(),
                        li < n_lines,
                        lh == raster.metrics.line_height,
                        ly == sby + (li as int) * (lh as int),
                        forall|gi2: int|
                            0 <= gi2 < gi ==> (#[trigger] line.glyphs@[gi2]).pixels@.len() == 0,
                    decreases ng - gi,
                {
                    if line.glyphs[gi].pixels.len() > 0 {
                        proof {
                            let g = line.glyphs@[gi as int];
                            assert(glyph_px_y(g, ly, 0) >= ly - 0x8000_0000);
                            assert(glyph_px_x(g, x as int, 0) == x + g.left + g.pixels@[0].0);
                            assert(*line == raster.lines@[li as int]);
                            assert(glyph_row_miss(g, x as int, ly, h as int));
                            assert(line_row_miss(raster.lines@[li as int], x as int, ly, h as int));
                            assert(text_row_miss(*raster, x as int, sby, h as int));
                            assert(!glyph_fits(
                                g,
                                x as int,
                                ly,
                                h as int,
                                spec_limit(pre.width(), max_x as nat),
                            ));
                            assert(!text_fits(
                                *raster,
                                x as int,
                                sby,
                                h as int,
                                spec_limit(pre.width(), max_x as nat),
                            ));
                        }
                        return Err(Error::OutOfBounds);
                    }
                    gi = gi + 1;
                }
                proof {
                    assert forall|gi2: int|
                        0 <= gi2 < line.glyphs@.len() implies glyph_fits(
                        #[trigger] line.glyphs@[gi2],
                        x as int,
                        ly,
                        h as int,
                        limit as int,
                    ) by {
                        assert(line.glyphs@[gi2].pixels@.len() == 0);
                    }
                    assert(line_fits(raster.lines@[li as int], x as int, ly, h as int, limit as int));
                }
            } else {
                let line_y: i128 = line_y_u as i128;
                match check_line(line, x, line_y, h, limit) {
                    Ok(()) => {
                        proof {
                            assert(line_fits(
                                raster.lines@[li as int],
                                x as int,
                                ly,
                                h as int,
                                limit as int,
                            ));
                        }
                    },
                    Err(e) => {
                        proof {
                            if e == Error::OutOfBounds {
                                assert(text_row_miss(*raster, x as int, sby, h as int));
                            }
                            if e == Error::WidthExceeded {
                                assert(text_wide(*raster, x as int, limit as int));
                            }
                            assert(!text_fits(*raster, x as int, sby, h as int, limit as int));
                        }
                        return Err(e);
                    },
                }
            }
            li = li + 1;
        }
        proof {
            assert(text_fits(*raster, x as int, sby, h as int, limit as int));
        }
        // draw pass: every write is known to land on the canvas
        let mut li: usize = 0;
        while li < n_lines
            invariant
                self.display.wf(),
                self.cfg == cfg0,
                self.display.height == pre.height,
                pre.height == cfg0.y,
                h == cfg0.y,
                n_lines == raster.lines@.len(),
                li <= n_lines,
                lh == raster.metrics.line_height,
                base_y == sby,
                0 <= sby <= h,
                limit as int == spec_limit(pre.width(), max_x as nat),
                limit <= usize::MAX,
                text_fits(*raster, x as int, sby, h as int, limit as int),
                self.display.width() >= pre.width(),
                self.display.width() == pre.width() || (exists|j: int| #[trigger]
                text_covers_upto(*raster, x as int, sby, li as int, self.display.width() - 1, j)),
                forall|i: int, j: int|
                    0 <= i < self.display.width() && 0 <= j < self.display.height
                        ==> #[trigger] self.display.pixel(i, j) == ((i < pre.width() && pre.pixel(
                        i,
                        j,
                    )) || text_covers_upto(*raster, x as int, sby, li as int, i, j)),
                forall|i: int, j: int|
                    #[trigger] text_covers_upto(*raster, x as int, sby, li as int, i, j) ==> i
                        < self.display.width(),
            decreases n_lines - li,
        {
            let line = &raster.lines[li];
            proof {
                lemma_mul_u64(li as int, lh as int);
                assert(line_fits(
                    #[trigger] raster.lines@[li as int],
                    x as int,
                    sby + (li as int) * (lh as int),
                    h as int,
                    limit as int,
                ));
            }
            let line_y_u: u128 = base_y as u128 + (li as u128) * (lh as u128);
            let ghost ly = sby + (li as int) * (lh as int);
            proof {
                assert(line_y_u == ly);
            }
            if line_y_u >= (h as u128) + 0x8000_0000u128 {
                proof {
                    // a line this far down fits only by covering nothing
                    assert forall|i: int, j: int|
                        !line_covers(raster.lines@[li as int], x as int, ly, i, j) by {
                        if line_covers(raster.lines@[li as int], x as int, ly, i, j) {
                            let gi = choose|gi: int|
                                0 <= gi < raster.lines@[li as int].glyphs@.len() && glyph_covers(
                                    #[trigger] raster.lines@[li as int].glyphs@[gi],
                                    x as int,
                                    ly,
                                    i,
                                    j,
                                );
                            let g = raster.lines@[li as int].glyphs@[gi];
                            let p = choose|p: int|
                                0 <= p < g.pixels@.len() && i == #[trigger] glyph_px_x(
                                    g,
                                    x as int,
                                    p,
                                ) && j == glyph_px_y(g, ly, p);
                            assert(glyph_fits(g, x as int, ly, h as int, limit as int));
                            assert(glyph_px_y(g, ly, p) >= ly - 0x8000_0000);
                        }
                    }
                    assert forall|i: int, j: int| #[trigger]
                    text_covers_upto(*raster, x as int, sby, li + 1, i, j) implies text_covers_upto(
                        *raster,
                        x as int,
                        sby,
                        li as int,
                        i,
                        j,
                    ) by {
                        let li2 = choose|li2: int|
                            0 <= li2 < li + 1 && li2 < raster.lines@.len() && line_covers(
                                #[trigger] raster.lines@[li2],
                                x as int,
                                sby + li2 * raster.metrics.line_height,
                                i,
                                j,
                            );
                        if li2 == li {
                            assert(!line_covers(raster.lines@[li as int], x as int, ly, i, j));
                        } else {
                            assert(text_covers_upto(*raster, x as int, sby, li as int, i, j));
                        }
                    }
                    assert forall|i: int, j: int| #[trigger]
                    text_covers_upto(*raster, x as int, sby, li as int, i, j)
                        implies text_covers_upto(*raster, x as int, sby, li + 1, i, j) by {
                        let li2 = choose|li2: int|
                            0 <= li2 < li && li2 < raster.lines@.len() && line_covers(
                                #[trigger] raster.lines@[li2],
                                x as int,
                                sby + li2 * raster.metrics.line_height,
                                i,
                                j,
                            );
                        assert(0 <= li2 < li + 1);
                    }
                }
            } else {
                let line_y: i128 = line_y_u as i128;
                let ghost mid = self.display;
                proof {
                    assert forall|gi: int, p: int|
                        0 <= gi < line.glyphs@.len() && 0 <= p < (#[trigger] line.glyphs@[gi]).pixels@.len() implies {
                        &&& 0 <= #[trigger] glyph_px_x(line.glyphs@[gi], x as int, p) <= usize::MAX
                        &&& 0 <= glyph_px_y(line.glyphs@[gi], line_y as int, p)
                            < self.display.height
                    } by {
                        assert(glyph_fits(line.glyphs@[gi], x as int, ly, h as int, limit as int));
                        assert(0 <= glyph_px_x(line.glyphs@[gi], x as int, p) < limit);
                    }
                }
                draw_line(&mut self.display, x, line_y, line);
                proof {
                    assert forall|i: int, j: int|
                        0 <= i < self.display.width() && 0 <= j < self.display.height
                            implies #[trigger] self.display.pixel(i, j) == ((i < pre.width()
                        && pre.pixel(i, j)) || text_covers_upto(
                        *raster,
                        x as int,
                        sby,
                        li + 1,
                        i,
                        j,
                    )) by {
                        if line_covers(raster.lines@[li as int], x as int, ly, i, j) {
                            assert(text_covers_upto(*raster, x as int, sby, li + 1, i, j));
                        }
                        if text_covers_upto(*raster, x as int, sby, li + 1, i, j) {
                            let li2 = choose|li2: int|
                                0 <= li2 < li + 1 && li2 < raster.lines@.len() && line_covers(
                                    #[trigger] raster.lines@[li2],
                                    x as int,
                                    sby + li2 * raster.metrics.line_height,
                                    i,
                                    j,
                                );
                            if li2 == li {
                                assert(self.display.pixel(i, j));
                            } else {
                                assert(text_covers_upto(*raster, x as int, sby, li as int, i, j));
                                assert(i < mid.width());
                                assert(mid.pixel(i, j));
                                assert(self.display.pixel(i, j));
                            }
                        }
                    }
                    assert forall|i: int, j: int|
                        #[trigger] text_covers_upto(*raster, x as int, sby, li + 1, i, j) implies i
                        < self.display.width() by {
                        let li2 = choose|li2: int|
                            0 <= li2 < li + 1 && li2 < raster.lines@.len() && line_covers(
                                #[trigger] raster.lines@[li2],
                                x as int,
                                sby + li2 * raster.metrics.line_height,
                                i,
                                j,
                            );
                        if li2 == li {
                        } else {
                            assert(text_covers_upto(*raster, x as int, sby, li as int, i, j));
                            assert(i < mid.width());
                        }
                    }
                    if self.display.width() != mid.width() {
                        let j = choose|j: int| #[trigger]
                        line_covers(
                            raster.lines@[li as int],
                            x as int,
                            ly,
                            self.display.width() - 1,
                            j,
                        );
                        assert(text_covers_upto(
                            *raster,
                            x as int,
                            sby,
                            li + 1,
                            self.display.width() - 1,
                            j,
                        ));
                    } else if self.display.width() != pre.width() {
                        let j = choose|j: int| #[trigger]
                        text_covers_upto(
                            *raster,
                            x as int,
                            sby,
                            li as int,
                            self.display.width() - 1,
                            j,
                        );
                        assert(text_covers_upto(
                            *raster,
                            x as int,
                            sby,
                            li + 1,
                            self.display.width() - 1,
                            j,
                        ));
                    }
                }
            }
            li = li + 1;
        }
        proof {
            assert forall|i: int, j: int|
                #[trigger] text_covers(*raster, x as int, sby, i, j) == text_covers_upto(
                *raster,
                x as int,
                sby,
                n_lines as int,
                i,
                j,
            ) by {}
            if self.display.width() != pre.width() {
                let j = choose|j: int| #[trigger]
                text_covers_upto(
                    *raster,
                    x as int,
                    sby,
                    n_lines as int,
                    self.display.width() - 1,
                    j,
                );
                assert(text_covers(*raster, x as int, sby, self.display.width() - 1, j));
            }
        }
        Ok(w)
    }

    /// Interpret the operation list, in order, over a cursor that starts at
    /// zero and never moves backwards.  On success the canvas holds the
    /// cumulative render; the first failing operation stops the job with its
    /// error and contributes nothing to the canvas, which keeps the state
    /// the last successful operation produced.
    #[verifier::loop_isolation(false)]
    pub fn render(&mut self, ops: &[Op]) -> (r: Result<(), Error>)
        requires
            old(self).wf(),
        ensures
            final(self).wf(),
            final(self).cfg == old(self).cfg,
            match r {
                Ok(()) => exists|x2: nat|
                    #[trigger] ops_rel(
                        old(self).display,
                        0,
                        ops@,
                        old(self).cfg.max_x as nat,
                        final(self).display,
                        x2,
                    ),
                Err(e) => exists|k: int, x2: nat|
                    {
                        &&& 0 <= k < ops@.len()
                        &&& #[trigger] ops_rel(
                            old(self).display,
                            0,
                            ops@.take(k),
                            old(self).cfg.max_x as nat,
                            final(self).display,
                            x2,
                        )
                        &&& !op_ok(final(self).display, x2, ops@[k], old(self).cfg.max_x as nat)
                        &&& op_err(final(self).display, x2, ops@[k], old(self).cfg.max_x as nat, e)
                    },
            },
    {
        let ghost pre = self.display;
        let ghost cfg0 = self.cfg;
        let mut x: usize = 0;
        let mut i: usize = 0;
        while i < ops.len()
            invariant
                self.wf(),
                self.cfg == cfg0,
                i <= ops@.len(),
                ops_rel(pre, 0, ops@.take(i as int), cfg0.max_x as nat, self.display, x as nat),
            decreases ops@.len() - i,
        {
            let ghost mid = self.display;
            let ghost xm = x as nat;
            let op = &ops[i];
            match op {
                Op::Text { raster, opts } => {
                    match self.render_text(x, raster, opts) {
                        Ok(w) => {
                            proof {
                                lemma_ops_rel_snoc(
                                    pre,
                                    0,
                                    ops@.take(i as int),
                                    ops@[i as int],
                                    cfg0.max_x as nat,
                                    mid,
                                    xm,
                                    self.display,
                                    (xm + w) as nat,
                                );
                                assert(ops@.take(i + 1) =~= ops@.take(i as int).push(
                                    ops@[i as int],
                                ));
                            }
                            x = x + w;
                        },
                        Err(e) => {
                            proof {
                                assert(ops_rel(
                                    pre,
                                    0,
                                    ops@.take(i as int),
                                    cfg0.max_x as nat,
                                    self.display,
                                    xm,
                                ));
                            }
                            return Err(e);
                        },
                    }
                },
                Op::Pad(c) => {
                    match self.pad(x, *c) {
                        Ok(c2) => {
                            proof {
                                lemma_ops_rel_snoc(
                                    pre,
                                    0,
                                    ops@.take(i as int),
                                    ops@[i as int],
                                    cfg0.max_x as nat,
                                    mid,
                                    xm,
                                    self.display,
                                    (xm + c2) as nat,
                                );
                                assert(ops@.take(i + 1) =~= ops@.take(i as int).push(
                                    ops@[i as int],
                                ));
                            }
                            x = x + c2;
                        },
                        Err(e) => {
                            return Err(e);
                        },
                    }
                },
                Op::Barcode(_) => {
                    return Err(Error::UnsupportedOperation);
                },
            }
            i = i + 1;
        }
        proof {
            assert(ops@.take(ops@.len() as int) =~= ops@);
        }
        Ok(())
    }

    /// The finished canvas as row-major packed bytes, for printer and file
    /// consumers.  The canvas is read, never changed.
    pub fn bytes(&self) -> (r: Vec<u8>)
        requires
            self.wf(),
            self.display.width() <= usize::MAX - 7,
            self.display.height * row_bytes(self.display.width()) <= usize::MAX,
        ensures
            r@.len() == self.display.height * row_bytes(self.display.width()),
            forall|y: int, bx: int, k: u8|
                0 <= y < self.display.height && 0 <= bx < row_bytes(self.display.width()) && k < 8
                    ==> #[trigger] nth_bit(
                    r@[y * (row_bytes(self.display.width()) as int) + bx],
                    k,
                ) == (bx * 8 + k < self.display.width() && self.display.pixel(bx * 8 + k, y)),
    {
        self.display.export_row_major()
    }
}

/// A barcode-class operation never succeeds, reports exactly the
/// unsupported-operation error, and does so whatever the canvas and cursor
/// state are.
pub proof fn lemma_barcode_unsupported(fb: Framebuffer, x: nat, op: Op, max_x: nat, e: Error)
    requires
        op is Barcode,
    ensures
        !op_ok(fb, x, op, max_x),
        op_err(fb, x, op, max_x, e) <==> e == Error::UnsupportedOperation,
{
}

/// Ordering of padding and text: after `[Pad(n), Text { .. }]` renders onto
/// an all-off canvas, every pixel that is on lies at or right of column `n`,
/// provided no glyph's bounding box reaches left of its line origin.
pub proof fn lemma_pad_then_text_offset(
    pre: Framebuffer,
    post: Framebuffer,
    n: usize,
    raster: TextRaster,
    opts: TextOptions,
    max_x: nat,
    x2: nat,
)
    requires
        pre.all_off(),
        ops_rel(pre, 0, seq![Op::Pad(n), Op::Text { raster, opts }], max_x, post, x2),
        forall|li: int, gi: int|
            0 <= li < raster.lines@.len() && 0 <= gi < raster.lines@[li].glyphs@.len() ==> (
            #[trigger] raster.lines@[li].glyphs@[gi]).left >= 0,
    ensures
        forall|i: int, j: int|
            0 <= i < post.width() && 0 <= j < post.height && #[trigger] post.pixel(i, j) ==> i >= n,
{
    let s = seq![Op::Pad(n), Op::Text { raster, opts }];
    let (mid1, x1) = choose|mid1: Framebuffer, xm: nat|
        #[trigger] op_rel(pre, 0, s[0], max_x, mid1, xm) && ops_rel(
            mid1,
            xm,
            s.skip(1),
            max_x,
            post,
            x2,
        );
    assert(x1 == n);
    let s1 = s.skip(1);
    assert(s1[0] == (Op::Text { raster, opts }));
    let (mid2, xt) = choose|mid2: Framebuffer, xm: nat|
        #[trigger] op_rel(mid1, x1, s1[0], max_x, mid2, xm) && ops_rel(
            mid2,
            xm,
            s1.skip(1),
            max_x,
            post,
            x2,
        );
    assert(post == mid2);
    let base_y = spec_base_y(raster, opts.vcentre, mid1.height as int);
    assert forall|i: int, j: int|
        0 <= i < post.width() && 0 <= j < post.height && #[trigger] post.pixel(i, j) implies i
        >= n by {
        assert(!(i < mid1.width() && mid1.pixel(i, j)));
        assert(text_covers(raster, n as int, base_y, i, j));
        let li = choose|li: int|
            0 <= li < raster.lines@.len() && line_covers(
                #[trigger] raster.lines@[li],
                n as int,
                base_y + li * raster.metrics.line_height,
                i,
                j,
            );
        let ly = base_y + li * raster.metrics.line_height;
        let gi = choose|gi: int|
            0 <= gi < raster.lines@[li].glyphs@.len() && glyph_covers(
                #[trigger] raster.lines@[li].glyphs@[gi],
                n as int,
                ly,
                i,
                j,
            );
        let g = raster.lines@[li].glyphs@[gi];
        let p = choose|p: int|
            0 <= p < g.pixels@.len() && i == #[trigger] glyph_px_x(g, n as int, p) && j
                == glyph_px_y(g, ly, p);
        assert(g.left >= 0);
    }
}

/// Width after padding and text: if some covered pixel of the run reaches
/// the run's advance width, the canvas after `[Pad(n), Text { .. }]` is at
/// least `n` plus that advance wide.
pub proof fn lemma_pad_then_text_width(
    pre: Framebuffer,
    post: Framebuffer,
    n: usize,
    raster: TextRaster,
    opts: TextOptions,
    max_x: nat,
    x2: nat,
)
    requires
        ops_rel(pre, 0, seq![Op::Pad(n), Op::Text { raster, opts }], max_x, post, x2),
        exists|j: int| #[trigger]
        text_covers(
            raster,
            n as int,
            spec_base_y(raster, opts.vcentre, pre.height as int),
            n + raster.advance_width() - 1,
            j,
        ),
    ensures
        post.width() >= n + raster.advance_width(),
{
    let s = seq![Op::Pad(n), Op::Text { raster, opts }];
    let (mid1, x1) = choose|mid1: Framebuffer, xm: nat|
        #[trigger] op_rel(pre, 0, s[0], max_x, mid1, xm) && ops_rel(
            mid1,
            xm,
            s.skip(1),
            max_x,
            post,
            x2,
        );
    assert(x1 == n);
    let s1 = s.skip(1);
    assert(s1[0] == (Op::Text { raster, opts }));
    let (mid2, xt) = choose|mid2: Framebuffer, xm: nat|
        #[trigger] op_rel(mid1, x1, s1[0], max_x, mid2, xm) && ops_rel(
            mid2,
            xm,
            s1.skip(1),
            max_x,
            post,
            x2,
        );
    assert(post == mid2);
    assert(mid1.height == pre.height);
    let j = choose|j: int| #[trigger]
    text_covers(
        raster,
        n as int,
        spec_base_y(raster, opts.vcentre, pre.height as int),
        n + raster.advance_width() - 1,
        j,
    );
    assert(n + raster.advance_width() - 1 < post.width());
}

} // verus!
