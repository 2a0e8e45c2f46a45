use vstd::prelude::*;

use crate::error::Error;

verus! {

/// Bit `i` of byte `b`, bit 0 being the least significant.
pub open spec fn nth_bit(b: u8, i: u8) -> bool {
    b & (1u8 << i) != 0
}

/// Bytes needed to store `height` bits in one packed column.
pub open spec fn col_bytes(height: nat) -> nat {
    (height + 7) / 8
}

/// Bytes needed to store `width` bits of one exported row.
pub open spec fn row_bytes(width: nat) -> nat {
    (width + 7) / 8
}

proof fn lemma_bit_zero()
    by (bit_vector)
    ensures
        forall|m: u8| m < 8 ==> !(#[trigger] nth_bit(0u8, m)),
{
}

proof fn lemma_bit_or(b: u8, i: u8)
    by (bit_vector)
    requires
        i < 8,
    ensures
        forall|m: u8| m < 8 ==> #[trigger] nth_bit(b | (1u8 << i), m) == (m == i || nth_bit(
            b,
            m,
        )),
{
}

proof fn lemma_bit_clear(b: u8, i: u8)
    by (bit_vector)
    requires
        i < 8,
    ensures
        forall|m: u8| m < 8 ==> #[trigger] nth_bit(b & !(1u8 << i), m) == (m != i && nth_bit(
            b,
            m,
        )),
{
}

/// The monochrome pixel grid a label is composed on.
///
/// The grid is stored column-major: one packed bit-vector per x coordinate,
/// bit index = y, least-significant bit of the first byte = y = 0.  The
/// height is fixed at construction; the width grows as pixels are set at
/// increasing x.
#[derive(Debug)]
pub struct Framebuffer {
    /// Fixed row count (print-head dot resolution).
    pub height: usize,
    /// One packed column per x coordinate.
    pub data: Vec<Vec<u8>>,
}

impl Framebuffer {
    /// Structural invariant: positive height, and every column packed into
    /// exactly `col_bytes(height)` bytes.
    pub open spec fn wf(self) -> bool {
        &&& self.height >= 1
        &&& forall|c: int|
            0 <= c < self.data@.len() ==> (#[trigger] self.data@[c])@.len() == col_bytes(
                self.height as nat,
            )
    }

    /// The current column count.
    pub open spec fn width(self) -> nat {
        self.data@.len()
    }

    /// The pixel at `(x, y)`, read from the packed column storage.
    pub open spec fn pixel(self, x: int, y: int) -> bool {
        nth_bit(self.data@[x]@[y / 8], (y % 8) as u8)
    }

    /// Every pixel of the grid is off.
    pub open spec fn all_off(self) -> bool {
        forall|i: int, j: int|
            0 <= i < self.width() && 0 <= j < self.height ==> !(#[trigger] self.pixel(i, j))
    }

    /// How one write at `(x, y)` relates the grid before and after it: the
    /// canvas grows to cover column `x`, the written pixel holds `v`, every
    /// other pixel keeps its old value, and fresh columns are all off.
    pub open spec fn set_rel(pre: Framebuffer, post: Framebuffer, x: int, y: int, v: bool) -> bool {
        &&& post.height == pre.height
        &&& post.width() == if x + 1 > pre.width() {
            x + 1
        } else {
            pre.width() as int
        }
        &&& forall|i: int, j: int|
            0 <= i < post.width() && 0 <= j < post.height ==> #[trigger] post.pixel(i, j) == (if i
                == x && j == y {
                v
            } else {
                i < pre.width() && pre.pixel(i, j)
            })
    }

    /// A zero-filled column of `col_bytes(height)` bytes.
    fn zero_column(height: usize) -> (r: Vec<u8>)
        ensures
            r@.len() == col_bytes(height as nat),
            forall|b: int| 0 <= b < r@.len() ==> r@[b] == 0u8,
    {
        let extra: usize = if height % 8 == 0 {
            0
        } else {
            1
        };
        let n: usize = height / 8 + extra;
        assert(n == col_bytes(height as nat));
        let mut col: Vec<u8> = Vec::new();
        let mut i: usize = 0;
        while i < n
            invariant
                i <= n,
                col@.len() == i,
                forall|b: int| 0 <= b < col@.len() ==> col@[b] == 0u8,
            decreases n - i,
        {
            col.push(0u8);
            i = i + 1;
        }
        col
    }

    /// A zero-filled canvas of the given dimensions.  Fails when `height`
    /// is zero, since a grid without rows can hold no pixel.
    pub fn new(height: usize, initial_width: usize) -> (r: Result<Framebuffer, Error>)
        ensures
            match r {
                Ok(fb) => {
                    &&& height >= 1
                    &&& fb.wf()
                    &&& fb.height == height
                    &&& fb.width() == initial_width
                    &&& fb.all_off()
                },
                Err(e) => e == Error::OutOfBounds && height == 0,
            },
    {
        if height == 0 {
            return Err(Error::OutOfBounds);
        }
        let mut data: Vec<Vec<u8>> = Vec::new();
        let mut i: usize = 0;
        while i < initial_width
            invariant
                i <= initial_width,
                data@.len() == i,
                forall|c: int|
                    0 <= c < data@.len() ==> (#[trigger] data@[c])@.len() == col_bytes(
                        height as nat,
                    ),
                forall|c: int, b: int|
                    0 <= c < data@.len() && 0 <= b < data@[c]@.len() ==> data@[c]@[b] == 0u8,
            decreases initial_width - i,
        {
            let col = Self::zero_column(height);
            data.push(col);
            i = i + 1;
        }
        let fb = Framebuffer { height, data };
        proof {
            lemma_bit_zero();
            assert forall|i2: int, j: int|
                0 <= i2 < fb.width() && 0 <= j < fb.height implies !(#[trigger] fb.pixel(
                i2,
                j,
            )) by {
                assert(0 <= j / 8 < col_bytes(height as nat));
                assert(fb.data@[i2]@[j / 8] == 0u8);
                assert(((j % 8) as u8) < 8);
            }
        }
        Ok(fb)
    }

    /// The current size as `(width, height)`.
    pub fn size(&self) -> (r: (usize, usize))
        ensures
            r.0 == self.width(),
            r.1 == self.height,
    {
        (self.data.len(), self.height)
    }

    /// Reads the pixel at `(x, y)`; out-of-range coordinates are rejected.
    pub fn get(&self, x: usize, y: usize) -> (r: Result<bool, Error>)
        requires
            self.wf(),
        ensures
            match r {
                Ok(b) => {
                    &&& x < self.width()
                    &&& y < self.height
                    &&& b == self.pixel(x as int, y as int)
                },
                Err(e) => e == Error::OutOfBounds && (x >= self.width() || y >= self.height),
            },
    {
        if x >= self.data.len() || y >= self.height {
            return Err(Error::OutOfBounds);
        }
        proof {
            assert(0 <= y / 8 < col_bytes(self.height as nat));
        }
        let byte = self.data[x][y / 8];
        Ok(byte & (1u8 << ((y % 8) as u8)) != 0)
    }

    /// Writes the pixel at `(x, y)`.  A write past the current width first
    /// grows the canvas with zero-filled columns up to column `x`; growth is
    /// unconditional here, the compositor enforces the configured maximum.
    /// A row outside the fixed height is rejected and leaves the grid
    /// untouched.
    pub fn set(&mut self, x: usize, y: usize, value: bool) -> (r: Result<(), Error>)
        requires
            old(self).wf(),
        ensures
            final(self).wf(),
            final(self).height == old(self).height,
            match r {
                Ok(()) => y < old(self).height && Self::set_rel(
                    *old(self),
                    *final(self),
                    x as int,
                    y as int,
                    value,
                ),
                Err(e) => e == Error::OutOfBounds && y >= old(self).height && *final(self) == *old(
                    self,
                ),
            },
    {
        if y >= self.height {
            return Err(Error::OutOfBounds);
        }
        let ghost pre = *self;
        while self.data.len() <= x
            invariant
                self.wf(),
                self.height == pre.height,
                self.data@.len() >= pre.data@.len(),
                self.data@.len() <= if x + 1 > pre.width() {
                    x + 1
                } else {
                    pre.width() as int
                },
                forall|c: int| 0 <= c < pre.data@.len() ==> self.data@[c] == pre.data@[c],
                forall|c: int, b: int|
                    pre.data@.len() <= c < self.data@.len() && 0 <= b < self.data@[c]@.len()
                        ==> self.data@[c]@[b] == 0u8,
            decreases x + 1 - self.data.len(),
        {
            let col = Self::zero_column(self.height);
            self.data.push(col);
        }
        let ghost grown = *self;
        proof {
            assert(0 <= y / 8 < col_bytes(self.height as nat));
        }
        let bi = y / 8;
        let mask: u8 = 1u8 << ((y % 8) as u8);
        let old_byte = self.data[x][bi];
        let new_byte = if value {
            old_byte | mask
        } else {
            old_byte & !mask
        };
        self.data[x][bi] = new_byte;
        proof {
            lemma_bit_zero();
            if value {
                lemma_bit_or(old_byte, (y % 8) as u8);
            } else {
                lemma_bit_clear(old_byte, (y % 8) as u8);
            }
            assert forall|i: int, j: int|
                0 <= i < self.width() && 0 <= j < self.height implies #[trigger] self.pixel(i, j)
                == (if i == x && j == y {
                value
            } else {
                i < pre.width() && pre.pixel(i, j)
            }) by {
                assert(0 <= j / 8 < col_bytes(self.height as nat));
                assert(((j % 8) as u8) < 8);
                if i == x {
                    if j / 8 == y / 8 {
                        if j != y {
                            assert(j % 8 != y % 8);
                        }
                    } else {
                        assert(self.data@[i]@[j / 8] == grown.data@[i]@[j / 8]);
                    }
                } else {
                    assert(self.data@[i] == grown.data@[i]);
                }
                if i >= pre.width() && !(i == x && j == y) {
                    assert(grown.data@[i]@[j / 8] == 0u8);
                }
            }
        }
        Ok(())
    }

    /// Transposes the column-major storage into row-major packed bytes: for
    /// each row y, bits for columns x = 0..width packed into consecutive
    /// bytes, bit index = x mod 8 with the least-significant bit the
    /// smallest x; `row_bytes(width)` bytes per row, rows in order of y.
    /// Padding bits past the last column are zero.
    pub fn export_row_major(&self) -> (r: Vec<u8>)
        requires
            self.wf(),
            self.width() <= usize::MAX - 7,
            self.height * row_bytes(self.width()) <= usize::MAX,
        ensures
            r@.len() == self.height * row_bytes(self.width()),
            forall|y: int, bx: int, k: u8|
                0 <= y < self.height && 0 <= bx < row_bytes(self.width()) && k < 8 ==> #[trigger] nth_bit(
                    r@[y * (row_bytes(self.width()) as int) + bx],
                    k,
                ) == (bx * 8 + k < self.width() && self.pixel(bx * 8 + k, y)),
    {
        let w = self.data.len();
        let h = self.height;
        let extra: usize = if w % 8 == 0 {
            0
        } else {
            1
        };
        let rb: usize = w / 8 + extra;
        assert(rb == row_bytes(w as nat));
        proof {
            lemma_bit_zero();
        }
        let mut out: Vec<u8> = Vec::new();
        let mut y: usize = 0;
        while y < h
            invariant
                self.wf(),
                y <= h,
                w == self.width(),
                h == self.height,
                rb == row_bytes(w as nat),
                w <= usize::MAX - 7,
                h * rb <= usize::MAX,
                out@.len() == y * rb,
                forall|y2: int, bx2: int, k: u8|
                    0 <= y2 < y && 0 <= bx2 < rb && k < 8 ==> #[trigger] nth_bit(
                        out@[y2 * (rb as int) + bx2],
                        k,
                    ) == (bx2 * 8 + k < w && self.pixel(bx2 * 8 + k, y2)),
            decreases h - y,
        {
            proof {
                assert(y * rb + rb == (y + 1) * rb) by (nonlinear_arith);
                assert((y + 1) * rb <= h * rb) by (nonlinear_arith)
                    requires
                        y + 1 <= h,
                        rb >= 0,
                ;
            }
            let mut bx: usize = 0;
            while bx < rb
                invariant
                    self.wf(),
                    y < h,
                    bx <= rb,
                    w == self.width(),
                    h == self.height,
                    rb == row_bytes(w as nat),
                    w <= usize::MAX - 7,
                    y * rb + rb <= usize::MAX,
                    out@.len() == y * rb + bx,
                    forall|y2: int, bx2: int, k: u8|
                        0 <= y2 < y && 0 <= bx2 < rb && k < 8 ==> #[trigger] nth_bit(
                            out@[y2 * (rb as int) + bx2],
                            k,
                        ) == (bx2 * 8 + k < w && self.pixel(bx2 * 8 + k, y2)),
                    forall|bx2: int, k: u8|
                        0 <= bx2 < bx && k < 8 ==> #[trigger] nth_bit(
                            out@[y * (rb as int) + bx2],
                            k,
                        ) == (bx2 * 8 + k < w && self.pixel(bx2 * 8 + k, y as int)),
                decreases rb - bx,
            {
                proof {
                    assert(8 * rb <= w + 7);
                    assert(bx * 8 + 8 <= rb * 8) by (nonlinear_arith)
                        requires
                            bx + 1 <= rb,
                    ;
                }
                proof {
                    lemma_bit_zero();
                }
                let mut b: u8 = 0;
                let mut k: usize = 0;
                while k < 8
                    invariant
                        self.wf(),
                        y < h,
                        bx < rb,
                        k <= 8,
                        w == self.width(),
                        h == self.height,
                        bx * 8 + 8 <= w + 7,
                        forall|m: u8| m < k ==> #[trigger] nth_bit(b, m) == (bx * 8 + m < w
                            && self.pixel(bx * 8 + m, y as int)),
                        forall|m: u8| k <= m < 8 ==> !(#[trigger] nth_bit(b, m)),
                    decreases 8 - k,
                {
                    let x = bx * 8 + k;
                    if x < w {
                        proof {
                            assert(0 <= y / 8 < col_bytes(self.height as nat));
                        }
                        let byte = self.data[x][y / 8];
                        if byte & (1u8 << ((y % 8) as u8)) != 0 {
                            let old_b = b;
                            b = b | (1u8 << (k as u8));
                            proof {
                                lemma_bit_or(old_b, k as u8);
                            }
                        } else {
                            proof {
                                assert(!self.pixel(x as int, y as int));
                            }
                        }
                    }
                    k = k + 1;
                }
                let ghost out0 = out@;
                out.push(b);
                proof {
                    assert forall|y2: int, bx2: int, k2: u8|
                        0 <= y2 < y && 0 <= bx2 < rb && k2 < 8 implies #[trigger] nth_bit(
                        out@[y2 * (rb as int) + bx2],
                        k2,
                    ) == (bx2 * 8 + k2 < w && self.pixel(bx2 * 8 + k2, y2)) by {
                        assert(y2 * rb + bx2 < y * rb) by (nonlinear_arith)
                            requires
                                0 <= y2 < y,
                                0 <= bx2 < rb,
                        ;
                        assert(out@[y2 * (rb as int) + bx2] == out0[y2 * (rb as int) + bx2]);
                    }
                    assert forall|bx2: int, k2: u8|
                        0 <= bx2 < bx + 1 && k2 < 8 implies #[trigger] nth_bit(
                        out@[y * (rb as int) + bx2],
                        k2,
                    ) == (bx2 * 8 + k2 < w && self.pixel(bx2 * 8 + k2, y as int)) by {
                        if bx2 == bx {
                            assert(out@[y * (rb as int) + bx2] == b);
                        } else {
                            assert(out@[y * (rb as int) + bx2] == out0[y * (rb as int) + bx2]);
                        }
                    }
                }
                bx = bx + 1;
            }
            proof {
                assert forall|y2: int, bx2: int, k2: u8|
                    0 <= y2 < y + 1 && 0 <= bx2 < rb && k2 < 8 implies #[trigger] nth_bit(
                    out@[y2 * (rb as int) + bx2],
                    k2,
                ) == (bx2 * 8 + k2 < w && self.pixel(bx2 * 8 + k2, y2)) by {
                    assert(y2 * rb + bx2 < (y + 1) * rb) by (nonlinear_arith)
                        requires
                            0 <= y2 <= y,
                            0 <= bx2 < rb,
                    ;
                }
            }
            y = y + 1;
        }
        proof {
            assert(y * rb == h * rb);
        }
        out
    }
}

/// A write is read back: after a successful write at `(x, y)`, that pixel
/// holds the written value, every pixel that existed before and is not
/// `(x, y)` keeps its previous value, and every freshly grown pixel other
/// than `(x, y)` is off.
pub proof fn lemma_set_then_get(pre: Framebuffer, post: Framebuffer, x: int, y: int, v: bool)
    requires
        0 <= x,
        0 <= y < pre.height,
        Framebuffer::set_rel(pre, post, x, y, v),
    ensures
        post.pixel(x, y) == v,
        forall|i: int, j: int|
            0 <= i < pre.width() && 0 <= j < pre.height && !(i == x && j == y)
                ==> #[trigger] post.pixel(i, j) == pre.pixel(i, j),
        forall|i: int, j: int|
            pre.width() <= i < post.width() && 0 <= j < post.height && !(i == x && j == y)
                ==> !(#[trigger] post.pixel(i, j)),
{
    assert(post.width() >= x + 1);
}

/// Growth through a write: setting a pixel at column `k` of a narrower,
/// all-off canvas grows it to exactly `k + 1` columns, and every column
/// other than `k` is still all off.
pub proof fn lemma_set_growth(pre: Framebuffer, post: Framebuffer, k: int, y: int)
    requires
        0 <= k,
        0 <= y < pre.height,
        pre.width() < k + 1,
        pre.all_off(),
        Framebuffer::set_rel(pre, post, k, y, true),
    ensures
        post.width() == k + 1,
        forall|i: int, j: int|
            0 <= i < post.width() && 0 <= j < post.height && i != k ==> !(#[trigger] post.pixel(
                i,
                j,
            )),
{
}

} // verus!
