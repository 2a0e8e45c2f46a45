use vstd::prelude::*;

use crate::layout::{TextRaster, TextOptions};

verus! {

/// One drawing operation of a render job, applied strictly in input order.
pub enum Op {
    /// Draw a rasterized text run at the cursor and advance the cursor by
    /// the run's widest line.
    Text { raster: TextRaster, opts: TextOptions },
    /// Advance the cursor by the given number of columns without drawing,
    /// still forcing the canvas to grow to the new cursor position.
    Pad(usize),
    /// Reserved: barcode rendering has no routine yet and is reported as
    /// an unsupported operation, never a crash.
    Barcode(String),
}

} // verus!
