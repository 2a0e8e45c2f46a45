use labelrender::error::Error;
use labelrender::framebuffer::Framebuffer;

#[test]
fn test_display() {
    let mut d = Framebuffer::new(8, 0).unwrap();
    d.set(0, 0, true).unwrap();
    assert_eq!(d.data, vec![vec![0b0000_0001]]);
    assert_eq!(
        d.export_row_major(),
        vec![
            0b0000_0001,
            0b0000_0000,
            0b0000_0000,
            0b0000_0000,
            0b0000_0000,
            0b0000_0000,
            0b0000_0000,
            0b0000_0000,
        ]
    );

    let mut d = Framebuffer::new(8, 0).unwrap();
    d.set(1, 0, true).unwrap();
    assert_eq!(d.data, vec![vec![0b0000_0000], vec![0b0000_0001]]);
    assert_eq!(
        d.export_row_major(),
        vec![
            0b0000_0010,
            0b0000_0000,
            0b0000_0000,
            0b0000_0000,
            0b0000_0000,
            0b0000_0000,
            0b0000_0000,
            0b0000_0000,
        ]
    );

    let mut d = Framebuffer::new(8, 0).unwrap();
    d.set(0, 1, true).unwrap();
    assert_eq!(d.data, vec![vec![0b0000_0010]]);
    assert_eq!(
        d.export_row_major(),
        vec![
            0b0000_0000,
            0b0000_0001,
            0b0000_0000,
            0b0000_0000,
            0b0000_0000,
            0b0000_0000,
            0b0000_0000,
            0b0000_0000,
        ]
    );
}

#[test]
fn fresh_canvas_is_all_off() {
    let d = Framebuffer::new(16, 9).unwrap();
    assert_eq!(d.size(), (9, 16));
    for x in 0..9 {
        for y in 0..16 {
            assert_eq!(d.get(x, y).unwrap(), false);
        }
    }
}

#[test]
fn set_then_get_reads_back() {
    let mut d = Framebuffer::new(8, 4).unwrap();
    d.set(2, 5, true).unwrap();
    assert_eq!(d.get(2, 5).unwrap(), true);
    for x in 0..4 {
        for y in 0..8 {
            if (x, y) != (2, 5) {
                assert_eq!(d.get(x, y).unwrap(), false);
            }
        }
    }
}

#[test]
fn set_grows_to_exactly_the_written_column() {
    let mut d = Framebuffer::new(8, 2).unwrap();
    d.set(5, 3, true).unwrap();
    assert_eq!(d.size(), (6, 8));
    for x in 0..6 {
        for y in 0..8 {
            assert_eq!(d.get(x, y).unwrap(), x == 5 && y == 3);
        }
    }
}

#[test]
fn set_never_shrinks() {
    let mut d = Framebuffer::new(8, 7).unwrap();
    d.set(1, 1, true).unwrap();
    assert_eq!(d.size(), (7, 8));
}

#[test]
fn clearing_a_pixel() {
    let mut d = Framebuffer::new(8, 3).unwrap();
    d.set(1, 4, true).unwrap();
    d.set(1, 4, false).unwrap();
    assert_eq!(d.get(1, 4).unwrap(), false);
}

#[test]
fn export_length_is_height_times_row_bytes() {
    let d = Framebuffer::new(8, 0).unwrap();
    assert_eq!(d.export_row_major().len(), 0);
    let d = Framebuffer::new(8, 1).unwrap();
    assert_eq!(d.export_row_major().len(), 8);
    let d = Framebuffer::new(8, 8).unwrap();
    assert_eq!(d.export_row_major().len(), 8);
    let d = Framebuffer::new(8, 9).unwrap();
    assert_eq!(d.export_row_major().len(), 16);
    let d = Framebuffer::new(3, 17).unwrap();
    assert_eq!(d.export_row_major().len(), 3 * 3);
    let d = Framebuffer::new(13, 5).unwrap();
    assert_eq!(d.export_row_major().len(), 13);
}

#[test]
fn export_round_trip_reconstructs_the_canvas() {
    let mut d = Framebuffer::new(11, 0).unwrap();
    let points = [(0, 0), (3, 10), (7, 1), (12, 6), (12, 7), (19, 0)];
    for (x, y) in points {
        d.set(x, y, true).unwrap();
    }
    let (w, h) = d.size();
    let bytes = d.export_row_major();
    let row_bytes = (w + 7) / 8;
    let mut rebuilt = Framebuffer::new(h, w).unwrap();
    for y in 0..h {
        for x in 0..w {
            let bit = bytes[y * row_bytes + x / 8] >> (x % 8) & 1 == 1;
            rebuilt.set(x, y, bit).unwrap();
        }
    }
    for y in 0..h {
        for x in 0..w {
            assert_eq!(rebuilt.get(x, y).unwrap(), d.get(x, y).unwrap());
        }
    }
}

#[test]
fn tall_canvas_uses_multiple_column_bytes() {
    let mut d = Framebuffer::new(16, 0).unwrap();
    d.set(0, 9, true).unwrap();
    assert_eq!(d.data, vec![vec![0b0000_0000, 0b0000_0010]]);
    let bytes = d.export_row_major();
    assert_eq!(bytes.len(), 16);
    assert_eq!(bytes[9], 0b0000_0001);
}

#[test]
fn zero_height_is_rejected() {
    assert_eq!(Framebuffer::new(0, 5).unwrap_err(), Error::OutOfBounds);
}

#[test]
fn out_of_range_reads_and_writes_are_rejected() {
    let mut d = Framebuffer::new(8, 4).unwrap();
    assert_eq!(d.get(4, 0).unwrap_err(), Error::OutOfBounds);
    assert_eq!(d.get(0, 8).unwrap_err(), Error::OutOfBounds);
    assert_eq!(d.set(0, 8, true).unwrap_err(), Error::OutOfBounds);
    assert_eq!(d.size(), (4, 8));
    assert_eq!(d.get(0, 0).unwrap(), false);
}
