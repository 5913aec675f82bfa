use mandelbrot::bands::plan_bands;
use mandelbrot::colorings::ColorScheme;
use mandelbrot::fill::{fill_mandel_image, ByteOrder, BYTES_PER_PIXEL};
use mandelbrot::render::{
    finish_image, make_mandel_image, prepare_image, render_reply, Raster, MAX_DIMENSION,
};

fn raster(w: usize, h: usize, depth: u32) -> Raster {
    Raster { win_width: w, win_height: h, iteration_depth: depth }
}

#[test]
fn fill_writes_pixels_little_endian_and_keeps_padding() {
    // 2 pixels per row, 12-byte rows: 4 bytes of padding each
    let mut data = vec![0xaau8; 24];
    let values = [0u32, 1, 100, 3];
    let ok = fill_mandel_image(&mut data, 12, 2, 2, &values, 100, &ColorScheme::BlackWhite, ByteOrder::Little);
    assert!(ok);
    assert_eq!(
        data,
        vec![
            0x00, 0x00, 0x00, 0x00, 0xff, 0xff, 0xff, 0x00, 0xaa, 0xaa, 0xaa, 0xaa,
            0x80, 0x80, 0x80, 0x00, 0xff, 0xff, 0xff, 0x00, 0xaa, 0xaa, 0xaa, 0xaa,
        ]
    );
}

#[test]
fn fill_writes_pixels_big_endian() {
    let mut data = vec![0u8; 8];
    let values = [0u32, 1];
    let ok = fill_mandel_image(&mut data, 8, 2, 1, &values, 10, &ColorScheme::Rgb18, ByteOrder::Big);
    assert!(ok);
    assert_eq!(data, vec![0x00, 0xff, 0x3f, 0x3f, 0x00, 0xff, 0x7f, 0x3f]);
}

#[test]
fn fill_matches_native_byte_order() {
    let order = if 1u32.to_ne_bytes()[0] == 1 { ByteOrder::Little } else { ByteOrder::Big };
    let mut data = vec![0u8; 4];
    assert!(fill_mandel_image(&mut data, 4, 1, 1, &[5], 10, &ColorScheme::RedBlue, order));
    assert_eq!(data, 0xff0040u32.to_ne_bytes().to_vec());
}

#[test]
fn fill_refuses_a_row_too_short() {
    let mut data = vec![7u8; 16];
    let ok = fill_mandel_image(&mut data, 7, 2, 2, &[0, 0, 0, 0], 10, &ColorScheme::Rgb18, ByteOrder::Little);
    assert!(!ok);
    assert_eq!(data, vec![7u8; 16]);
}

#[test]
fn fill_refuses_a_buffer_too_short() {
    let mut data = vec![7u8; 15];
    let ok = fill_mandel_image(&mut data, 8, 2, 2, &[0, 0, 0, 0], 10, &ColorScheme::Rgb18, ByteOrder::Little);
    assert!(!ok);
    assert_eq!(data, vec![7u8; 15]);
}

#[test]
fn fill_refuses_wrong_value_count() {
    let mut data = vec![7u8; 16];
    let ok = fill_mandel_image(&mut data, 8, 2, 2, &[0, 0, 0], 10, &ColorScheme::Rgb18, ByteOrder::Little);
    assert!(!ok);
    assert_eq!(data, vec![7u8; 16]);
}

#[test]
fn fill_of_no_rows_succeeds() {
    let mut data: Vec<u8> = Vec::new();
    assert!(fill_mandel_image(&mut data, 8, 2, 0, &[], 10, &ColorScheme::Rgb18, ByteOrder::Little));
}

#[test]
fn raster_validity() {
    assert_eq!(BYTES_PER_PIXEL, 4);
    assert!(raster(600, 600, 100).is_valid());
    assert!(raster(MAX_DIMENSION, 1, 1).is_valid());
    assert!(!raster(MAX_DIMENSION + 1, 1, 1).is_valid());
    assert!(!raster(1, MAX_DIMENSION + 1, 1).is_valid());
    assert!(!raster(0, 600, 100).is_valid());
    assert!(!raster(600, 0, 100).is_valid());
    assert!(!raster(600, 600, 0).is_valid());
}

#[test]
fn prepare_gives_zeroed_buffer() {
    let (data, stride) = prepare_image(&raster(3, 2, 10), Some(12)).unwrap();
    assert_eq!(stride, 12);
    assert_eq!(data, vec![0u8; 24]);
    assert!(prepare_image(&raster(3, 2, 10), Some(11)).is_none());
    assert!(prepare_image(&raster(3, 2, 10), Some(-4)).is_none());
    assert!(prepare_image(&raster(3, 2, 10), None).is_none());
    assert!(prepare_image(&raster(3, 2, 0), Some(12)).is_none());
}

#[test]
fn make_image_with_padded_stride() {
    let (data, stride) =
        make_mandel_image(&raster(1, 2, 3), Some(8), &[3, 2], &ColorScheme::RgbAlternating, ByteOrder::Little).unwrap();
    assert_eq!(stride, 8);
    assert_eq!(data, vec![0, 0, 0, 0, 0, 0, 0, 0, 0xff, 0, 0, 0, 0, 0, 0, 0]);
}

#[test]
fn make_image_rejects_invalid_rasters() {
    let c = ColorScheme::Rgb18;
    assert!(make_mandel_image(&raster(0, 2, 10), Some(0), &[], &c, ByteOrder::Little).is_none());
    assert!(make_mandel_image(&raster(2, 2, 0), Some(8), &[0; 4], &c, ByteOrder::Little).is_none());
}

#[test]
fn make_image_rejects_bad_stride_or_values() {
    let c = ColorScheme::Rgb18;
    assert!(make_mandel_image(&raster(2, 2, 10), None, &[0; 4], &c, ByteOrder::Little).is_none());
    assert!(make_mandel_image(&raster(2, 2, 10), Some(4), &[0; 4], &c, ByteOrder::Little).is_none());
    assert!(make_mandel_image(&raster(2, 2, 10), Some(8), &[0; 3], &c, ByteOrder::Little).is_none());
    assert!(make_mandel_image(&raster(2, 2, 10), Some(8), &[0; 4], &c, ByteOrder::Little).is_some());
}

fn pattern(w: usize, h: usize, depth: u32) -> Vec<u32> {
    let mut v = Vec::new();
    for y in 0..h {
        for x in 0..w {
            v.push(((x * 7 + y * 13) % (depth as usize + 1)) as u32);
        }
    }
    v
}

fn banded(r: &Raster, stride: usize, values: &[u32], c: &ColorScheme, workers: usize) -> Vec<u8> {
    let (mut data, ustride) = prepare_image(r, Some(stride as i32)).unwrap();
    let mut ok = true;
    let mut rest: &mut [u8] = &mut data;
    for (first, rows) in plan_bands(r.win_height, workers) {
        let (band, tail) = rest.split_at_mut(rows * ustride);
        let vals = &values[first * r.win_width..(first + rows) * r.win_width];
        ok &= fill_mandel_image(band, ustride, r.win_width, rows, vals, r.iteration_depth, c, ByteOrder::Little);
        rest = tail;
    }
    finish_image(r, data, ustride, ok).unwrap().data
}

#[test]
fn banded_fill_equals_serial_fill() {
    let r = raster(13, 29, 20);
    let values = pattern(13, 29, 20);
    let c = ColorScheme::Rgb18;
    let (serial, _) = make_mandel_image(&r, Some(56), &values, &c, ByteOrder::Little).unwrap();
    for workers in [1usize, 2, 3, 8, 29, 40] {
        assert_eq!(banded(&r, 56, &values, &c, workers), serial);
    }
}

#[test]
fn finish_image_needs_every_band() {
    let r = raster(2, 1, 5);
    assert!(finish_image(&r, vec![0; 8], 8, false).is_none());
    let reply = finish_image(&r, vec![1; 8], 8, true).unwrap();
    assert_eq!(reply.data, vec![1; 8]);
    assert_eq!((reply.width, reply.height, reply.stride), (2, 1, 8));
}

#[test]
fn same_request_gives_identical_replies() {
    let r = raster(9, 7, 30);
    let values = pattern(9, 7, 30);
    let a = render_reply(&r, Some(36), &values, &ColorScheme::RedBlue, ByteOrder::Little).unwrap();
    let b = render_reply(&r, Some(36), &values, &ColorScheme::RedBlue, ByteOrder::Little).unwrap();
    assert_eq!(a.data, b.data);
    assert_eq!((a.width, a.height, a.stride), (b.width, b.height, b.stride));
    assert_eq!((a.width, a.height, a.stride), (9, 7, 36));
}

#[test]
fn invalid_request_gives_no_reply() {
    assert!(render_reply(&raster(600, 600, 0), Some(2400), &[], &ColorScheme::BlackWhite, ByteOrder::Little).is_none());
    assert!(render_reply(&raster(0, 600, 100), Some(0), &[], &ColorScheme::BlackWhite, ByteOrder::Little).is_none());
}

fn escape(x: f64, y: f64, max_iter: u32) -> u32 {
    let mut iter = 0;
    let (mut r, mut i) = (0.0f64, 0.0f64);
    while iter < max_iter {
        (r, i) = (r * r - i * i + x, 2.0 * r * i + y);
        if i * i + r * r >= 4.0 {
            break;
        }
        iter += 1;
    }
    iter
}

#[test]
fn default_view_centre_is_at_the_cap() {
    let (w, h, depth) = (600usize, 600usize, 100u32);
    let scale = 4.0 / 600.0;
    let x0 = 0.0 - scale * w as f64 / 2.0;
    let y0 = 0.0 + scale * h as f64 / 2.0;
    let mut values = Vec::with_capacity(w * h);
    for dy in 0..h {
        for wx in 0..w {
            values.push(escape(x0 + wx as f64 * scale, y0 - dy as f64 * scale, depth));
        }
    }
    assert_eq!(values[300 * w + 300], 100);
    let reply = render_reply(&raster(w, h, depth), Some(2400), &values, &ColorScheme::BlackWhite, ByteOrder::Little)
        .unwrap();
    assert_eq!((reply.width, reply.height, reply.stride), (600, 600, 2400));
    assert_eq!(reply.data.len(), 600 * 2400);
    let at = 300 * 2400 + 300 * 4;
    assert_eq!(reply.data[at..at + 4], [0x80, 0x80, 0x80, 0x00]);
}
