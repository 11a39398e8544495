use singing_sand::imaging::{compute_thumbnail, encode_waveform_png, square_rgb_thumbnail, WaveformPngError};
use singing_sand::raster::{column_bucket, rasterize, slice_bounds, smoothing_window, ColumnBar};
use singing_sand::settings::DisplayStyle;

const BG: [u8; 3] = [24, 24, 37];

fn pixel(buf: &[u8], w: usize, x: usize, y: usize) -> [u8; 3] {
    let i = (y * w + x) * 3;
    [buf[i], buf[i + 1], buf[i + 2]]
}

#[test]
fn empty_columns_are_background() {
    let buf = rasterize(2, 3, DisplayStyle::Mirrored, &vec![None, None]);
    assert_eq!(buf.len(), 18);
    for y in 0..3 {
        for x in 0..2 {
            assert_eq!(pixel(&buf, 2, x, y), BG);
        }
    }
}

#[test]
fn top_half_bars_grow_from_the_bottom() {
    let red = [255, 0, 0];
    let cols = vec![Some(ColumnBar { bar: 2, color: red }), Some(ColumnBar { bar: 9, color: red })];
    let buf = rasterize(2, 4, DisplayStyle::TopHalf, &cols);
    let col0: Vec<[u8; 3]> = (0..4).map(|y| pixel(&buf, 2, 0, y)).collect();
    assert_eq!(col0, vec![BG, BG, red, red]);
    let col1: Vec<[u8; 3]> = (0..4).map(|y| pixel(&buf, 2, 1, y)).collect();
    assert_eq!(col1, vec![red, red, red, red]);
}

#[test]
fn mirrored_bars_are_centered() {
    let c = [1, 2, 3];
    let buf = rasterize(1, 6, DisplayStyle::Mirrored, &vec![Some(ColumnBar { bar: 1, color: c })]);
    let col: Vec<[u8; 3]> = (0..6).map(|y| pixel(&buf, 1, 0, y)).collect();
    // Drawn rows 2..4 around the center (3), shown upside down: rows 2 and 3.
    assert_eq!(col, vec![BG, BG, c, c, BG, BG]);
}

#[test]
fn zero_width_gives_no_pixels() {
    assert!(rasterize(0, 10, DisplayStyle::TopHalf, &Vec::new()).is_empty());
}

#[test]
fn column_inputs() {
    assert_eq!(slice_bounds(100, 10, 50), Some((10, 50)));
    assert_eq!(slice_bounds(100, 10, 500), Some((10, 100)));
    assert_eq!(slice_bounds(100, 100, 500), None);
    assert_eq!(slice_bounds(0, 0, 0), None);
    assert_eq!(column_bucket(0, 1000, 250), 0);
    assert_eq!(column_bucket(249, 1000, 250), 996);
    assert_eq!(column_bucket(3, 10, 4), 7);
    assert_eq!(smoothing_window(5, 4, 100), (3, 7));
    assert_eq!(smoothing_window(1, 6, 100), (0, 4));
    assert_eq!(smoothing_window(98, 6, 100), (95, 99));
    assert_eq!(smoothing_window(5, 1, 100), (5, 5));
}

fn tiny_png() -> Vec<u8> {
    let mut out = std::io::Cursor::new(Vec::new());
    image::write_buffer_with_format(
        &mut out,
        &[255, 0, 0, 0, 255, 0, 0, 0, 255, 255, 255, 255],
        2,
        2,
        image::ExtendedColorType::Rgb8,
        image::ImageFormat::Png,
    )
    .unwrap();
    out.into_inner()
}

#[test]
fn thumbnails_are_square_rgb() {
    let raw = tiny_png();
    let thumb = compute_thumbnail(&raw).unwrap();
    assert_eq!(thumb.len(), 88 * 88 * 3);
    let small = square_rgb_thumbnail(&raw, 5).unwrap();
    assert_eq!(small.len(), 5 * 5 * 3);
}

#[test]
fn undecodable_art_has_no_thumbnail() {
    assert_eq!(compute_thumbnail(b"not an image"), None);
    assert_eq!(compute_thumbnail(&[]), None);
}

#[test]
fn waveform_png_round_trips() {
    let rgb = rasterize(3, 2, DisplayStyle::TopHalf, &vec![Some(ColumnBar { bar: 1, color: [9, 8, 7] }), None, None]);
    let png = encode_waveform_png(3, 2, &rgb).unwrap();
    assert_eq!(&png[..8], &[0x89, b'P', b'N', b'G', 0x0d, 0x0a, 0x1a, 0x0a]);
    let back = image::load_from_memory(&png).unwrap().to_rgb8();
    assert_eq!((back.width(), back.height()), (3, 2));
    assert_eq!(back.into_raw(), rgb);
}

#[test]
fn waveform_png_ignores_extra_bytes() {
    let mut rgb = vec![1u8; 12];
    let exact = encode_waveform_png(2, 2, &rgb).unwrap();
    rgb.extend_from_slice(&[5, 5, 5]);
    assert_eq!(encode_waveform_png(2, 2, &rgb).unwrap(), exact);
}

#[test]
fn waveform_png_refuses_short_buffers() {
    assert!(matches!(
        encode_waveform_png(2, 2, &vec![0u8; 11]),
        Err(WaveformPngError::InvalidDimensions)
    ));
    assert!(matches!(
        encode_waveform_png(u32::MAX, u32::MAX, &vec![0u8; 3]),
        Err(WaveformPngError::InvalidDimensions)
    ));
}

#[test]
fn waveform_png_of_empty_image_is_refused_by_encoder() {
    assert!(matches!(encode_waveform_png(0, 4, &Vec::new()), Err(WaveformPngError::Encode(_))));
}
