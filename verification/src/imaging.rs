//! Image work delegated to the `image` crate: the square album-art
//! thumbnail and the PNG encoding of a rendered waveform.

use vstd::prelude::*;

verus! {

#[verifier::external_type_specification]
#[verifier::external_body]
pub struct ExImageError(image::ImageError);

/// Side, in pixels, of the album-art thumbnail stored with each track.
pub const THUMBNAIL_SIDE: u32 = 88;

// ── Outside calls ───────────────────────────────────────────────────────────

/// Whether `image::load_from_memory` decodes `raw` (the format is guessed
/// from the bytes themselves).
pub uninterp spec fn image_decodes(raw: Seq<u8>) -> bool;

/// The width and height of the image that `image::load_from_memory`
/// decodes from `raw`.
pub uninterp spec fn decoded_size_of(raw: Seq<u8>) -> (u32, u32);

/// What `DynamicImage::resize_to_fill` (triangle filter, a `side` x `side`
/// target) followed by `DynamicImage::to_rgb8` makes of the image decoded
/// from `raw`: its width, its height and its raw RGB buffer.
pub uninterp spec fn rgb8_fill_of(raw: Seq<u8>, side: u32) -> (u32, u32, Seq<u8>);

/// The decoded image is in proportion enough for the scaled copy to cover
/// a `side` x `side` square: neither side is zero, and neither side exceeds
/// the other `u32::MAX / side` times or more (beyond that, `resize_to_fill`
/// clamps the scaled side to `u32::MAX` and the crop comes out short).
pub open spec fn fills_square(width: u32, height: u32, side: u32) -> bool {
    &&& 0 < width
    &&& 0 < height
    &&& width * side < u32::MAX * height
    &&& height * side < u32::MAX * width
}

/// Calls `image::load_from_memory`, reads the decoded size, then calls
/// `DynamicImage::resize_to_fill` with a square target and the triangle
/// filter and `DynamicImage::to_rgb8`, and takes the RGB image apart into
/// its width, height and raw buffer. Claimed:
/// - a result comes back exactly when the bytes decode;
/// - the decoded size and the RGB image are those named by
///   `decoded_size_of` and `rgb8_fill_of`;
/// - the buffer holds exactly `width * height` RGB pixels (the resize ends
///   in a crop copied into a buffer of its own size; the conversion keeps
///   the size);
/// - the RGB image is `side` x `side` when the decoded image fills the
///   square (`fills_square`): the scale factor is then taken from the
///   shorter side, which scales to `side` exactly, the longer side scales to
///   at least `side` and at most `u32::MAX`, and the centred crop is
///   `side` x `side`.
/// An image far out of proportion may exhaust memory; that is left unsaid.
#[verifier::external_body]
fn decode_fill_rgb8(raw: &[u8], side: u32) -> (r: Option<(u32, u32, u32, u32, Vec<u8>)>)
    ensures
        r is Some <==> image_decodes(raw@),
        r matches Some(t) ==> {
            &&& (t.0, t.1) == decoded_size_of(raw@)
            &&& (t.2, t.3, t.4@) == rgb8_fill_of(raw@, side)
            &&& t.4@.len() == 3 * t.2 * t.3
            &&& fills_square(t.0, t.1, side) ==> t.2 == side && t.3 == side
        },
{
    let img = image::load_from_memory(raw).ok()?;
    let (source_width, source_height) = (img.width(), img.height());
    let rgb = img.resize_to_fill(side, side, image::imageops::FilterType::Triangle).to_rgb8();
    let (width, height) = rgb.dimensions();
    Some((source_width, source_height, width, height, rgb.into_raw()))
}

/// The PNG file that `image` writes for an 8-bit RGB pixel buffer of the
/// given dimensions, or `None` where the encoder refuses it.
pub uninterp spec fn png_of_rgb8(width: u32, height: u32, pixels: Seq<u8>) -> Option<Seq<u8>>;

/// Calls `image::write_buffer_with_format` with `ImageFormat::Png` and
/// `ExtendedColorType::Rgb8` on an in-memory writer. Claimed: the bytes
/// written, or the refusal, are those named by `png_of_rgb8`. The encoder
/// asserts that the buffer holds exactly `3 * width * height` bytes, hence
/// the `requires`.
#[verifier::external_body]
fn write_png_rgb8(pixels: &[u8], width: u32, height: u32) -> (r: Result<Vec<u8>, image::ImageError>)
    requires
        pixels@.len() == 3 * width * height,
    ensures
        match r {
            Ok(bytes) => png_of_rgb8(width, height, pixels@) == Some(bytes@),
            Err(_) => png_of_rgb8(width, height, pixels@) is None,
        },
{
    let mut out = std::io::Cursor::new(Vec::new());
    image::write_buffer_with_format(
        &mut out,
        pixels,
        width,
        height,
        image::ExtendedColorType::Rgb8,
        image::ImageFormat::Png,
    )?;
    Ok(out.into_inner())
}

// ── Thumbnails ──────────────────────────────────────────────────────────────

/// Decodes `raw` and scales and crops it to fill a `side` x `side` square;
/// the result is its RGB bytes, row by row (`side` x `side` pixels unless
/// the image is far out of proportion). `None` when `raw` does not decode.
pub fn square_rgb_thumbnail(raw: &[u8], side: u32) -> (r: Option<Vec<u8>>)
    ensures
        r is Some <==> image_decodes(raw@),
        r matches Some(px) ==> {
            let (width, height, pixels) = rgb8_fill_of(raw@, side);
            &&& px@ == pixels
            &&& px@.len() == 3 * width * height
            &&& fills_square(decoded_size_of(raw@).0, decoded_size_of(raw@).1, side) ==> px@.len()
                == 3 * side * side
        },
{
    match decode_fill_rgb8(raw, side) {
        Some((_, _, _, _, px)) => Some(px),
        None => None,
    }
}

/// The stored thumbnail of a piece of album art: its RGB bytes at
/// `THUMBNAIL_SIDE` x `THUMBNAIL_SIDE` (unless the art is far out of
/// proportion), or `None` when the art does not decode.
pub fn compute_thumbnail(raw: &[u8]) -> (r: Option<Vec<u8>>)
    ensures
        r is Some <==> image_decodes(raw@),
        r matches Some(px) ==> {
            let (width, height, pixels) = rgb8_fill_of(raw@, THUMBNAIL_SIDE);
            &&& px@ == pixels
            &&& px@.len() == 3 * width * height
            &&& fills_square(
                decoded_size_of(raw@).0,
                decoded_size_of(raw@).1,
                THUMBNAIL_SIDE,
            ) ==> px@.len() == 3 * THUMBNAIL_SIDE * THUMBNAIL_SIDE
        },
{
    square_rgb_thumbnail(raw, THUMBNAIL_SIDE)
}

// ── Waveform PNG ────────────────────────────────────────────────────────────

/// Why a rendered waveform could not be turned into a PNG file.
#[derive(Debug)]
pub enum WaveformPngError {
    /// The pixel buffer is shorter than `width * height` RGB pixels (or that
    /// size does not fit in memory).
    InvalidDimensions,
    /// The PNG encoder refused the image.
    Encode(image::ImageError),
}

/// Number of bytes in a `width` x `height` RGB image.
pub open spec fn rgb_len(width: u32, height: u32) -> int {
    3 * width * height
}

/// Encodes the first `width * height` RGB pixels of `rgb` as a PNG file.
/// Fails with `InvalidDimensions` exactly when `rgb` is too short for them
/// (or their size does not fit in a `usize`); extra bytes are ignored.
pub fn encode_waveform_png(width: u32, height: u32, rgb: &Vec<u8>) -> (r: Result<
    Vec<u8>,
    WaveformPngError,
>)
    ensures
        (r matches Err(WaveformPngError::InvalidDimensions)) <==> !(rgb_len(width, height)
            <= usize::MAX && rgb_len(width, height) <= rgb@.len()),
        rgb_len(width, height) <= usize::MAX && rgb_len(width, height) <= rgb@.len() ==> {
            let pixels = rgb@.subrange(0, rgb_len(width, height));
            match r {
                Ok(bytes) => png_of_rgb8(width, height, pixels) == Some(bytes@),
                Err(_) => png_of_rgb8(width, height, pixels) is None,
            }
        },
{
    let w: u128 = width as u128;
    let h: u128 = height as u128;
    assert(3 * w * h <= 3 * 0xffff_ffffu128 * 0xffff_ffffu128) by (nonlinear_arith)
        requires
            w <= 0xffff_ffff,
            h <= 0xffff_ffff,
    ;
    let n_wide: u128 = 3 * w * h;
    if n_wide > usize::MAX as u128 || n_wide > rgb.len() as u128 {
        return Err(WaveformPngError::InvalidDimensions);
    }
    let n = n_wide as usize;
    let (pixels, _) = rgb.as_slice().split_at(n);
    match write_png_rgb8(pixels, width, height) {
        Ok(bytes) => Ok(bytes),
        Err(e) => Err(WaveformPngError::Encode(e)),
    }
}

} // verus!
