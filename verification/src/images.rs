//! What the `image` crate tells of stored images and does to them: their
//! format, their size, and a resized copy.

use vstd::prelude::*;

verus! {

/// The image formats that the API tells apart.
#[derive(Debug, Clone, Copy, PartialEq, Eq, Structural)]
pub enum ImageKind {
    Png,
    Jpeg,
    WebP,
    Bmp,
    /// Any other format that `image` recognises.
    Other,
}

/// The format that `image::guess_format` recognises in `bytes`, if any.
pub uninterp spec fn spec_guess_format(bytes: Seq<u8>) -> Option<ImageKind>;

/// Trusted: `image::guess_format`, which reads the format from the leading
/// magic bytes; `Err` becomes `None` and formats other than PNG, JPEG,
/// WebP and BMP become `Other`. The result is named, not stated.
#[verifier::external_body]
pub(crate) fn guess_format(bytes: &[u8]) -> (r: Option<ImageKind>)
    ensures
        r == spec_guess_format(bytes@),
{
    match image::guess_format(bytes) {
        Ok(image::ImageFormat::Png) => Some(ImageKind::Png),
        Ok(image::ImageFormat::Jpeg) => Some(ImageKind::Jpeg),
        Ok(image::ImageFormat::WebP) => Some(ImageKind::WebP),
        Ok(image::ImageFormat::Bmp) => Some(ImageKind::Bmp),
        Ok(_) => Some(ImageKind::Other),
        Err(_) => None,
    }
}

/// The width and height of the image that `image::load_from_memory`
/// decodes from `bytes`, or `None` when it cannot decode them.
pub uninterp spec fn spec_decoded_size(bytes: Seq<u8>) -> Option<(u32, u32)>;

/// Trusted: decodes `bytes` with `image::load_from_memory` and gives the
/// image's `width()` and `height()`. The result is named, not stated.
#[verifier::external_body]
pub(crate) fn decoded_size(bytes: &[u8]) -> (r: Option<(u32, u32)>)
    ensures
        r == spec_decoded_size(bytes@),
{
    match image::load_from_memory(bytes) {
        Ok(img) => Some((img.width(), img.height())),
        Err(_) => None,
    }
}

/// The bytes of the image in `bytes` resized to fit `w` by `h` with the
/// triangle filter and encoded as `kind`, or `None` when decoding or
/// encoding fails.
pub uninterp spec fn spec_resized(bytes: Seq<u8>, kind: ImageKind, w: u32, h: u32) -> Option<
    Seq<u8>,
>;

/// Trusted: decodes `bytes` with `image::load_from_memory`, resizes with
/// `DynamicImage::resize(w, h, FilterType::Triangle)` and encodes the
/// result with `PngEncoder`, `JpegEncoder` or the lossless `WebPEncoder`
/// for `kind`. The result is named, not stated.
#[verifier::external_body]
pub(crate) fn resized(bytes: &[u8], kind: ImageKind, w: u32, h: u32) -> (r: Option<Vec<u8>>)
    requires
        kind == ImageKind::Png || kind == ImageKind::Jpeg || kind == ImageKind::WebP,
    ensures
        r matches Some(v) ==> spec_resized(bytes@, kind, w, h) == Some(v@),
        r is None ==> spec_resized(bytes@, kind, w, h) is None,
{
    let img = image::load_from_memory(bytes).ok()?.resize(w, h, image::imageops::FilterType::Triangle);
    let mut out: Vec<u8> = Vec::new();
    let written = match kind {
        ImageKind::Png => img.write_with_encoder(image::codecs::png::PngEncoder::new(&mut out)),
        ImageKind::Jpeg => img.write_with_encoder(image::codecs::jpeg::JpegEncoder::new(&mut out)),
        _ => img.write_with_encoder(image::codecs::webp::WebPEncoder::new_lossless(&mut out)),
    };
    written.ok()?;
    Some(out)
}

} // verus!
