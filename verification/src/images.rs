//! Decoding and resampling raster images with the image crate: the wallpaper of the
//! lock screen, the launcher's icons and the control centre's profile picture. The
//! resampling filters work in floating point inside the image crate; what comes out
//! is named here, and the library takes it from there.
use vstd::prelude::*;

verus! {

/// The RGBA bytes the image crate gives for `bytes` read as the format its file
/// extension `ext` names (`ImageFormat::from_extension`, ignoring ASCII case), scaled
/// to fill `w` x `h` and cropped to it (`resize_to_fill` with the triangle filter):
/// `None` where the extension names no format or the bytes do not decode.
pub uninterp spec fn filled_rgba(bytes: Seq<u8>, ext: Seq<char>, w: u32, h: u32) -> Option<Seq<u8>>;

/// The RGBA bytes the image crate gives for `bytes`, their format guessed from their
/// content (`load_from_memory`), scaled to exactly `w` x `h` (`resize_exact` with the
/// Lanczos filter): `None` where the bytes do not decode.
pub uninterp spec fn exact_rgba(bytes: Seq<u8>, w: u32, h: u32) -> Option<Seq<u8>>;

/// `ImageFormat::from_extension(ext)`, `load_from_memory_with_format`, then
/// `resize_to_fill(w, h, Triangle)`, `to_rgba8` and `into_raw`; this is what
/// `image::open` does with a file of that extension, reading from memory. The
/// result is named, not described. `requires` keeps the output buffer's length
/// within `usize` (`ImageBuffer::new` panics past it); what the intermediate scaled
/// image may allocate for extreme aspect ratios is not stated.
#[verifier::external_body]
pub(crate) fn decode_fill(bytes: &[u8], ext: &str, w: u32, h: u32) -> (r: Option<Vec<u8>>)
    requires
        w * h * 4 <= usize::MAX,
    ensures
        match filled_rgba(bytes@, ext@, w, h) {
            Some(d) => r matches Some(x) && x@ == d,
            None => r is None,
        },
{
    let format = image::ImageFormat::from_extension(ext)?;
    let img = image::load_from_memory_with_format(bytes, format).ok()?;
    Some(img.resize_to_fill(w, h, image::imageops::FilterType::Triangle).to_rgba8().into_raw())
}

/// `image::load_from_memory(bytes)`, then `resize_exact(w, h, Lanczos3)`, `to_rgba8`
/// and `into_raw`. The result is named, not described. `requires` keeps the output
/// buffer's length within `usize` (`ImageBuffer::new` panics past it).
#[verifier::external_body]
pub(crate) fn decode_exact(bytes: &[u8], w: u32, h: u32) -> (r: Option<Vec<u8>>)
    requires
        w * h * 4 <= usize::MAX,
    ensures
        match exact_rgba(bytes@, w, h) {
            Some(d) => r matches Some(x) && x@ == d,
            None => r is None,
        },
{
    let img = image::load_from_memory(bytes).ok()?;
    Some(img.resize_exact(w, h, image::imageops::FilterType::Lanczos3).to_rgba8().into_raw())
}

} // verus!
