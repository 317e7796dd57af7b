use vstd::prelude::*;

use crate::sam_predictor::Size;

verus! {

/// The RGB samples, width and height of the image encoded in `bytes`, as the
/// image crate decodes it, or `None` where it cannot.
pub uninterp spec fn spec_decode_rgb8(bytes: Seq<u8>) -> Option<(Seq<u8>, u32, u32)>;

/// `image::load_from_memory` (format guessed from the bytes), converted
/// with `to_rgb8`: the samples of the result, row-major with three per
/// pixel, its width and its height; `None` where decoding fails.
/// Trusted: the result is named by `spec_decode_rgb8`; nothing more is
/// stated of it.
#[verifier::external_body]
fn decode_rgb8(bytes: &[u8]) -> (res: Option<(Vec<u8>, u32, u32)>)
    ensures
        match res {
            Some((p, w, h)) => spec_decode_rgb8(bytes@) == Some((p@, w, h)),
            None => spec_decode_rgb8(bytes@) is None,
        },
{
    match image::load_from_memory(bytes) {
        Ok(img) => {
            let rgb = img.to_rgb8();
            let (w, h) = rgb.dimensions();
            Some((rgb.into_raw(), w, h))
        },
        Err(_) => None,
    }
}

/// Decodes an encoded image into its RGB samples, row-major with three per
/// pixel, and its size `(height, width)`; `None` where the image crate
/// cannot decode the bytes.
pub fn load_image(bytes: &[u8]) -> (res: Option<(Vec<u8>, Size)>)
    ensures
        res is Some <==> spec_decode_rgb8(bytes@) is Some,
        res matches Some((p, size)) ==> spec_decode_rgb8(bytes@) == Some(
            (p@, size.1 as u32, size.0 as u32),
        ) && size.0 <= u32::MAX && size.1 <= u32::MAX,
{
    match decode_rgb8(bytes) {
        Some((pixels, w, h)) => Some((pixels, Size(h as usize, w as usize))),
        None => None,
    }
}

} // verus!
