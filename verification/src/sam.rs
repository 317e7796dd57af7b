use vstd::prelude::*;

use crate::sam_predictor::{spec_valid_torch_image_shape, Size};

verus! {

/// The padding `(right, bottom)` that brings an image of `h` by `w` to a
/// square of side `img_size`.
pub open spec fn spec_preprocess_padding(img_size: int, h: int, w: int) -> (int, int) {
    (img_size - w, img_size - h)
}

/// The padding `(right, bottom)` added to an `h` by `w` image so that the
/// model sees an `img_size` square; the image stays at the top left.
pub fn preprocess_padding(img_size: usize, h: usize, w: usize) -> (res: (usize, usize))
    requires
        h <= img_size,
        w <= img_size,
    ensures
        (res.0 as int, res.1 as int) == spec_preprocess_padding(img_size as int, h as int, w as int),
{
    (img_size - w, img_size - h)
}

/// For an image set on a predictor, padding fills the model's square input
/// exactly, at least one side needs no padding, and cropping the model's
/// output back to the input size removes exactly that padding.
pub proof fn lemma_padding_fits_input(shape: [usize; 4], img_size: usize)
    requires
        spec_valid_torch_image_shape(shape, img_size),
    ensures
        ({
            let input = Size(shape[2], shape[3]);
            let (padw, padh) = spec_preprocess_padding(img_size as int, input.0 as int, input.1 as int);
            &&& 0 <= padw && 0 <= padh
            &&& input.1 + padw == img_size
            &&& input.0 + padh == img_size
            &&& padw == 0 || padh == 0
        }),
{
}

} // verus!
