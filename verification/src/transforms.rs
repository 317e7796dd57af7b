use vstd::arithmetic::div_mod::{lemma_div_is_ordered, lemma_fundamental_div_mod, lemma_fundamental_div_mod_converse};
use vstd::prelude::*;

use image::imageops::FilterType;
use image::{ImageBuffer, Rgb};

use crate::sam_predictor::Size;

verus! {

/// The samples, row-major with three per pixel, of the RGB image of
/// `width` by `height` pixels with samples `pixels`, resampled to
/// `new_width` by `new_height` with the image crate's Catmull-Rom filter.
pub uninterp spec fn spec_catmull_rom_rgb8(
    pixels: Seq<u8>,
    width: u32,
    height: u32,
    new_width: u32,
    new_height: u32,
) -> Seq<u8>;

/// `image::imageops::resize` with `FilterType::CatmullRom` on the RGB image
/// `ImageBuffer::<Rgb<u8>, Vec<u8>>::from_raw(width, height, pixels)`,
/// returning the samples of the result.
/// Trusted: the result is named by `spec_catmull_rom_rgb8`, and has
/// `new_width * new_height * 3` samples, as every branch of the crate's
/// `resize` builds its output with `ImageBuffer::new(new_width, new_height)`
/// or a copy of an image of that size. `from_raw` succeeds as `pixels`
/// holds exactly `width * height` pixels; the crate's intermediate buffer of
/// `width * new_height` four-channel pixels and the output buffer panic
/// where their lengths overflow `usize`, which `requires` rules out.
#[verifier::external_body]
fn resize_rgb8(pixels: Vec<u8>, width: u32, height: u32, new_width: u32, new_height: u32) -> (res: Vec<u8>)
    requires
        pixels.len() == width * height * 3,
        width * new_height * 4 <= usize::MAX,
        new_width * new_height * 3 <= usize::MAX,
    ensures
        res@ == spec_catmull_rom_rgb8(pixels@, width, height, new_width, new_height),
        res.len() == new_width * new_height * 3,
{
    let img: ImageBuffer<Rgb<u8>, Vec<u8>> = ImageBuffer::from_raw(width, height, pixels).unwrap();
    image::imageops::resize(&img, new_width, new_height, FilterType::CatmullRom).into_raw()
}

/// `x * long / m` rounded to the nearest integer, halves rounded up; zero
/// when `m` is zero.
pub open spec fn scaled_round(x: nat, long: nat, m: nat) -> nat {
    if m == 0 {
        0
    } else {
        (2 * x * long + m) / (2 * m)
    }
}

/// The size an image of `oldh` by `oldw` pixels is resized to so that its
/// longer side is `long_side_length`, keeping the aspect ratio.
pub open spec fn spec_preprocess_shape(oldh: nat, oldw: nat, long_side_length: nat) -> (nat, nat) {
    let m = if oldh >= oldw { oldh } else { oldw };
    (scaled_round(oldh, long_side_length, m), scaled_round(oldw, long_side_length, m))
}

/// Resizes images so that their longest side is `target_length`, and maps
/// coordinates and boxes accordingly.
pub struct ResizeLongestSide {
    target_length: usize,
}

impl View for ResizeLongestSide {
    type V = nat;

    /// The target length of the longest side.
    closed spec fn view(&self) -> nat {
        self.target_length as nat
    }
}

proof fn lemma_scaled_round_bound(x: nat, long: nat, m: nat)
    requires
        x <= m,
    ensures
        scaled_round(x, long, m) <= long,
{
    if m > 0 {
        assert(2 * x * long + m <= 2 * m * long + m) by (nonlinear_arith)
            requires
                x <= m,
        ;
        lemma_div_is_ordered((2 * x * long + m) as int, (2 * m * long + m) as int, 2 * m as int);
        assert(2 * m * long + m == long * (2 * m) + m) by (nonlinear_arith);
        lemma_fundamental_div_mod_converse((2 * m * long + m) as int, 2 * m as int, long as int, m as int);
    }
}

/// `x * long / m` rounded to the nearest integer, halves rounded up.
fn scale_round(x: usize, long: usize, m: usize) -> (res: usize)
    requires
        x <= m,
    ensures
        res == scaled_round(x as nat, long as nat, m as nat),
{
    if m == 0 {
        return 0;
    }
    assert((x as u128) * (long as u128) <= u128::MAX) by (nonlinear_arith)
        requires
            x <= usize::MAX,
            long <= usize::MAX,
            usize::MAX <= 0xffff_ffff_ffff_ffff,
    ;
    let p: u128 = (x as u128) * (long as u128);
    let q: u128 = p / (m as u128);
    let r: u128 = p % (m as u128);
    proof {
        lemma_fundamental_div_mod(p as int, m as int);
        lemma_scaled_round_bound(x as nat, long as nat, m as nat);
    }
    let res: u128 = if 2 * r >= m as u128 {
        proof {
            assert(2 * x * long + m == (q + 1) * (2 * m) + (2 * r - m)) by (nonlinear_arith)
                requires
                    p == x * long,
                    p == m * q + r,
            ;
            lemma_fundamental_div_mod_converse(
                2 * x * long + m,
                2 * m as int,
                q + 1,
                2 * r - m,
            );
        }
        q + 1
    } else {
        proof {
            assert(2 * x * long + m == q * (2 * m) + (2 * r + m)) by (nonlinear_arith)
                requires
                    p == x * long,
                    p == m * q + r,
            ;
            lemma_fundamental_div_mod_converse(2 * x * long + m, 2 * m as int, q as int, 2 * r + m);
        }
        q
    };
    res as usize
}

impl ResizeLongestSide {
    pub fn new(target_length: usize) -> (res: Self)
        ensures
            res@ == target_length,
    {
        Self { target_length }
    }

    /// The target length of the longest side.
    pub fn target_length(&self) -> (res: usize)
        ensures
            res == self@,
    {
        self.target_length
    }

    /// The output size, in `(height, width)`, for an input of `oldh` by
    /// `oldw` and the target length `long_side_length` of the longer side:
    /// each side scaled by `long_side_length / max(oldh, oldw)` and rounded
    /// to the nearest integer, halves up; `(0, 0)` for an empty input.
    /// The rounding is exact: where `old * long_side_length / max` is
    /// exactly a half, the side is rounded up. Scaling in floating point can
    /// land just below or above such a half: in `f32`, `(15, 24, 100)` and
    /// `(81, 1080, 100)` give `Size(62, 100)` and `Size(7, 100)` where this
    /// gives `Size(63, 100)` and `Size(8, 100)`; in `f64`, `(145, 232, 100)`
    /// gives `Size(62, 100)` where this gives `Size(63, 100)`.
    pub fn get_preprocess_shape(&self, oldh: usize, oldw: usize, long_side_length: usize) -> (res: Size)
        ensures
            (res.0 as nat, res.1 as nat) == spec_preprocess_shape(
                oldh as nat,
                oldw as nat,
                long_side_length as nat,
            ),
    {
        let m = if oldh >= oldw { oldh } else { oldw };
        Size(scale_round(oldh, long_side_length, m), scale_round(oldw, long_side_length, m))
    }

    /// Resizes the RGB image of `height` by `width` pixels whose samples,
    /// row-major with three per pixel, are `pixels` (each taken as `u8`,
    /// dropping higher bits) to the size `get_preprocess_shape` gives for
    /// this target length, with the Catmull-Rom filter; returns the new
    /// samples and the new size `(height, width)`.
    pub fn apply_image(&self, pixels: &Vec<i32>, height: usize, width: usize) -> (res: (Vec<u8>, Size))
        requires
            pixels.len() == height * width * 3,
            height <= u32::MAX,
            width <= u32::MAX,
            self@ <= u32::MAX,
            ({
                let (h, w) = spec_preprocess_shape(height as nat, width as nat, self@);
                &&& width * h * 4 <= usize::MAX
                &&& w * h * 3 <= usize::MAX
            }),
        ensures
            (res.1.0 as nat, res.1.1 as nat) == spec_preprocess_shape(height as nat, width as nat, self@),
            res.0@ == spec_catmull_rom_rgb8(
                pixels@.map_values(|x: i32| x as u8),
                width as u32,
                height as u32,
                res.1.1 as u32,
                res.1.0 as u32,
            ),
            res.0.len() == res.1.0 * res.1.1 * 3,
    {
        let size = self.get_preprocess_shape(height, width, self.target_length);
        proof {
            let m = if height >= width { height as nat } else { width as nat };
            lemma_scaled_round_bound(height as nat, self@, m);
            lemma_scaled_round_bound(width as nat, self@, m);
        }
        let mut bytes: Vec<u8> = Vec::new();
        let mut k: usize = 0;
        while k < pixels.len()
            invariant
                k <= pixels.len(),
                bytes.len() == k,
                forall|j: int| 0 <= j < k ==> #[trigger] bytes@[j] == pixels@[j] as u8,
            decreases pixels.len() - k,
        {
            bytes.push(pixels[k] as u8);
            k += 1;
        }
        assert(bytes@ =~= pixels@.map_values(|x: i32| x as u8));
        assert(width * height * 3 == height * width * 3) by (nonlinear_arith);
        assert(size.1 * size.0 * 3 == size.0 * size.1 * 3) by (nonlinear_arith);
        let resized = resize_rgb8(bytes, width as u32, height as u32, size.1 as u32, size.0 as u32);
        (resized, size)
    }
}

/// The longer side of a non-empty input becomes exactly `long_side_length`,
/// the other side is at most that, and swapping height and width swaps the
/// output.
pub proof fn lemma_preprocess_shape_longest_side(oldh: nat, oldw: nat, long_side_length: nat)
    requires
        oldh > 0 || oldw > 0,
    ensures
        ({
            let (h, w) = spec_preprocess_shape(oldh, oldw, long_side_length);
            &&& oldh >= oldw ==> h == long_side_length && w <= long_side_length
            &&& oldw >= oldh ==> w == long_side_length && h <= long_side_length
            &&& spec_preprocess_shape(oldw, oldh, long_side_length) == (w, h)
        }),
{
    let m = if oldh >= oldw { oldh } else { oldw };
    let l = long_side_length;
    assert(2 * m * l + m == l * (2 * m) + m) by (nonlinear_arith);
    lemma_fundamental_div_mod_converse((2 * m * l + m) as int, 2 * m as int, l as int, m as int);
    lemma_scaled_round_bound(oldh, l, m);
    lemma_scaled_round_bound(oldw, l, m);
}

/// Each output side is the input side scaled by
/// `long_side_length / max(oldh, oldw)` and rounded to the nearest integer,
/// halves up: `h` is the one integer with
/// `oldh * long_side_length / m - 1/2 < h <= oldh * long_side_length / m + 1/2`,
/// and the same for `w`.
pub proof fn lemma_preprocess_shape_rounds_to_nearest(oldh: nat, oldw: nat, long_side_length: nat)
    requires
        oldh > 0 || oldw > 0,
    ensures
        ({
            let m = if oldh >= oldw { oldh } else { oldw };
            let (h, w) = spec_preprocess_shape(oldh, oldw, long_side_length);
            &&& 2 * oldh * long_side_length - m < 2 * h * m <= 2 * oldh * long_side_length + m
            &&& 2 * oldw * long_side_length - m < 2 * w * m <= 2 * oldw * long_side_length + m
        }),
{
    let m = if oldh >= oldw { oldh } else { oldw };
    let l = long_side_length;
    lemma_fundamental_div_mod((2 * oldh * l + m) as int, 2 * m as int);
    lemma_fundamental_div_mod((2 * oldw * l + m) as int, 2 * m as int);
    let (h, w) = spec_preprocess_shape(oldh, oldw, l);
    assert(2 * m * h == 2 * h * m) by (nonlinear_arith);
    assert(2 * m * w == 2 * w * m) by (nonlinear_arith);
}

} // verus!
