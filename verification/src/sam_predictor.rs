use vstd::prelude::*;
use vstd::std_specs::convert::FromSpecImpl;

verus! {

/// Colour layout of an input image.
#[derive(Clone, Copy, Debug, PartialEq, Eq, Structural)]
pub enum ImageFormat {
    RGB,
    BGR,
}

/// A spatial size in `(height, width)` order.
#[derive(Clone, Copy, Debug, PartialEq, Eq, Structural)]
pub struct Size(pub usize, pub usize);

/// The record a `Size` is stored as: `Some((height, width))`.
#[derive(Clone, Copy, Debug)]
pub struct SizeRecord(pub Option<(usize, usize)>);

impl From<(usize, usize)> for Size {
    fn from(hw: (usize, usize)) -> (res: Self) {
        Size(hw.0, hw.1)
    }
}

impl FromSpecImpl<(usize, usize)> for Size {
    open spec fn obeys_from_spec() -> bool {
        true
    }

    open spec fn from_spec(hw: (usize, usize)) -> Size {
        Size(hw.0, hw.1)
    }
}

impl Size {
    /// The record this size is saved as: the pair `(height, width)`.
    pub fn into_record(self) -> (res: SizeRecord)
        ensures
            res == SizeRecord(Some((self.0, self.1))),
    {
        SizeRecord(Some((self.0, self.1)))
    }
}

/// Whether a transformed image of shape `shape` (batch, channels, height,
/// width) can be given to a model whose input images are `img_size`
/// square: three channels, and the longer side `img_size`.
pub open spec fn spec_valid_torch_image_shape(shape: [usize; 4], img_size: usize) -> bool {
    &&& shape[1] == 3
    &&& (if shape[2] >= shape[3] { shape[2] } else { shape[3] }) == img_size
}

/// A transformed image is accepted exactly when it has three channels,
/// neither side is longer than the model's input size and one side equals
/// it; swapping height and width (a portrait image against a landscape one)
/// does not change whether it is accepted.
pub proof fn lemma_valid_torch_image_shape(shape: [usize; 4], img_size: usize)
    ensures
        spec_valid_torch_image_shape(shape, img_size) <==> {
            &&& shape[1] == 3
            &&& shape[2] <= img_size
            &&& shape[3] <= img_size
            &&& (shape[2] == img_size || shape[3] == img_size)
        },
        spec_valid_torch_image_shape(shape, img_size) == spec_valid_torch_image_shape(
            [shape[0], shape[1], shape[3], shape[2]],
            img_size,
        ),
{
}

/// The image a predictor holds: none, or the original size of the image
/// and the size it was resized to for the model.
pub struct PredictorState {
    is_image_set: bool,
    original_size: Option<Size>,
    input_size: Option<Size>,
}

impl PredictorState {
    #[verifier::type_invariant]
    spec fn inv(self) -> bool {
        self.is_image_set <==> (self.original_size is Some && self.input_size is Some)
    }
}

impl View for PredictorState {
    /// `Some((original_size, input_size))` once an image is set.
    type V = Option<(Size, Size)>;

    closed spec fn view(&self) -> Option<(Size, Size)> {
        if self.is_image_set {
            Some((self.original_size->0, self.input_size->0))
        } else {
            None
        }
    }
}

/// Whether `shape` is a valid transformed image for a model of input size
/// `img_size`; see `spec_valid_torch_image_shape`.
pub fn is_valid_torch_image_shape(shape: [usize; 4], img_size: usize) -> (res: bool)
    ensures
        res == spec_valid_torch_image_shape(shape, img_size),
{
    let long = if shape[2] >= shape[3] {
        shape[2]
    } else {
        shape[3]
    };
    shape[1] == 3 && long == img_size
}

impl PredictorState {
    /// No image set.
    pub fn new() -> (res: Self)
        ensures
            res@ is None,
    {
        PredictorState { is_image_set: false, original_size: None, input_size: None }
    }

    /// Records that the image of original size `original_size`, transformed
    /// to `shape`, is set.
    pub fn set_torch_image(&mut self, shape: [usize; 4], original_size: Size, img_size: usize)
        requires
            spec_valid_torch_image_shape(shape, img_size),
        ensures
            final(self)@ == Some((original_size, Size(shape[2], shape[3]))),
    {
        *self = PredictorState {
            is_image_set: true,
            original_size: Some(original_size),
            input_size: Some(Size(shape[2], shape[3])),
        };
    }

    /// Forgets the image.
    pub fn reset_image(&mut self)
        ensures
            final(self)@ is None,
    {
        *self = PredictorState { is_image_set: false, original_size: None, input_size: None };
    }

    pub fn is_image_set(&self) -> (res: bool)
        ensures
            res == self@ is Some,
    {
        proof {
            use_type_invariant(self);
        }
        self.is_image_set
    }

    /// The original size of the image, once one is set.
    pub fn original_size(&self) -> (res: Option<Size>)
        ensures
            res == (match self@ {
                Some((original, _)) => Some(original),
                None => None,
            }),
    {
        proof {
            use_type_invariant(self);
        }
        if self.is_image_set {
            self.original_size
        } else {
            None
        }
    }

    /// The size the image was resized to for the model, once one is set.
    pub fn input_size(&self) -> (res: Option<Size>)
        ensures
            res == (match self@ {
                Some((_, input)) => Some(input),
                None => None,
            }),
    {
        proof {
            use_type_invariant(self);
        }
        if self.is_image_set {
            self.input_size
        } else {
            None
        }
    }
}

/// Why the prompts of a prediction are refused.
#[derive(Clone, Copy, Debug, PartialEq, Eq, Structural)]
pub enum PromptError {
    /// No image was set before predicting.
    ImageNotSet,
    /// Point coordinates were given without their labels.
    PointLabelsMissing,
}

impl PredictorState {
    /// Checks the prompts of a prediction, given which of point
    /// coordinates and point labels were supplied: predicting needs a set
    /// image, and coordinates need their labels. Returns the original size
    /// of the image, from which coordinates and boxes are scaled.
    pub fn check_prompts(&self, has_point_coords: bool, has_point_labels: bool) -> (res: Result<
        Size,
        PromptError,
    >)
        ensures
            res == (match self@ {
                None => Err(PromptError::ImageNotSet),
                Some((original, _)) => if has_point_coords && !has_point_labels {
                    Err(PromptError::PointLabelsMissing)
                } else {
                    Ok(original)
                },
            }),
    {
        match self.original_size() {
            None => Err(PromptError::ImageNotSet),
            Some(original) => {
                if has_point_coords && !has_point_labels {
                    Err(PromptError::PointLabelsMissing)
                } else {
                    Ok(original)
                }
            },
        }
    }
}

} // verus!
