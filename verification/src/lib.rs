//! Verified shape, layout and key-mapping logic of a Segment Anything
//! model implementation.

pub mod sam_predictor;
pub mod recorder;
pub mod burn_helpers;
pub mod tiny_vit_attention;
pub mod image_encoder_attention;
pub mod transforms;
pub mod helpers;
pub mod conv_transpose_2d;
pub mod mask_decoder;
pub mod sam;
