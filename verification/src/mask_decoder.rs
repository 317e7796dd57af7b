use vstd::prelude::*;

use crate::conv_transpose_2d::{spec_init_layout, ConvTranspose2dConfig, ConvTranspose2dLayout, ConvTranspose2dSettings};

verus! {

/// The sizes of the layers of a mask decoder.
pub struct MaskDecoderLayout {
    pub transformer_dim: usize,
    /// One token per multimask output, plus one for the single mask.
    pub num_mask_tokens: usize,
    /// Shape of the IoU token embedding: one token of `transformer_dim`.
    pub iou_token_shape: (usize, usize),
    /// Shape of the mask token embeddings.
    pub mask_tokens_shape: (usize, usize),
    /// First upscaling step: `transformer_dim` to `transformer_dim / 4`
    /// channels, kernel 2, stride 2.
    pub output_upscaling0: ConvTranspose2dConfig,
    /// Channels of the norm between the two upscaling steps.
    pub output_upscaling1_channels: usize,
    /// Second upscaling step: `transformer_dim / 4` to `transformer_dim / 8`
    /// channels, kernel 2, stride 2.
    pub output_upscaling3: ConvTranspose2dConfig,
    /// Number of hypernetwork MLPs, one per mask token.
    pub num_hypernetworks: usize,
    /// Each hypernetwork MLP as (input, hidden, output, layers).
    pub hypernetwork_mlp: (usize, usize, usize, usize),
    /// The IoU prediction head as (input, hidden, output, layers).
    pub iou_prediction_head: (usize, usize, usize, usize),
}

/// The settings of a 2x2, stride-2 transposed convolution from `inc` to
/// `outc` channels.
pub open spec fn upscaling_settings(inc: usize, outc: usize) -> ConvTranspose2dSettings {
    ConvTranspose2dSettings {
        in_channels: inc,
        out_channels: outc,
        kernel_size: [2, 2],
        stride: [2, 2],
        padding: [0, 0],
        padding_out: [0, 0],
        dilation: [1, 1],
        groups: 1,
        bias: true,
    }
}

fn upscaling_config(inc: usize, outc: usize) -> (res: ConvTranspose2dConfig)
    ensures
        res@ == upscaling_settings(inc, outc),
{
    let mut config = ConvTranspose2dConfig::new(inc, outc, [2, 2]);
    config.set_stride([2, 2]);
    config
}

/// Each upscaling step of the mask decoder is a fresh
/// `ConvTranspose2dConfig::new(inc, outc, [2, 2])` with only its stride set
/// to `[2, 2]`: it keeps the default bias, no padding, dilation `[1, 1]`
/// and one group, so the module it builds has a bias of `outc` values.
pub proof fn lemma_upscaling_layout(inc: usize, outc: usize)
    ensures
        upscaling_settings(inc, outc).bias,
        spec_init_layout(upscaling_settings(inc, outc)) == (ConvTranspose2dLayout {
            weight_shape: [inc, outc, 2usize, 2usize],
            bias_len: Some(outc),
            stride: [2usize, 2usize],
            padding: [0usize, 0usize],
            padding_out: [0usize, 0usize],
            dilation: [1usize, 1usize],
            groups: 1usize,
        }),
{
}

impl MaskDecoderLayout {
    /// The layout of a mask decoder over `transformer_dim` channels, with
    /// `num_multimask_outputs` (default 3) masks for ambiguous prompts and an
    /// IoU head of `iou_head_depth` (default 3) layers of
    /// `iou_head_hidden_dim` (default 256) units.
    pub fn new(
        transformer_dim: usize,
        num_multimask_outputs: Option<usize>,
        iou_head_depth: Option<usize>,
        iou_head_hidden_dim: Option<usize>,
    ) -> (res: Self)
        requires
            num_multimask_outputs.unwrap_or(3) < usize::MAX,
        ensures
            ({
                let outputs = num_multimask_outputs.unwrap_or(3);
                let tokens = (outputs + 1) as usize;
                let td = transformer_dim;
                &&& res.transformer_dim == td
                &&& res.num_mask_tokens == tokens
                &&& res.iou_token_shape == (1usize, td)
                &&& res.mask_tokens_shape == (tokens, td)
                &&& res.output_upscaling0@ == upscaling_settings(td, td / 4)
                &&& res.output_upscaling1_channels == td / 4
                &&& res.output_upscaling3@ == upscaling_settings(td / 4, td / 8)
                &&& res.num_hypernetworks == tokens
                &&& res.hypernetwork_mlp == (td, td, td / 8, 3usize)
                &&& res.iou_prediction_head == (
                    td,
                    iou_head_hidden_dim.unwrap_or(256),
                    tokens,
                    iou_head_depth.unwrap_or(3),
                )
            }),
    {
        let num_multimask_outputs = match num_multimask_outputs {
            Some(n) => n,
            None => 3,
        };
        let iou_head_depth = match iou_head_depth {
            Some(n) => n,
            None => 3,
        };
        let iou_head_hidden_dim = match iou_head_hidden_dim {
            Some(n) => n,
            None => 256,
        };
        let num_mask_tokens = num_multimask_outputs + 1;
        MaskDecoderLayout {
            transformer_dim,
            num_mask_tokens,
            iou_token_shape: (1, transformer_dim),
            mask_tokens_shape: (num_mask_tokens, transformer_dim),
            output_upscaling0: upscaling_config(transformer_dim, transformer_dim / 4),
            output_upscaling1_channels: transformer_dim / 4,
            output_upscaling3: upscaling_config(transformer_dim / 4, transformer_dim / 8),
            num_hypernetworks: num_mask_tokens,
            hypernetwork_mlp: (transformer_dim, transformer_dim, transformer_dim / 8, 3),
            iou_prediction_head: (
                transformer_dim,
                iou_head_hidden_dim,
                num_mask_tokens,
                iou_head_depth,
            ),
        }
    }
}

/// Which of `num_masks` predicted masks a decoder returns, as
/// `(first, count)`: all but the first when multiple masks are asked for,
/// else only the first.
pub open spec fn spec_mask_selection(multimask_output: bool, num_masks: int) -> (int, int) {
    if multimask_output {
        (1, num_masks - 1)
    } else {
        (0, 1)
    }
}

/// The masks (and IoU predictions) a decoder returns out of the
/// `num_masks` it predicts; see `spec_mask_selection`.
pub fn mask_selection(multimask_output: bool, num_masks: usize) -> (res: (usize, usize))
    requires
        num_masks >= 1,
    ensures
        (res.0 as int, res.1 as int) == spec_mask_selection(multimask_output, num_masks as int),
{
    if multimask_output {
        (1, num_masks - 1)
    } else {
        (0, 1)
    }
}

/// A decoder asked for multiple masks returns one per multimask output
/// (three by default), and a single mask otherwise; the selection always
/// lies within the predicted masks.
pub proof fn lemma_mask_selection_counts(num_multimask_outputs: Option<usize>, multimask_output: bool)
    requires
        num_multimask_outputs.unwrap_or(3) < usize::MAX,
    ensures
        ({
            let outputs = num_multimask_outputs.unwrap_or(3);
            let tokens = outputs + 1;
            let (first, count) = spec_mask_selection(multimask_output, tokens);
            &&& multimask_output ==> count == outputs
            &&& !multimask_output ==> count == 1
            &&& num_multimask_outputs is None && multimask_output ==> count == 3
            &&& first + count <= tokens
        }),
{
}

} // verus!
