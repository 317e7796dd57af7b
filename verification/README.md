# sam_rs

Shape, layout and bookkeeping logic of a Segment Anything model built on
burn, with machine-checked contracts.

- `src/` — the verified library:
  - `recorder`: the mapping from PyTorch state-dictionary parameter names to
    burn module paths (`key_replacer`).
  - `burn_helpers`: reshaping with an inferred dimension (`calc_dims`),
    `repeat_interleave` on row-major data, and the axis order of
    `unsqueeze_end`.
  - `transforms`: the output size of `ResizeLongestSide` and the resizing
    of RGB images to it.
  - `helpers`: decoding an encoded image into RGB samples and its size.
  - `conv_transpose_2d`: the transposed-convolution configuration and the
    layout of the module it builds.
  - `tiny_vit_attention`: the layer sizes and position-bias index table of
    TinyViT attention.
  - `image_encoder_attention`: the layer sizes of ViT attention, and the
    relative-position rows read by each query and key of equal-size
    attention.
  - `mask_decoder`, `sam`: layer sizes of the mask decoder, the choice of
    output masks, and the padding of model inputs.
  - `sam_predictor`: `Size`, `ImageFormat`, the image state of a
    predictor and the checks on its prompts.
- `tests/` — tests of the library.
- `app/` — the burn modules, tensor and image code, and the PyTorch bridge,
  built on the library.
