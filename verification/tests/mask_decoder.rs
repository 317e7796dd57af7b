use sam_rs::mask_decoder::{mask_selection, MaskDecoderLayout};

#[test]
fn mask_decoder_default_layout() {
    let layout = MaskDecoderLayout::new(256, None, None, None);
    assert_eq!(layout.transformer_dim, 256);
    assert_eq!(layout.num_mask_tokens, 4);
    assert_eq!(layout.iou_token_shape, (1, 256));
    assert_eq!(layout.mask_tokens_shape, (4, 256));
    assert_eq!(layout.output_upscaling1_channels, 64);
    assert_eq!(layout.num_hypernetworks, 4);
    assert_eq!(layout.hypernetwork_mlp, (256, 256, 32, 3));
    assert_eq!(layout.iou_prediction_head, (256, 256, 4, 3));
    let up0 = layout.output_upscaling0.init_layout();
    assert_eq!(up0.weight_shape, [256, 64, 2, 2]);
    assert_eq!(up0.stride, [2, 2]);
    let up3 = layout.output_upscaling3.init_layout();
    assert_eq!(up3.weight_shape, [64, 32, 2, 2]);
    assert_eq!(up3.stride, [2, 2]);
}

#[test]
fn mask_decoder_custom_layout() {
    let layout = MaskDecoderLayout::new(64, Some(5), Some(2), Some(128));
    assert_eq!(layout.num_mask_tokens, 6);
    assert_eq!(layout.mask_tokens_shape, (6, 64));
    assert_eq!(layout.hypernetwork_mlp, (64, 64, 8, 3));
    assert_eq!(layout.iou_prediction_head, (64, 128, 6, 2));
}

#[test]
fn mask_selection_returns_three_masks_by_default() {
    let layout = MaskDecoderLayout::new(256, None, None, None);
    assert_eq!(mask_selection(true, layout.num_mask_tokens), (1, 3));
    assert_eq!(mask_selection(false, layout.num_mask_tokens), (0, 1));
    assert_eq!(mask_selection(true, 1), (1, 0));
}
