use sam_rs::conv_transpose_2d::ConvTranspose2dConfig;

#[test]
fn conv_transpose_default_layout() {
    let layout = ConvTranspose2dConfig::new(64, 16, [2, 3]).init_layout();
    assert_eq!(layout.weight_shape, [64, 16, 2, 3]);
    assert_eq!(layout.bias_len, Some(16));
    assert_eq!(layout.stride, [1, 1]);
    assert_eq!(layout.padding, [0, 0]);
    assert_eq!(layout.padding_out, [0, 0]);
    assert_eq!(layout.dilation, [1, 1]);
    assert_eq!(layout.groups, 1);
}

#[test]
fn conv_transpose_setters_chain() {
    let mut config = ConvTranspose2dConfig::new(8, 4, [2, 2]);
    config
        .set_stride([2, 2])
        .set_padding([1, 0])
        .set_padding_out([0, 1])
        .set_bias(false);
    let layout = config.init_layout();
    assert_eq!(layout.weight_shape, [8, 4, 2, 2]);
    assert_eq!(layout.bias_len, None);
    assert_eq!(layout.stride, [2, 2]);
    assert_eq!(layout.padding, [1, 0]);
    assert_eq!(layout.padding_out, [0, 1]);
}

#[test]
fn conv_transpose_layout_ignores_dilation_and_groups() {
    let mut config = ConvTranspose2dConfig::new(8, 4, [2, 2]);
    config.set_dilation([3, 3]).set_groups(2);
    let layout = config.init_layout();
    assert_eq!(layout.dilation, [1, 1]);
    assert_eq!(layout.groups, 1);
}
