use sam_rs::tiny_vit_attention::TinyVitAttentionLayout;
use sam_rs::tiny_vit_attention::create_attention_biases;

#[test]
fn attention_biases_of_a_2x2_grid() {
    let biases = create_attention_biases(4, (2, 2));
    assert_eq!(biases.biases_shape, (4, 4));
    assert_eq!(biases.bias_idxs_shape, (4, 4));
    // offsets (|dy|, |dx|): (0,0)=0, (0,1)=1, (1,0)=2, (1,1)=3
    assert_eq!(
        biases.bias_idxs,
        vec![0, 1, 2, 3, 1, 0, 3, 2, 2, 3, 0, 1, 3, 2, 1, 0]
    );
}

#[test]
fn attention_biases_are_symmetric_with_zero_diagonal() {
    let (h, w) = (3usize, 5usize);
    let n = h * w;
    let biases = create_attention_biases(2, (h, w));
    assert_eq!(biases.biases_shape, (2, n));
    for p1 in 0..n {
        assert_eq!(biases.bias_idxs[p1 * n + p1], 0);
        for p2 in 0..n {
            let idx = biases.bias_idxs[p1 * n + p2];
            assert_eq!(idx, biases.bias_idxs[p2 * n + p1]);
            assert!((idx as usize) < n);
            let dy = (p1 / w).abs_diff(p2 / w);
            let dx = (p1 % w).abs_diff(p2 % w);
            assert_eq!(idx as usize, dy * w + dx);
        }
    }
}

#[test]
fn attention_biases_of_an_empty_grid() {
    let biases = create_attention_biases(3, (0, 4));
    assert_eq!(biases.biases_shape, (3, 0));
    assert!(biases.bias_idxs.is_empty());
}

#[test]
fn tiny_vit_attention_layout_sizes() {
    let l = TinyVitAttentionLayout::new(128, 32, 4, 4, (2, 2));
    assert_eq!(l.norm_dim, 128);
    assert_eq!(l.num_heads, 4);
    assert_eq!(l.key_dim, 32);
    assert_eq!(l.d, 128);
    assert_eq!(l.dh, 512);
    assert_eq!(l.qkv, (128, 512 + 256));
    assert_eq!(l.proj, (512, 128));
    assert_eq!(l.biases.biases_shape, (4, 4));
    assert_eq!(l.biases.bias_idxs_shape, (4, 4));
    assert_eq!(l.biases.bias_idxs[1], 1);
}
