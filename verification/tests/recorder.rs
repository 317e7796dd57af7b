use sam_rs::recorder::key_replacer;

#[test]
fn test_key_replacer() {
    // Test replacing neck.1. with neck1.
    assert_eq!(key_replacer("neck.1.layer".to_string()), "neck1.layer");
    assert_eq!(
        key_replacer("output_upscaling.2.weight".to_string()),
        "output_upscaling2.weight"
    );
    assert_eq!(
        key_replacer("mask_downscaling.10.bias".to_string()),
        "mask_downscaling10.bias"
    );

    // Test replacing norm_final_attn.weight with norm_final_attn.gamma
    assert_eq!(
        key_replacer("norm_final_attn.weight".to_string()),
        "norm_final_attn.gamma"
    );
    assert_eq!(
        key_replacer("norm_final_attn.bias".to_string()),
        "norm_final_attn.beta"
    );

    // Test replacing norm1.weight with norm1.gamma
    assert_eq!(key_replacer("norm1.weight".to_string()), "norm1.gamma");
    assert_eq!(key_replacer("norm2.bias".to_string()), "norm2.beta");
    assert_eq!(key_replacer("norm10.weight".to_string()), "norm10.gamma");

    // Test replacing .1. with [1].
    assert_eq!(
        key_replacer("layer.1.weight".to_string()),
        "layer[1].weight"
    );
    assert_eq!(
        key_replacer("blocks.0.attn.1.proj".to_string()),
        "blocks[0].attn[1].proj"
    );
    assert_eq!(
        key_replacer("encoder.12.layer".to_string()),
        "encoder[12].layer"
    );

    // Test combinations
    assert_eq!(
        key_replacer("neck.1.layer.2.norm1.weight".to_string()),
        "neck1.layer[2].norm1.gamma"
    );
}

#[test]
fn key_replacer_leaves_plain_keys() {
    assert_eq!(key_replacer(String::new()), "");
    assert_eq!(key_replacer("pos_embed".to_string()), "pos_embed");
    assert_eq!(key_replacer("iou_token.weight".to_string()), "iou_token.weight");
}

#[test]
fn key_replacer_module_index_needs_a_following_dot() {
    // digits at the very end are not an index
    assert_eq!(key_replacer("neck.12".to_string()), "neck.12");
    // no digits after the module name
    assert_eq!(key_replacer("neck.a.b".to_string()), "neck.a.b");
    // only the first occurrence of a module name is joined
    assert_eq!(key_replacer("neck.1.neck.2.x".to_string()), "neck1.neck[2].x");
}

#[test]
fn key_replacer_renames_only_the_first_norm() {
    assert_eq!(
        key_replacer("norm1.weight.norm2.weight".to_string()),
        "norm1.gamma.norm2.weight"
    );
    // the first `norm` is not followed by a digit, so nothing is renamed
    assert_eq!(key_replacer("norm.weight".to_string()), "norm.weight");
    assert_eq!(key_replacer("layernorm.norm1.bias".to_string()), "layernorm.norm1.bias");
    assert_eq!(key_replacer("norm3.running_mean".to_string()), "norm3.running_mean");
}

#[test]
fn key_replacer_replaces_every_final_attn_norm() {
    assert_eq!(
        key_replacer("a.norm_final_attn.weight.norm_final_attn.bias".to_string()),
        "a.norm_final_attn.gamma.norm_final_attn.beta"
    );
}

#[test]
fn key_replacer_brackets_consecutive_indices() {
    // scanning resumes after the second dot of a bracketed index
    assert_eq!(key_replacer("a.1.2.b".to_string()), "a[1].2.b");
    assert_eq!(key_replacer("a.1.b.2.c".to_string()), "a[1].b[2].c");
    // a dot needs two characters after it to start an index
    assert_eq!(key_replacer("a.1.".to_string()), "a[1].");
    assert_eq!(key_replacer("a.1".to_string()), "a.1");
    assert_eq!(key_replacer("a..b".to_string()), "a..b");
}

#[test]
fn key_replacer_keeps_non_ascii_characters() {
    assert_eq!(key_replacer("é.3.ü".to_string()), "é[3].ü");
    assert_eq!(key_replacer("ñneck.4.x".to_string()), "ñneck4.x");
}

#[test]
fn key_replacer_brackets_indices_left_to_right_without_overlap() {
    assert_eq!(key_replacer("a.1.b.22.c".to_string()), "a[1].b[22].c");
    assert_eq!(key_replacer("a.1.2.b".to_string()), "a[1].2.b");
    assert_eq!(
        key_replacer("blocks.0.attn.qkv.weight".to_string()),
        "blocks[0].attn.qkv.weight"
    );
    assert_eq!(key_replacer("x.12".to_string()), "x.12");
}
