use sam_rs::sam_predictor::Size;
use sam_rs::image_encoder_attention::VitAttentionLayout;
use sam_rs::image_encoder_attention::{equal_size_rel_pos_rows, gather_rows};

#[test]
fn equal_size_rows_shift_offsets_by_n_minus_one() {
    assert_eq!(equal_size_rel_pos_rows(3), vec![2, 1, 0, 3, 2, 1, 4, 3, 2]);
}

#[test]
fn equal_size_rows_of_small_sizes() {
    assert_eq!(equal_size_rel_pos_rows(0), Vec::<usize>::new());
    assert_eq!(equal_size_rel_pos_rows(1), vec![0]);
    assert_eq!(equal_size_rel_pos_rows(2), vec![1, 0, 2, 1]);
}

#[test]
fn equal_size_rows_stay_inside_the_table() {
    let n = 14;
    let rows = equal_size_rel_pos_rows(n);
    assert_eq!(rows.len(), n * n);
    assert!(rows.iter().all(|&r| r < 2 * n - 1));
    assert_eq!(rows[0], n - 1);
    assert_eq!(rows[n - 1], 0);
    assert_eq!(rows[(n - 1) * n], 2 * n - 2);
}

#[test]
fn gather_rows_copies_named_rows() {
    let table = vec![1.0f32, 2.0, 3.0, 4.0, 5.0, 6.0];
    let rows = vec![2, 0, 2, 1];
    assert_eq!(
        gather_rows(&table, 2, &rows),
        vec![5.0, 6.0, 1.0, 2.0, 5.0, 6.0, 3.0, 4.0]
    );
}

#[test]
fn gather_rows_with_empty_rows_or_width() {
    let table = vec![7i64, 8, 9];
    assert_eq!(gather_rows(&table, 0, &vec![0, 5]), Vec::<i64>::new());
    assert_eq!(gather_rows(&table, 3, &vec![]), Vec::<i64>::new());
    assert_eq!(gather_rows(&table, 1, &vec![2, 2, 0]), vec![9, 9, 7]);
}

#[test]
fn gather_of_equal_size_rows_reads_the_offset_row() {
    let n = 3;
    let dim = 2;
    let table: Vec<usize> = (0..(2 * n - 1) * dim).collect();
    let out = gather_rows(&table, dim, &equal_size_rel_pos_rows(n));
    for i in 0..n {
        for j in 0..n {
            for c in 0..dim {
                assert_eq!(out[(i * n + j) * dim + c], (i + n - 1 - j) * dim + c);
            }
        }
    }
}

#[test]
fn equal_size_rel_pos_reads_row_i_minus_j_plus_n_minus_one() {
    let n = 4;
    let dim = 3;
    let table: Vec<i32> = (0..((2 * n - 1) * dim) as i32).collect();
    let out = sam_rs::image_encoder_attention::equal_size_rel_pos(&table, dim, n);
    assert_eq!(out.len(), n * n * dim);
    for i in 0..n {
        for j in 0..n {
            for c in 0..dim {
                assert_eq!(out[(i * n + j) * dim + c], ((i + n - 1 - j) * dim + c) as i32);
            }
        }
    }
    // the result depends on i - j alone
    assert_eq!(out[(1 * n + 2) * dim], out[(2 * n + 3) * dim]);
}

#[test]
fn equal_size_rel_pos_of_one_position() {
    let out = sam_rs::image_encoder_attention::equal_size_rel_pos(&vec![5u8, 6], 2, 1);
    assert_eq!(out, vec![5, 6]);
}

#[test]
fn vit_attention_layout_defaults() {
    let l = VitAttentionLayout::new(768, None, None, None, None).unwrap();
    assert_eq!(l.num_heads, 8);
    assert_eq!(l.head_dim, 96);
    assert_eq!(l.qkv, (768, 2304));
    assert!(l.qkv_bias);
    assert_eq!(l.proj, (768, 768));
    assert!(!l.use_rel_pos);
    assert_eq!(l.rel_pos_h_shape, None);
    assert_eq!(l.rel_pos_w_shape, None);
}

#[test]
fn vit_attention_layout_with_relative_positions() {
    let l = VitAttentionLayout::new(768, Some(12), Some(false), Some(true), Some(Size(14, 16)))
        .unwrap();
    assert_eq!(l.head_dim, 64);
    assert!(!l.qkv_bias);
    assert_eq!(l.rel_pos_h_shape, Some((27, 64)));
    assert_eq!(l.rel_pos_w_shape, Some((31, 64)));
}

#[test]
fn vit_attention_layout_needs_an_input_size_for_relative_positions() {
    assert!(VitAttentionLayout::new(64, Some(4), None, Some(true), None).is_none());
    assert!(VitAttentionLayout::new(64, Some(4), None, Some(false), None).is_some());
}
