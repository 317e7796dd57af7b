use sam_rs::burn_helpers::{calc_dims, repeat_interleave, unsqueeze_end_axes};

#[test]
fn test_repeat_interleave_1d() {
    // PyTorch: torch.tensor([1, 2, 3]).repeat_interleave(2) -> [1, 1, 2, 2, 3, 3]
    let (vals, _) = repeat_interleave(&vec![1.0f32, 2.0, 3.0], &vec![3], 2, 0);
    assert_eq!(vals, vec![1.0, 1.0, 2.0, 2.0, 3.0, 3.0]);
}

#[test]
fn test_repeat_interleave_2d_dim0() {
    // PyTorch: torch.tensor([[1, 2], [3, 4]]).repeat_interleave(2, dim=0)
    // -> [[1, 2], [1, 2], [3, 4], [3, 4]]
    let (vals, shape) = repeat_interleave(&vec![1.0f32, 2.0, 3.0, 4.0], &vec![2, 2], 2, 0);
    assert_eq!(shape, [4, 2]);
    assert_eq!(vals, vec![1.0, 2.0, 1.0, 2.0, 3.0, 4.0, 3.0, 4.0]);
}

#[test]
fn test_repeat_interleave_2d_dim1() {
    // PyTorch: torch.tensor([[1, 2], [3, 4]]).repeat_interleave(2, dim=1)
    // -> [[1, 1, 2, 2], [3, 3, 4, 4]]
    let (vals, shape) = repeat_interleave(&vec![1.0f32, 2.0, 3.0, 4.0], &vec![2, 2], 2, 1);
    assert_eq!(shape, [2, 4]);
    assert_eq!(vals, vec![1.0, 1.0, 2.0, 2.0, 3.0, 3.0, 4.0, 4.0]);
}

#[test]
fn test_repeat_interleave_4d() {
    // Test 4D tensor (like image embeddings [1, 256, 64, 64])
    let data = vec![1.0f32, 2.0, 3.0, 4.0, 5.0, 6.0, 7.0, 8.0];
    // repeat_interleave on batch dim
    let (vals, shape) = repeat_interleave(&data, &vec![1, 2, 2, 2], 2, 0);
    assert_eq!(shape, [2, 2, 2, 2]);
    // First batch repeated, then second
    assert_eq!(vals[..8], vec![1.0, 2.0, 3.0, 4.0, 5.0, 6.0, 7.0, 8.0]);
    assert_eq!(vals[8..], vec![1.0, 2.0, 3.0, 4.0, 5.0, 6.0, 7.0, 8.0]);
}

#[test]
fn repeat_interleave_middle_dim() {
    // shape [2, 2, 2], repeat dim 1 three times
    let data: Vec<i64> = (0..8).collect();
    let (vals, shape) = repeat_interleave(&data, &vec![2, 2, 2], 3, 1);
    assert_eq!(shape, [2, 6, 2]);
    assert_eq!(
        vals,
        vec![0, 1, 0, 1, 0, 1, 2, 3, 2, 3, 2, 3, 4, 5, 4, 5, 4, 5, 6, 7, 6, 7, 6, 7]
    );
}

#[test]
fn repeat_interleave_once_is_identity() {
    let data: Vec<i64> = (0..24).collect();
    for dim in 0..3 {
        let (vals, shape) = repeat_interleave(&data, &vec![2, 3, 4], 1, dim);
        assert_eq!(shape, [2, 3, 4]);
        assert_eq!(vals, data);
    }
}

#[test]
fn repeat_interleave_zero_times_empties_the_dim() {
    let (vals, shape) = repeat_interleave(&vec![1u8, 2, 3, 4], &vec![2, 2], 0, 1);
    assert_eq!(shape, [2, 0]);
    assert!(vals.is_empty());
}

#[test]
fn calc_dims_without_inferred_dim_keeps_dims() {
    assert_eq!(calc_dims(&vec![2, 3, 4], &vec![4, 6]), vec![4, 6]);
}

#[test]
fn calc_dims_infers_the_missing_dim() {
    assert_eq!(calc_dims(&vec![2, 3, 4], &vec![usize::MAX, 2, 2]), vec![6, 2, 2]);
    assert_eq!(calc_dims(&vec![2, 3, 4], &vec![4, usize::MAX]), vec![4, 6]);
    assert_eq!(calc_dims(&vec![5, 4], &vec![usize::MAX, 4]), vec![5, 4]);
    // the element count is divided, rounding down, by the given dims
    assert_eq!(calc_dims(&vec![7], &vec![usize::MAX, 2]), vec![3, 2]);
    // an empty tensor
    assert_eq!(calc_dims(&vec![0, 3], &vec![usize::MAX, 3]), vec![0, 3]);
}

#[test]
fn calc_dims_keeps_element_count_when_divisible() {
    let shape = vec![3, 8, 5];
    let dims = calc_dims(&shape, &vec![2, usize::MAX, 10]);
    assert_eq!(dims, vec![2, 6, 10]);
    assert_eq!(dims.iter().product::<usize>(), shape.iter().product::<usize>());
}

#[test]
fn unsqueeze_end_axes_moves_new_dims_last() {
    assert_eq!(unsqueeze_end_axes(2, 4), vec![2, 3, 0, 1]);
    assert_eq!(unsqueeze_end_axes(1, 3), vec![2, 0, 1]);
    assert_eq!(unsqueeze_end_axes(3, 3), vec![0, 1, 2]);
    assert_eq!(unsqueeze_end_axes(0, 2), vec![0, 1]);
    // applied to the unsqueezed shape [1, 1, 5, 7] it gives [5, 7, 1, 1]
    let unsqueezed = [1usize, 1, 5, 7];
    let permuted: Vec<usize> = unsqueeze_end_axes(2, 4)
        .iter()
        .map(|&a| unsqueezed[a as usize])
        .collect();
    assert_eq!(permuted, vec![5, 7, 1, 1]);
}

#[test]
fn repeat_interleave_twice_is_repeat_by_product() {
    let data: Vec<i64> = (0..6).collect();
    let shape = vec![2, 3];
    let (once, once_shape) = repeat_interleave(&data, &shape, 2, 1);
    let (twice, twice_shape) = repeat_interleave(&once, &once_shape, 3, 1);
    let (direct, direct_shape) = repeat_interleave(&data, &shape, 6, 1);
    assert_eq!(twice_shape, direct_shape);
    assert_eq!(twice, direct);
    assert_eq!(direct_shape, [2, 18]);
}
