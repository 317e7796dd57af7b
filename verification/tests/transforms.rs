use sam_rs::sam_predictor::Size;
use sam_rs::transforms::ResizeLongestSide;

#[test]
fn test_resize_get_preprocess_shape() {
    let resize = ResizeLongestSide::new(64);
    let output = resize.get_preprocess_shape(32, 32, 64);
    assert_eq!(output, Size(64, 64));
}

#[test]
fn preprocess_shape_scales_the_longer_side_to_the_target() {
    let resize = ResizeLongestSide::new(1024);
    assert_eq!(resize.get_preprocess_shape(120, 180, 1024), Size(683, 1024));
    assert_eq!(resize.get_preprocess_shape(180, 120, 1024), Size(1024, 683));
    assert_eq!(resize.get_preprocess_shape(534, 800, 1024), Size(684, 1024));
    assert_eq!(resize.get_preprocess_shape(1200, 1800, 64), Size(43, 64));
    assert_eq!(resize.get_preprocess_shape(7, 7, 3), Size(3, 3));
}

#[test]
fn preprocess_shape_rounds_halves_up() {
    // 81 * 100 / 1080 = 7.5 exactly
    let resize = ResizeLongestSide::new(100);
    assert_eq!(resize.get_preprocess_shape(81, 1080, 100), Size(8, 100));
    assert_eq!(resize.get_preprocess_shape(90, 144, 100), Size(63, 100));
    // 3 * 5 / 6 = 2.5
    assert_eq!(resize.get_preprocess_shape(3, 6, 5), Size(3, 5));
    // 1 * 5 / 6 = 0.83
    assert_eq!(resize.get_preprocess_shape(1, 6, 5), Size(1, 5));
}

#[test]
fn preprocess_shape_of_empty_image_is_empty() {
    let resize = ResizeLongestSide::new(64);
    assert_eq!(resize.get_preprocess_shape(0, 0, 64), Size(0, 0));
    assert_eq!(resize.get_preprocess_shape(0, 10, 64), Size(0, 64));
}

#[test]
fn preprocess_shape_agrees_with_float_formula_off_ties() {
    // Compare with `round(old * long / max)` computed in f64 wherever the
    // exact value is not a tie.
    for long in [64usize, 100, 1024] {
        for h in 1..300usize {
            for w in (1..300usize).step_by(7) {
                let m = h.max(w);
                let resize = ResizeLongestSide::new(long);
                let Size(nh, nw) = resize.get_preprocess_shape(h, w, long);
                for (old, new) in [(h, nh), (w, nw)] {
                    if (2 * old * long) % (2 * m) == m {
                        continue;
                    }
                    let expect = (old as f64 * long as f64 / m as f64 + 0.5) as usize;
                    assert_eq!(new, expect, "{} {} {}", h, w, long);
                }
            }
        }
    }
}

#[test]
fn resize_longest_side_keeps_target_length() {
    assert_eq!(ResizeLongestSide::new(1024).target_length(), 1024);
}

#[test]
fn apply_image_resizes_a_flat_image_to_the_preprocess_shape() {
    let resize = ResizeLongestSide::new(2);
    // 2 x 4 pixels, all of colour (10, 200, 30)
    let pixels: Vec<i32> = (0..8).flat_map(|_| [10, 200, 30]).collect();
    let (out, size) = resize.apply_image(&pixels, 2, 4);
    assert_eq!(size, Size(1, 2));
    assert_eq!(out, vec![10u8, 200, 30, 10, 200, 30]);
}

#[test]
fn apply_image_keeps_samples_at_the_same_size_and_takes_low_bytes() {
    let resize = ResizeLongestSide::new(2);
    let pixels: Vec<i32> = vec![1, 2, 3, 4, 5, 6, 7, 8, 9, 256 + 10, 11, 12];
    let (out, size) = resize.apply_image(&pixels, 2, 2);
    assert_eq!(size, Size(2, 2));
    assert_eq!(out, vec![1u8, 2, 3, 4, 5, 6, 7, 8, 9, 10, 11, 12]);
}

#[test]
fn apply_image_of_an_empty_image_is_empty() {
    let resize = ResizeLongestSide::new(16);
    let (out, size) = resize.apply_image(&Vec::new(), 0, 0);
    assert_eq!(size, Size(0, 0));
    assert!(out.is_empty());
}

#[test]
fn test_resize_apply_image() {
    // A 120 x 180 RGB image resized to a longest side of 64.
    let input: Vec<i32> = (0..120 * 180 * 3).map(|k: i32| (k * 31 + k / 7) % 256).collect();
    let resize = ResizeLongestSide::new(64);
    let (output, size) = resize.apply_image(&input, 120, 180);
    assert_eq!(size, Size(43, 64));
    assert_eq!(output.len(), 43 * 64 * 3);
}
