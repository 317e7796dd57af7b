use sam_rs::sam_predictor::{is_valid_torch_image_shape, ImageFormat, PredictorState, PromptError, Size};

#[test]
fn size_from_pair_and_record() {
    let size: Size = (120, 180).into();
    assert_eq!(size, Size(120, 180));
    assert_eq!(size.into_record().0, Some((120, 180)));
    assert_ne!(ImageFormat::RGB, ImageFormat::BGR);
}

#[test]
fn torch_image_shape_must_fit_the_model() {
    assert!(is_valid_torch_image_shape([1, 3, 683, 1024], 1024));
    assert!(is_valid_torch_image_shape([1, 3, 1024, 1024], 1024));
    assert!(!is_valid_torch_image_shape([1, 4, 683, 1024], 1024));
    assert!(!is_valid_torch_image_shape([1, 3, 683, 1000], 1024));
}

#[test]
fn predictor_state_set_and_reset() {
    let mut state = PredictorState::new();
    assert!(!state.is_image_set());
    assert_eq!(state.original_size(), None);
    state.set_torch_image([1, 3, 683, 1024], Size(120, 180), 1024);
    assert!(state.is_image_set());
    assert_eq!(state.original_size(), Some(Size(120, 180)));
    assert_eq!(state.input_size(), Some(Size(683, 1024)));
    state.reset_image();
    assert!(!state.is_image_set());
    assert_eq!(state.original_size(), None);
    assert_eq!(state.input_size(), None);
}

#[test]
fn check_prompts_needs_an_image_and_labels_for_points() {
    let mut state = PredictorState::new();
    assert_eq!(state.check_prompts(false, false), Err(PromptError::ImageNotSet));
    assert_eq!(state.check_prompts(true, true), Err(PromptError::ImageNotSet));
    state.set_torch_image([1, 3, 1024, 768], Size(1200, 900), 1024);
    assert_eq!(state.check_prompts(true, false), Err(PromptError::PointLabelsMissing));
    assert_eq!(state.check_prompts(true, true), Ok(Size(1200, 900)));
    assert_eq!(state.check_prompts(false, false), Ok(Size(1200, 900)));
    assert_eq!(state.check_prompts(false, true), Ok(Size(1200, 900)));
}
