use sam_rs::sam::preprocess_padding;

#[test]
fn preprocess_pads_to_a_square() {
    assert_eq!(preprocess_padding(1024, 683, 1024), (0, 341));
    assert_eq!(preprocess_padding(1024, 1024, 683), (341, 0));
    assert_eq!(preprocess_padding(1024, 1024, 1024), (0, 0));
    assert_eq!(preprocess_padding(64, 8, 8), (56, 56));
}
