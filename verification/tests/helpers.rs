use sam_rs::helpers::load_image;
use sam_rs::sam_predictor::Size;

fn png_bytes(width: u32, height: u32, samples: Vec<u8>) -> Vec<u8> {
    let img = image::RgbImage::from_raw(width, height, samples).unwrap();
    let mut buf = Vec::new();
    img.write_to(&mut std::io::Cursor::new(&mut buf), image::ImageFormat::Png)
        .unwrap();
    buf
}

#[test]
fn load_image_gives_height_then_width_and_the_samples() {
    let samples: Vec<u8> = (0..18).collect();
    let bytes = png_bytes(3, 2, samples.clone());
    let (pixels, size) = load_image(&bytes).unwrap();
    assert_eq!(size, Size(2, 3));
    assert_eq!(pixels, samples);
}

#[test]
fn load_image_refuses_bytes_that_are_no_image() {
    assert!(load_image(b"not an image at all").is_none());
    assert!(load_image(&[]).is_none());
}

#[test]
fn test_image_loading() {
    // An image saved as PNG decodes to its own samples and size.
    let (width, height) = (64u32, 48u32);
    let samples: Vec<u8> = (0..width * height * 3).map(|k| (k * 7 % 251) as u8).collect();
    let bytes = png_bytes(width, height, samples.clone());
    let (pixels, size) = load_image(&bytes).unwrap();
    assert_eq!(size, Size(48, 64));
    assert_eq!(pixels, samples);
}
