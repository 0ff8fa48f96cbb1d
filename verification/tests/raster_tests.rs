use leonardo::raster::{binarize, ConversionError};

fn png_2x2(pixels: [[u8; 4]; 4]) -> Vec<u8> {
    let mut img = image::RgbaImage::new(2, 2);
    img.put_pixel(0, 0, image::Rgba(pixels[0]));
    img.put_pixel(1, 0, image::Rgba(pixels[1]));
    img.put_pixel(0, 1, image::Rgba(pixels[2]));
    img.put_pixel(1, 1, image::Rgba(pixels[3]));
    let mut buf: Vec<u8> = Vec::new();
    img.write_to(&mut std::io::Cursor::new(&mut buf), image::ImageFormat::Png)
        .expect("encoding a small image must succeed");
    buf
}

#[test]
fn binarize_maps_transparent_to_white_and_opaque_to_black() {
    // One fully transparent pixel, three opaque ones of various colors.
    let png = png_2x2([
        [200, 10, 10, 0],
        [0, 255, 0, 255],
        [12, 34, 56, 128],
        [255, 255, 255, 200],
    ]);
    let out = binarize(&png).expect("a valid image must binarize");
    let mut expected: Vec<u8> = Vec::new();
    expected.extend_from_slice(b"P6\n2 2\n255\n");
    expected.extend_from_slice(&[255, 255, 255, 0, 0, 0, 0, 0, 0, 0, 0, 0]);
    assert_eq!(out, expected);
}

#[test]
fn binarize_boundary_alpha_one_is_black() {
    let png = png_2x2([
        [1, 2, 3, 1],
        [0, 0, 0, 0],
        [9, 9, 9, 1],
        [7, 7, 7, 0],
    ]);
    let out = binarize(&png).expect("a valid image must binarize");
    let mut expected: Vec<u8> = Vec::new();
    expected.extend_from_slice(b"P6\n2 2\n255\n");
    expected.extend_from_slice(&[0, 0, 0, 255, 255, 255, 0, 0, 0, 255, 255, 255]);
    assert_eq!(out, expected);
}

#[test]
fn binarize_is_deterministic() {
    let png = png_2x2([
        [1, 2, 3, 4],
        [5, 6, 7, 0],
        [8, 9, 10, 255],
        [11, 12, 13, 0],
    ]);
    let a = binarize(&png).expect("a valid image must binarize");
    let b = binarize(&png).expect("a valid image must binarize");
    assert_eq!(a, b);
    for chunk in a[b"P6\n2 2\n255\n".len()..].iter() {
        assert!(*chunk == 0 || *chunk == 255);
    }
}

#[test]
fn binarize_rejects_invalid_bytes() {
    let garbage = vec![1u8, 2, 3, 4, 5];
    assert_eq!(binarize(&garbage), Err(ConversionError::DecodeError));
}
