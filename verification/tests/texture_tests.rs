use raytracer::texture::ImageTexture;

#[test]
fn from_rgb_keeps_a_consistent_buffer() {
    // A 2 x 2 image: red, green / blue, white.
    let data = vec![
        255, 0, 0, 0, 255, 0, //
        0, 0, 255, 255, 255, 255,
    ];
    let t = ImageTexture::from_rgb(data, 2, 2);
    assert_eq!(t.nx(), 2);
    assert_eq!(t.ny(), 2);
    assert_eq!(t.texel(0, 0), (255, 0, 0));
    assert_eq!(t.texel(1, 0), (0, 255, 0));
    assert_eq!(t.texel(0, 1), (0, 0, 255));
    assert_eq!(t.texel(1, 1), (255, 255, 255));
}

#[test]
fn from_rgb_rejects_a_mismatched_buffer() {
    let t = ImageTexture::from_rgb(vec![1, 2, 3, 4], 2, 2);
    assert_eq!(t.nx(), 1);
    assert_eq!(t.ny(), 1);
    assert_eq!(t.texel(0, 0), (255, 255, 0));
}

#[test]
fn from_rgb_rejects_zero_dimensions() {
    let t = ImageTexture::from_rgb(Vec::new(), 0, 5);
    assert_eq!(t.nx(), 1);
    assert_eq!(t.ny(), 1);
    assert_eq!(t.texel(0, 0), (255, 255, 0));
}

#[test]
fn texel_clamps_out_of_range_coordinates() {
    let data = vec![
        255, 0, 0, 0, 255, 0, //
        0, 0, 255, 255, 255, 255,
    ];
    let t = ImageTexture::from_rgb(data, 2, 2);
    assert_eq!(t.texel(-5, -5), (255, 0, 0));
    assert_eq!(t.texel(99, 0), (0, 255, 0));
    assert_eq!(t.texel(0, 99), (0, 0, 255));
    assert_eq!(t.texel(99, 99), (255, 255, 255));
}

#[test]
fn from_encoded_falls_back_on_garbage() {
    let t = ImageTexture::from_encoded(&vec![0, 1, 2, 3, 4, 5, 6, 7]);
    assert_eq!(t.nx(), 1);
    assert_eq!(t.ny(), 1);
    assert_eq!(t.texel(0, 0), (255, 255, 0));
}

#[test]
fn from_encoded_decodes_a_png() {
    // A 2 x 1 image, red then blue, encoded through the same codec the
    // texture loader decodes with.
    let img = image::RgbImage::from_raw(2, 1, vec![255, 0, 0, 0, 0, 255]).unwrap();
    let mut cursor = std::io::Cursor::new(Vec::new());
    img.write_to(&mut cursor, image::ImageFormat::Png).unwrap();
    let bytes = cursor.into_inner();

    let t = ImageTexture::from_encoded(&bytes);
    assert_eq!(t.nx(), 2);
    assert_eq!(t.ny(), 1);
    assert_eq!(t.texel(0, 0), (255, 0, 0));
    assert_eq!(t.texel(1, 0), (0, 0, 255));
}
