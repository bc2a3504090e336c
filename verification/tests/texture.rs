use raytracer::texture::ImageTexture;

fn two_by_two() -> ImageTexture {
    ImageTexture::new(2, 2, vec![1, 2, 3, 4, 5, 6, 7, 8, 9, 10, 11, 12])
}

#[test]
fn texels_are_read_row_after_row() {
    let texture = two_by_two();
    assert_eq!(texture.texel(0, 0), Some((1, 2, 3)));
    assert_eq!(texture.texel(1, 0), Some((4, 5, 6)));
    assert_eq!(texture.texel(0, 1), Some((7, 8, 9)));
    assert_eq!(texture.texel(1, 1), Some((10, 11, 12)));
}

#[test]
fn coordinates_beyond_the_image_stand_for_the_edge() {
    let texture = two_by_two();
    assert_eq!(texture.texel(2, 0), Some((4, 5, 6)));
    assert_eq!(texture.texel(0, 2), Some((7, 8, 9)));
    assert_eq!(texture.texel(u32::MAX, u32::MAX), Some((10, 11, 12)));
}

#[test]
fn a_texture_without_data_has_no_texel() {
    let texture = ImageTexture::new(0, 0, Vec::new());
    assert_eq!(texture.texel(0, 0), None);
    assert_eq!(texture.texel(5, 9), None);
    assert_eq!(texture.width(), 0);
    assert_eq!(texture.height(), 0);
}

#[test]
fn a_wide_image_keeps_its_rows_apart() {
    let data: Vec<u8> = (0..3 * 5 * 2).map(|n| n as u8).collect();
    let texture = ImageTexture::new(5, 2, data);
    assert_eq!(texture.width(), 5);
    assert_eq!(texture.height(), 2);
    assert_eq!(texture.texel(4, 0), Some((12, 13, 14)));
    assert_eq!(texture.texel(0, 1), Some((15, 16, 17)));
    assert_eq!(texture.texel(3, 1), Some((24, 25, 26)));
}

#[test]
fn bytes_per_pixel_is_three() {
    assert_eq!(ImageTexture::BYTES_PER_PIXEL, 3);
}
