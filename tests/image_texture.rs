use mulambda::image_texture::Image;

fn two_by_two() -> Image {
    // Row 0: red, green; row 1: blue, white.
    Image::new(2, 2, vec![255, 0, 0, 0, 255, 0, 0, 0, 255, 255, 255, 255])
}

#[test]
fn texel_reads_row_major_pixels() {
    let img = two_by_two();
    assert_eq!(img.texel(0, 0), Some((255, 0, 0)));
    assert_eq!(img.texel(1, 0), Some((0, 255, 0)));
    assert_eq!(img.texel(0, 1), Some((0, 0, 255)));
    assert_eq!(img.texel(1, 1), Some((255, 255, 255)));
}

#[test]
fn texel_clamps_to_the_last_column_and_row() {
    let img = two_by_two();
    assert_eq!(img.texel(2, 0), Some((0, 255, 0)));
    assert_eq!(img.texel(0, 7), Some((0, 0, 255)));
    assert_eq!(img.texel(u32::MAX, u32::MAX), Some((255, 255, 255)));
}

#[test]
fn empty_image_has_no_texel() {
    let img = Image::new(0, 5, vec![]);
    assert_eq!(img.texel(0, 0), None);
    let img = Image::new(3, 0, vec![]);
    assert_eq!(img.texel(0, 0), None);
}
