use tile_maze::glyphs::fill_white_pixels;

#[test]
fn coverage_becomes_white_pixels() {
    let mut out = vec![1, 2, 3];
    fill_white_pixels(&mut out, &[0, 128, 255]);
    assert_eq!(out, vec![255, 255, 255, 0, 255, 255, 255, 128, 255, 255, 255, 255]);
    fill_white_pixels(&mut out, &[]);
    assert_eq!(out, Vec::<u8>::new());
}
