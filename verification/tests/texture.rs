use technobabble::texture::build_texture;

#[test]
fn texture_has_four_bytes_to_the_texel() {
    assert_eq!(build_texture(16, 16).len(), 16 * 16 * 4);
    assert_eq!(build_texture(3, 5).len(), 60);
    assert_eq!(build_texture(0, 9).len(), 0);
    assert_eq!(build_texture(9, 0).len(), 0);
}

#[test]
fn texture_is_dark_along_the_first_column_and_row() {
    let out = build_texture(2, 3);
    assert_eq!(
        out,
        vec![
            0, 0, 0, 255, 0, 0, 0, 255, 0, 0, 0, 255, // column 0
            0, 0, 0, 255, 128, 128, 128, 255, 128, 128, 128, 255, // column 1
        ]
    );
}

#[test]
fn texture_far_edges_are_grey() {
    let x: usize = 16;
    let y: usize = 16;
    let out = build_texture(16, 16);
    for ix in 0..x {
        for iy in 0..y {
            let at: usize = (ix * y + iy) * 4;
            let level: u8 = if ix == 0 || iy == 0 { 0 } else { 128 };
            assert_eq!(&out[at..at + 4], &[level, level, level, 255]);
        }
    }
}
