use simple_raytracer::texture::Texture;

#[test]
fn accepts_a_buffer_of_matching_size() {
    let bytes: Vec<u8> = (0..12u8).collect();
    let t = Texture::new(2, 2, bytes).unwrap();
    assert_eq!(t.width, 2);
    assert_eq!(t.height, 2);
}

#[test]
fn rejects_a_buffer_of_wrong_size() {
    assert!(Texture::new(2, 2, vec![0; 11]).is_none());
    assert!(Texture::new(2, 2, vec![0; 13]).is_none());
    assert!(Texture::new(3, 1, vec![0; 12]).is_none());
}

#[test]
fn texel_lookup_is_row_major() {
    // 2 x 2 texels, three bytes each.
    let bytes: Vec<u8> = vec![
        10, 11, 12, 20, 21, 22, //
        30, 31, 32, 40, 41, 42,
    ];
    let t = Texture::new(2, 2, bytes).unwrap();
    assert_eq!(t.texel(0, 0), (10, 11, 12));
    assert_eq!(t.texel(1, 0), (20, 21, 22));
    assert_eq!(t.texel(0, 1), (30, 31, 32));
    assert_eq!(t.texel(1, 1), (40, 41, 42));
}

#[test]
fn single_texel_texture() {
    let t = Texture::new(1, 1, vec![7, 8, 9]).unwrap();
    assert_eq!(t.texel(0, 0), (7, 8, 9));
}
