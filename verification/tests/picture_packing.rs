use dank_gallery::packing::{find_color, pack_pixels, try_pack_pixels};

fn palette() -> Vec<(u8, u8, u8)> {
    vec![(0, 0, 0), (255, 255, 255), (0, 255, 0), (0, 0, 255), (255, 0, 0), (255, 255, 0), (255, 128, 0)]
}

#[test]
fn colors_are_found_by_first_position() {
    assert_eq!(find_color(&palette(), (0, 0, 255)), Some(3));
    assert_eq!(find_color(&palette(), (1, 2, 3)), None);
    assert_eq!(find_color(&vec![(1, 1, 1), (1, 1, 1)], (1, 1, 1)), Some(0));
}

#[test]
fn pairs_share_a_byte() {
    let p = palette();
    let pixels = vec![(255, 255, 255), (255, 128, 0), (0, 0, 0), (255, 0, 0), (0, 255, 0)];
    // White (1) and orange (6), black (0) and red (4); the odd green pixel is dropped.
    assert_eq!(pack_pixels(&pixels, &p), vec![0x16, 0x04]);
    let packed = try_pack_pixels(&pixels, &p).unwrap();
    assert_eq!(packed[0] >> 4, 1);
    assert_eq!(packed[0] & 15, 6);
}

#[test]
fn unknown_colors_are_refused() {
    let p = palette();
    assert_eq!(try_pack_pixels(&vec![(0, 0, 0), (9, 9, 9)], &p), None);
    // The trailing odd pixel is not looked up.
    assert_eq!(try_pack_pixels(&vec![(0, 0, 0), (0, 0, 0), (9, 9, 9)], &p), Some(vec![0x00]));
}

#[test]
fn large_indices_wrap_like_bytes() {
    let mut p: Vec<(u8, u8, u8)> = (0..20u8).map(|i| (i, 0, 0)).collect();
    p.push((200, 0, 0));
    // Index 17 shifted into a byte keeps only its low four bits.
    assert_eq!(pack_pixels(&vec![(17, 0, 0), (2, 0, 0)], &p), vec![0x12]);
}
