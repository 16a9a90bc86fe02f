//! Unit tests of the pixel grid, the raw RGBA conversions and the decode and
//! encode stages.

use imageops::{decode_image, encode_image, grid_from_rgba, grid_to_rgba, Grid, Pixel};

fn px(r: u8, g: u8, b: u8, a: u8) -> Pixel {
    Pixel::new(r, g, b, a)
}

#[test]
fn grid_new_and_getters() {
    let g = Grid::new(3, 2, px(9, 8, 7, 255)).unwrap();
    assert_eq!(g.width(), 3);
    assert_eq!(g.height(), 2);
    assert_eq!(g.get_pixel(2, 1), Some(px(9, 8, 7, 255)));
    assert_eq!(g.get_pixel(3, 0), None);
    assert_eq!(g.get_pixel(0, 2), None);
}

#[test]
fn grid_raw_roundtrip() {
    let bytes: Vec<u8> = (0u8..24).collect();
    let g = grid_from_rgba(3, 2, &bytes).unwrap();
    assert_eq!(g.get_pixel(1, 0), Some(px(4, 5, 6, 7)));
    assert_eq!(g.get_pixel(0, 1), Some(px(12, 13, 14, 15)));
    assert_eq!(grid_to_rgba(&g), bytes);
    assert!(grid_from_rgba(3, 2, &bytes[1..].to_vec()).is_none());
}

#[test]
fn composite_replaces_with_opaque_overlay() {
    let mut base = Grid::new(4, 4, px(10, 20, 30, 255)).unwrap();
    let layer = Grid::new(2, 2, px(200, 100, 50, 255)).unwrap();
    base.composite(&layer, 1, 1);
    assert_eq!(base.get_pixel(0, 0), Some(px(10, 20, 30, 255)));
    assert_eq!(base.get_pixel(1, 1), Some(px(200, 100, 50, 255)));
    assert_eq!(base.get_pixel(2, 2), Some(px(200, 100, 50, 255)));
    assert_eq!(base.get_pixel(3, 3), Some(px(10, 20, 30, 255)));
}

#[test]
fn composite_clips_overlay_at_edges() {
    let mut base = Grid::new(4, 4, px(1, 1, 1, 255)).unwrap();
    let layer = Grid::new(3, 3, px(9, 9, 9, 255)).unwrap();
    base.composite(&layer, 2, 3);
    for y in 0..4u32 {
        for x in 0..4u32 {
            let expected = if x >= 2 && y >= 3 {
                px(9, 9, 9, 255)
            } else {
                px(1, 1, 1, 255)
            };
            assert_eq!(base.get_pixel(x, y), Some(expected), "at ({}, {})", x, y);
        }
    }
}

#[test]
fn composite_blend_matches_image_crate() {
    let mut base = Grid::new(1, 1, px(255, 0, 0, 255)).unwrap();
    let layer = Grid::new(1, 1, px(0, 0, 255, 128)).unwrap();
    base.composite(&layer, 0, 0);
    let mut expected = image::Rgba([255u8, 0, 0, 255]);
    image::Pixel::blend(&mut expected, &image::Rgba([0u8, 0, 255, 128]));
    assert_eq!(
        base.get_pixel(0, 0),
        Some(px(expected.0[0], expected.0[1], expected.0[2], expected.0[3]))
    );
}

#[test]
fn encode_then_decode_preserves_pixels() {
    let bytes: Vec<u8> = (0u8..64).map(|v| v.wrapping_mul(4) | 3).collect();
    let g = grid_from_rgba(4, 4, &bytes).unwrap();
    let png = encode_image(&g).unwrap();
    assert!(png.starts_with(&[0x89, b'P', b'N', b'G']));
    let back = decode_image(&png).unwrap();
    assert_eq!(back.width(), 4);
    assert_eq!(back.height(), 4);
    assert_eq!(grid_to_rgba(&back), bytes);
}

#[test]
fn encode_rejects_empty_grid() {
    let zero_width = Grid::new(0, 5, px(0, 0, 0, 255)).unwrap();
    assert_eq!(encode_image(&zero_width), Err(imageops::PasteError::Encode));
    let zero_height = Grid::new(7, 0, px(0, 0, 0, 255)).unwrap();
    assert_eq!(encode_image(&zero_height), Err(imageops::PasteError::Encode));
    let one = Grid::new(1, 1, px(1, 2, 3, 4)).unwrap();
    assert!(encode_image(&one).is_ok());
}

#[test]
fn decode_image_rejects_garbage() {
    assert!(decode_image(&vec![0u8; 16]).is_err());
    assert!(decode_image(&Vec::new()).is_err());
}
