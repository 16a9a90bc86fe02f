//! End-to-end tests of `paste` and `multi_paste` with real PNG and JPEG
//! buffers.

use imageops::{multi_paste, paste, PasteError};

const RED: [u8; 4] = [255, 0, 0, 255];
const GREEN: [u8; 4] = [0, 255, 0, 255];
const BLUE: [u8; 4] = [0, 0, 255, 255];
const CLEAR: [u8; 4] = [0, 0, 0, 0];

fn solid_png(w: u32, h: u32, rgba: [u8; 4]) -> Vec<u8> {
    let img = image::ImageBuffer::from_pixel(w, h, image::Rgba(rgba));
    let mut out: Vec<u8> = Vec::new();
    image::DynamicImage::ImageRgba8(img)
        .write_to(&mut out, image::ImageOutputFormat::Png)
        .unwrap();
    out
}

fn decode_rgba(bytes: &[u8]) -> (u32, u32, Vec<u8>) {
    let img = image::load_from_memory(bytes).unwrap().to_rgba8();
    let (w, h) = (img.width(), img.height());
    (w, h, img.into_raw())
}

fn pixel(decoded: &(u32, u32, Vec<u8>), x: u32, y: u32) -> [u8; 4] {
    let idx = ((y * decoded.0 + x) * 4) as usize;
    [
        decoded.2[idx],
        decoded.2[idx + 1],
        decoded.2[idx + 2],
        decoded.2[idx + 3],
    ]
}

#[test]
fn paste_fills_region() {
    let base = solid_png(10, 10, RED);
    let overlay = solid_png(4, 4, BLUE);
    let out = paste(base, overlay, (2, 2)).unwrap();
    let decoded = decode_rgba(&out);
    assert_eq!((decoded.0, decoded.1), (10, 10));
    for y in 0..10 {
        for x in 0..10 {
            let expected = if (2..=5).contains(&x) && (2..=5).contains(&y) {
                BLUE
            } else {
                RED
            };
            assert_eq!(pixel(&decoded, x, y), expected, "at ({}, {})", x, y);
        }
    }
}

#[test]
fn multi_paste_two_coordinates_clip() {
    let base = solid_png(10, 10, RED);
    let overlay = solid_png(4, 4, BLUE);
    let out = multi_paste(base, vec![(overlay, vec![(0, 0), (8, 8)])]).unwrap();
    let decoded = decode_rgba(&out);
    assert_eq!((decoded.0, decoded.1), (10, 10));
    for y in 0..10 {
        for x in 0..10 {
            let in_first = x < 4 && y < 4;
            let in_second = x >= 8 && y >= 8;
            let expected = if in_first || in_second { BLUE } else { RED };
            assert_eq!(pixel(&decoded, x, y), expected, "at ({}, {})", x, y);
        }
    }
}

#[test]
fn malformed_base_fails() {
    let out = multi_paste(Vec::new(), vec![]);
    assert_eq!(out, Err(PasteError::Decode));
    let garbage = vec![1u8, 2, 3, 4, 5, 6, 7, 8];
    let out = paste(garbage, solid_png(2, 2, BLUE), (0, 0));
    assert_eq!(out, Err(PasteError::Decode));
}

#[test]
fn paste_matches_single_multi_paste() {
    let base = solid_png(10, 10, RED);
    let overlay = solid_png(4, 4, BLUE);
    let one = paste(base.clone(), overlay.clone(), (3, 7)).unwrap();
    let many = multi_paste(base, vec![(overlay, vec![(3, 7)])]).unwrap();
    assert_eq!(one, many);
}

#[test]
fn later_overlay_wins() {
    let base = solid_png(10, 10, RED);
    let green = solid_png(4, 4, GREEN);
    let blue = solid_png(4, 4, BLUE);
    let green_then_blue = multi_paste(
        base.clone(),
        vec![(green.clone(), vec![(3, 3)]), (blue.clone(), vec![(3, 3)])],
    )
    .unwrap();
    let blue_then_green =
        multi_paste(base, vec![(blue, vec![(3, 3)]), (green, vec![(3, 3)])]).unwrap();
    assert_ne!(green_then_blue, blue_then_green);
    assert_eq!(pixel(&decode_rgba(&green_then_blue), 4, 4), BLUE);
    assert_eq!(pixel(&decode_rgba(&blue_then_green), 4, 4), GREEN);
}

#[test]
fn transparent_overlay_is_noop() {
    let base = solid_png(10, 10, RED);
    let clear = solid_png(4, 4, CLEAR);
    let with_overlay = multi_paste(base.clone(), vec![(clear, vec![(2, 2)])]).unwrap();
    let without = multi_paste(base, vec![]).unwrap();
    assert_eq!(with_overlay, without);
    let decoded = decode_rgba(&with_overlay);
    for y in 0..10 {
        for x in 0..10 {
            assert_eq!(pixel(&decoded, x, y), RED);
        }
    }
}

#[test]
fn undecodable_overlay_fails_whole_call() {
    let base = solid_png(10, 10, RED);
    let good = solid_png(4, 4, BLUE);
    let bad = vec![0u8, 1, 2, 3];
    let out = multi_paste(base, vec![(good, vec![(0, 0)]), (bad, vec![(1, 1)])]);
    assert_eq!(out, Err(PasteError::Decode));
}

#[test]
fn empty_layer_list_reencodes_base() {
    let base = solid_png(5, 7, GREEN);
    let out = multi_paste(base, vec![]).unwrap();
    let decoded = decode_rgba(&out);
    assert_eq!((decoded.0, decoded.1), (5, 7));
    for y in 0..7 {
        for x in 0..5 {
            assert_eq!(pixel(&decoded, x, y), GREEN);
        }
    }
}

#[test]
fn fully_offscreen_overlay_is_clipped() {
    let base = solid_png(10, 10, RED);
    let overlay = solid_png(4, 4, BLUE);
    let out = paste(base, overlay, (100, 200)).unwrap();
    let decoded = decode_rgba(&out);
    for y in 0..10 {
        for x in 0..10 {
            assert_eq!(pixel(&decoded, x, y), RED);
        }
    }
}

#[test]
fn jpeg_base_is_auto_detected() {
    let img = image::ImageBuffer::from_pixel(10, 10, image::Rgb([255u8, 0, 0]));
    let mut base: Vec<u8> = Vec::new();
    image::DynamicImage::ImageRgb8(img)
        .write_to(&mut base, image::ImageOutputFormat::Jpeg(90))
        .unwrap();
    let overlay = solid_png(4, 4, BLUE);
    let out = paste(base, overlay, (2, 2)).unwrap();
    let decoded = decode_rgba(&out);
    assert_eq!((decoded.0, decoded.1), (10, 10));
    for y in 2..6 {
        for x in 2..6 {
            assert_eq!(pixel(&decoded, x, y), BLUE, "at ({}, {})", x, y);
        }
    }
}
