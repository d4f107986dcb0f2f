use screen_broadcast::color::{
    bgra_to_rgb, rgb_to_yuv420, rgba_to_argb, write_yuv420, yuv420_to_rgba,
};

fn solid(r: u8, g: u8, b: u8, pixels: usize) -> Vec<u8> {
    let mut rgb = Vec::new();
    for _ in 0..pixels {
        rgb.extend_from_slice(&[r, g, b]);
    }
    rgb
}

fn luma(r: i32, g: i32, b: i32) -> u8 {
    (((66 * r + 129 * g + 25 * b + 128) >> 8) + 16).clamp(0, 255) as u8
}

fn chroma_u(r: i32, g: i32, b: i32) -> u8 {
    (((-38 * r - 74 * g + 112 * b + 128) >> 8) + 128).clamp(0, 255) as u8
}

fn chroma_v(r: i32, g: i32, b: i32) -> u8 {
    (((112 * r - 94 * g - 18 * b + 128) >> 8) + 128).clamp(0, 255) as u8
}

#[test]
fn black_white_and_red_have_their_bt601_values() {
    assert_eq!(rgb_to_yuv420(&solid(0, 0, 0, 4), 2, 2), vec![16, 16, 16, 16, 128, 128]);
    assert_eq!(rgb_to_yuv420(&solid(255, 255, 255, 4), 2, 2), vec![235, 235, 235, 235, 128, 128]);
    assert_eq!(rgb_to_yuv420(&solid(255, 0, 0, 4), 2, 2), vec![82, 82, 82, 82, 90, 240]);
    assert_eq!(rgb_to_yuv420(&solid(0, 255, 0, 4), 2, 2), vec![144, 144, 144, 144, 54, 34]);
    assert_eq!(rgb_to_yuv420(&solid(0, 0, 255, 4), 2, 2), vec![41, 41, 41, 41, 240, 110]);
}

#[test]
fn planes_are_tightly_packed() {
    let yuv = rgb_to_yuv420(&solid(10, 20, 30, 4 * 6), 4, 6);
    assert_eq!(yuv.len(), 24 + 6 + 6);
    assert!(yuv[..24].iter().all(|y| *y == luma(10, 20, 30)));
    assert!(yuv[24..30].iter().all(|u| *u == chroma_u(10, 20, 30)));
    assert!(yuv[30..].iter().all(|v| *v == chroma_v(10, 20, 30)));
}

#[test]
fn chroma_is_taken_from_the_block_mean() {
    // 4x2 picture: left block red/black mix, right block blue.
    let mut rgb = Vec::new();
    let row0 = [[255u8, 0, 0], [0, 0, 0], [0, 0, 255], [0, 0, 255]];
    let row1 = [[0u8, 0, 0], [255, 0, 0], [0, 0, 255], [0, 0, 255]];
    for p in row0.iter().chain(row1.iter()) {
        rgb.extend_from_slice(p);
    }
    let yuv = rgb_to_yuv420(&rgb, 4, 2);
    assert_eq!(yuv.len(), 8 + 2 + 2);
    assert_eq!(yuv[0], luma(255, 0, 0));
    assert_eq!(yuv[1], luma(0, 0, 0));
    assert_eq!(yuv[2], luma(0, 0, 255));
    assert_eq!(yuv[4], luma(0, 0, 0));
    assert_eq!(yuv[5], luma(255, 0, 0));
    // mean of the left block: (255 + 0 + 0 + 255) >> 2 = 127 red
    assert_eq!(yuv[8], chroma_u(127, 0, 0));
    assert_eq!(yuv[10], chroma_v(127, 0, 0));
    assert_eq!(yuv[8], 109);
    assert_eq!(yuv[10], 184);
    assert_eq!(yuv[9], chroma_u(0, 0, 255));
    assert_eq!(yuv[11], chroma_v(0, 0, 255));
}

#[test]
fn chroma_of_block_row_and_column() {
    // 4x4 picture with four blocks of distinct colours.
    let colours = [[200u8, 10, 10], [10, 200, 10], [10, 10, 200], [90, 90, 90]];
    let mut rgb = Vec::new();
    for y in 0..4 {
        for x in 0..4 {
            rgb.extend_from_slice(&colours[(y / 2) * 2 + x / 2]);
        }
    }
    let yuv = rgb_to_yuv420(&rgb, 4, 4);
    assert_eq!(yuv.len(), 16 + 4 + 4);
    for k in 0..4 {
        let c = colours[k];
        assert_eq!(yuv[16 + k], chroma_u(c[0] as i32, c[1] as i32, c[2] as i32));
        assert_eq!(yuv[20 + k], chroma_v(c[0] as i32, c[1] as i32, c[2] as i32));
    }
    for y in 0..4 {
        for x in 0..4 {
            let c = colours[(y / 2) * 2 + x / 2];
            assert_eq!(yuv[y * 4 + x], luma(c[0] as i32, c[1] as i32, c[2] as i32));
        }
    }
}

#[test]
fn components_stay_in_their_ranges() {
    for r in (0..=255).step_by(15) {
        for g in (0..=255).step_by(15) {
            for b in (0..=255).step_by(15) {
                let yuv = rgb_to_yuv420(&solid(r as u8, g as u8, b as u8, 4), 2, 2);
                assert!((16..=235).contains(&yuv[0]));
                assert!((16..=240).contains(&yuv[4]));
                assert!((16..=240).contains(&yuv[5]));
            }
        }
    }
}

#[test]
fn short_rgb_buffer_leaves_the_rest_untouched() {
    let yuv = rgb_to_yuv420(&solid(255, 255, 255, 2), 2, 2);
    assert_eq!(yuv[..4], [235, 235, 0, 0]);
    // mean over the block counts the missing pixels as nothing: 510 >> 2 = 127
    assert_eq!(yuv[4], chroma_u(127, 127, 127));
    assert_eq!(yuv[5], chroma_v(127, 127, 127));
    let mut buf = vec![9u8; 6];
    write_yuv420(&solid(0, 0, 0, 1), 2, 2, &mut buf);
    assert_eq!(buf, vec![16, 9, 9, 9, 128, 128]);
}

#[test]
fn odd_sizes_follow_the_plane_layout() {
    // 3x2: luma 6 bytes, chroma planes of 6 / 4 = 1 byte each.
    let yuv = rgb_to_yuv420(&solid(255, 0, 0, 6), 3, 2);
    assert_eq!(yuv.len(), 6 + 1 + 1);
    assert!(yuv[..6].iter().all(|y| *y == 82));
    assert_eq!(yuv[6], 90);
    assert_eq!(yuv[7], 240);
    assert!(rgb_to_yuv420(&[], 0, 0).is_empty());
    assert_eq!(rgb_to_yuv420(&solid(0, 0, 0, 1), 1, 1), vec![16]);
}

#[test]
fn yuv_to_rgba_grey_and_colours() {
    let rgba = yuv420_to_rgba(&[16, 16, 16, 16, 128, 128], 2, 2);
    assert_eq!(rgba, [16u8, 16, 16, 255].repeat(4));
    let rgba = yuv420_to_rgba(&[235, 235, 235, 235, 128, 128], 2, 2);
    assert_eq!(rgba, [235u8, 235, 235, 255].repeat(4));
    // y = 82, u = 90 - 128 = -38, v = 240 - 128 = 112
    let rgba = yuv420_to_rgba(&[82, 82, 82, 82, 90, 240], 2, 2);
    let r = (82 + ((351 * 112) >> 8)).clamp(0, 255) as u8;
    let g = (82 - ((179 * 112 + 86 * -38) >> 8)).clamp(0, 255) as u8;
    let b = (82 + ((443 * -38) >> 8)).clamp(0, 255) as u8;
    assert_eq!((r, g, b), (235, 17, 16));
    assert_eq!(rgba, [r, g, b, 255].repeat(4));
}

#[test]
fn yuv_to_rgba_clamps() {
    let rgba = yuv420_to_rgba(&[255, 0, 255, 0, 255, 255], 2, 2);
    assert_eq!(&rgba[0..4], &[255, 124, 255, 255]);
    assert_eq!(&rgba[4..8], &[174, 0, 219, 255]);
    let rgba = yuv420_to_rgba(&[0, 0, 0, 0, 0, 0], 2, 2);
    assert_eq!(&rgba[0..4], &[0, 133, 0, 255]);
}

#[test]
fn yuv_to_rgba_uses_the_chroma_of_each_block() {
    let mut yuv = vec![100u8; 16];
    yuv.extend_from_slice(&[128, 200, 60, 128]);
    yuv.extend_from_slice(&[128, 128, 128, 30]);
    let rgba = yuv420_to_rgba(&yuv, 4, 4);
    assert_eq!(rgba.len(), 64);
    assert_eq!(&rgba[0..4], &[100, 100, 100, 255]);
    let px = |x: usize, y: usize| rgba[(y * 4 + x) * 4..(y * 4 + x) * 4 + 4].to_vec();
    assert_eq!(px(1, 1), vec![100, 100, 100, 255]);
    let b = (100 + ((443 * 72) >> 8)) as u8;
    let g = (100 - ((86 * 72) >> 8)) as u8;
    assert_eq!(px(2, 0), vec![100, g, b, 255]);
    assert_eq!(px(3, 1), vec![100, g, b, 255]);
    let r = (100 + ((351 * -98) >> 8)).clamp(0, 255) as u8;
    let g2 = (100 - ((179 * -98) >> 8)).clamp(0, 255) as u8;
    assert_eq!(px(3, 3), vec![r, g2, 100, 255]);
}

#[test]
fn rgba_to_argb_packs_opaque_pixels() {
    let rgba = [0x11, 0x22, 0x33, 0x00, 0xFF, 0x00, 0x80, 0x7F];
    assert_eq!(rgba_to_argb(&rgba, 2, 1), vec![0xFF112233, 0xFFFF0080]);
    assert_eq!(rgba_to_argb(&[1, 2, 3, 4], 1, 1), vec![0xFF010203]);
}

#[test]
fn rgba_to_argb_yields_the_pixels_that_are_there() {
    let rgba = [1u8, 2, 3, 4, 5, 6, 7, 8, 9, 10];
    assert_eq!(rgba_to_argb(&rgba, 2, 2), vec![0xFF010203, 0xFF050607]);
    assert_eq!(rgba_to_argb(&rgba, 1, 1), vec![0xFF010203]);
    assert!(rgba_to_argb(&rgba, 0, 5).is_empty());
    assert!(rgba_to_argb(&[], 65535, 65535).is_empty());
    assert_eq!(rgba_to_argb(&rgba, u32::MAX, u32::MAX).len(), 2);
}

#[test]
fn bgra_to_rgb_swaps_channels() {
    let bgra = [3u8, 2, 1, 255, 6, 5, 4, 255, 9, 8, 7, 255, 12, 11, 10, 255];
    assert_eq!(bgra_to_rgb(&bgra, 2, 2), vec![1, 2, 3, 4, 5, 6, 7, 8, 9, 10, 11, 12]);
}

#[test]
fn bgra_to_rgb_honours_the_stride() {
    // 2x2 picture with rows of 12 bytes: 8 bytes of pixels and 4 of padding.
    let bgra = [
        3u8, 2, 1, 0, 6, 5, 4, 0, 99, 99, 99, 99, //
        9, 8, 7, 0, 12, 11, 10, 0, 99, 99, 99, 99,
    ];
    assert_eq!(bgra_to_rgb(&bgra, 2, 2), vec![1, 2, 3, 4, 5, 6, 7, 8, 9, 10, 11, 12]);
}

#[test]
fn bgra_to_rgb_leaves_out_pixels_that_are_not_there() {
    assert!(bgra_to_rgb(&[], 2, 2).is_empty());
    assert!(bgra_to_rgb(&[1, 2, 3, 4], 0, 1).is_empty());
    assert!(bgra_to_rgb(&[1, 2, 3, 4], 1, 0).is_empty());
    // one row of 7 bytes: the second pixel lacks its red byte
    assert_eq!(bgra_to_rgb(&[3, 2, 1, 0, 6, 5], 2, 1), vec![1, 2, 3]);
    assert_eq!(bgra_to_rgb(&[3, 2, 1, 0, 6, 5, 4], 2, 1), vec![1, 2, 3, 4, 5, 6]);
}
