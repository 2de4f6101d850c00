use alttab::icons::IconData;
use alttab::pixels::{blend_glyph_pixel, draw_icon};

#[test]
fn opaque_icon_is_copied_in_bgra_order() {
    let icon = IconData { width: 1, height: 1, pixels: vec![10, 20, 30, 255] };
    let mut canvas = vec![0u8; 3 * 2 * 4];
    draw_icon(&mut canvas, 3, 2, 1, 1, 2, 1, &icon);
    let mut expected = vec![0u8; 24];
    expected[16..24].copy_from_slice(&[30, 20, 10, 255, 30, 20, 10, 255]);
    assert_eq!(canvas, expected);
}

#[test]
fn translucent_icon_blends() {
    let icon = IconData { width: 1, height: 1, pixels: vec![255, 0, 0, 128] };
    let mut canvas = vec![0, 0, 255, 255];
    draw_icon(&mut canvas, 1, 1, 0, 0, 1, 1, &icon);
    // r = (255*128 + 255*127 + 128)/255 = 255, b = (0 + 0 + 128)/255 = 0
    assert_eq!(canvas, vec![0, 0, 255, 255]);
    let mut canvas = vec![100, 100, 100, 0];
    draw_icon(&mut canvas, 1, 1, 0, 0, 1, 1, &icon);
    // b = (0*128 + 100*127 + 128)/255 = 50, r = (255*128 + 100*127 + 128)/255 = 178, a = (128*255 + 0 + 128)/255 = 128
    assert_eq!(canvas, vec![50, 50, 178, 128]);
}

#[test]
fn transparent_pixels_and_outside_parts_are_skipped() {
    let icon = IconData { width: 2, height: 1, pixels: vec![1, 1, 1, 0, 2, 2, 2, 255] };
    let mut canvas = vec![9u8; 2 * 1 * 4];
    draw_icon(&mut canvas, 2, 1, 0, 0, 4, 4, &icon);
    // target 4x4 on a 2x1 canvas: column 0 samples pixel 0 (transparent), column 1 samples 0 too
    assert_eq!(canvas, vec![9u8; 8]);
    let mut canvas = vec![9u8; 8];
    draw_icon(&mut canvas, 2, 1, 1, 0, 2, 1, &icon);
    // at x = 1, target column 0 samples pixel 0 (transparent); column 1 is off the canvas
    assert_eq!(canvas, vec![9u8; 8]);
    let mut canvas = vec![9u8; 8];
    draw_icon(&mut canvas, 2, 1, 0, 0, 2, 1, &icon);
    assert_eq!(canvas, vec![9, 9, 9, 9, 2, 2, 2, 255]);
}

#[test]
fn nearest_neighbour_scaling() {
    // 2x2 icon scaled to 4x4: each source pixel covers a 2x2 block
    let icon = IconData { width: 2, height: 2, pixels: vec![
        1, 0, 0, 255, 2, 0, 0, 255,
        3, 0, 0, 255, 4, 0, 0, 255,
    ] };
    let mut canvas = vec![0u8; 4 * 4 * 4];
    draw_icon(&mut canvas, 4, 4, 0, 0, 4, 4, &icon);
    let reds: Vec<u8> = canvas.chunks(4).map(|p| p[2]).collect();
    assert_eq!(reds, vec![1, 1, 2, 2, 1, 1, 2, 2, 3, 3, 4, 4, 3, 3, 4, 4]);
}

#[test]
fn empty_or_short_icons_draw_nothing() {
    let mut canvas = vec![7u8; 16];
    draw_icon(&mut canvas, 2, 2, 0, 0, 2, 2, &IconData { width: 0, height: 3, pixels: vec![] });
    assert_eq!(canvas, vec![7u8; 16]);
    draw_icon(&mut canvas, 2, 2, 0, 0, 2, 2, &IconData { width: 2, height: 2, pixels: vec![1, 1, 1, 255] });
    assert_eq!(&canvas[0..4], &[1, 1, 1, 255]);
    assert_eq!(&canvas[4..16], &[7u8; 12]);
}

#[test]
fn glyph_pixels() {
    let mut data = vec![0u8; 8];
    blend_glyph_pixel(&mut data, 2, 1, 0, 0xFF11_2233, 255);
    assert_eq!(data, vec![0, 0, 0, 0, 0x33, 0x22, 0x11, 255]);
    let mut data = vec![0u8; 4];
    blend_glyph_pixel(&mut data, 1, 0, 0, 0xFFFF_FFFF, 0);
    assert_eq!(data, vec![0u8; 4]);
    blend_glyph_pixel(&mut data, 1, 0, 1, 0xFFFF_FFFF, 255);
    assert_eq!(data, vec![0u8; 4]);
    // half coverage of opaque white over black: sa = (255*128+128)/255 = 128
    blend_glyph_pixel(&mut data, 1, 0, 0, 0xFFFF_FFFF, 128);
    // c = (255*128 + 0*127 + 128)/255 = 128
    assert_eq!(data, vec![128, 128, 128, 128]);
    // transparent colour draws nothing
    let mut data = vec![5u8; 4];
    blend_glyph_pixel(&mut data, 1, 0, 0, 0x00FF_FFFF, 255);
    assert_eq!(data, vec![5u8; 4]);
}

#[test]
fn packed_colour_is_drawn_as_itself() {
    let colour = (0x12, 0x34, 0x56, 0xFF);
    let mut data = vec![0u8; 4];
    blend_glyph_pixel(&mut data, 1, 0, 0, alttab::color::pack_argb(colour), 255);
    assert_eq!(data, vec![0x56, 0x34, 0x12, 0xFF]);
}
