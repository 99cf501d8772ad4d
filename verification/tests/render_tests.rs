use ascii_image::raster::{preserve_dims_exec, resize, Pixel, Raster};
use ascii_image::render::{chars_to_string, glyph_index_exec, render_chars};

fn px(r: u8, g: u8, b: u8) -> Pixel {
    Pixel { r, g, b }
}

#[test]
fn glyph_index_edges() {
    assert_eq!(glyph_index_exec(px(0, 0, 0), 10), 0);
    assert_eq!(glyph_index_exec(px(255, 255, 255), 10), 9);
    assert_eq!(glyph_index_exec(px(128, 128, 128), 10), 5);
    assert_eq!(glyph_index_exec(px(10, 20, 30), 10), 1);
    assert_eq!(glyph_index_exec(px(77, 77, 77), 1), 0);
}

#[test]
fn glyph_index_weighs_green_highest() {
    // 2126*R + 7152*G + 722*B: a green pixel is brighter than a red one.
    let green = glyph_index_exec(px(0, 200, 0), 10);
    let red = glyph_index_exec(px(200, 0, 0), 10);
    assert!(green > red);
}

#[test]
fn render_mono_rows() {
    let pixels = vec![px(0, 0, 0), px(255, 255, 255), px(255, 255, 255), px(0, 0, 0)];
    let palette = vec![' ', '@'];
    let out = chars_to_string(&render_chars(&pixels, 2, &palette, false));
    assert_eq!(out, " @\n@ \n");
}

#[test]
fn render_colored_cell_bytes() {
    let pixels = vec![px(255, 0, 128)];
    let palette = vec!['x'];
    let out = chars_to_string(&render_chars(&pixels, 1, &palette, true));
    assert_eq!(out, "\u{1b}[38;2;255;0;128mx\u{1b}[0m\n");
}

#[test]
fn resize_upscales_by_nearest_neighbor() {
    let src = Raster {
        width: 2,
        height: 1,
        pixels: vec![px(1, 1, 1), px(9, 9, 9)],
    };
    let out = resize(&src, 4, 2);
    assert_eq!((out.width, out.height), (4, 2));
    let values: Vec<u8> = out.pixels.iter().map(|p| p.r).collect();
    assert_eq!(values, vec![1, 1, 9, 9, 1, 1, 9, 9]);
}

#[test]
fn resize_downscales_by_nearest_neighbor() {
    let src = Raster {
        width: 4,
        height: 1,
        pixels: vec![px(0, 0, 0), px(1, 1, 1), px(2, 2, 2), px(3, 3, 3)],
    };
    let out = resize(&src, 2, 1);
    let values: Vec<u8> = out.pixels.iter().map(|p| p.r).collect();
    assert_eq!(values, vec![0, 2]);
}

#[test]
fn preserve_dims_fills_one_axis() {
    assert_eq!(preserve_dims_exec(100, 50, 40, 40), (40, 20));
    assert_eq!(preserve_dims_exec(50, 100, 40, 40), (20, 40));
    assert_eq!(preserve_dims_exec(10, 10, 7, 9), (7, 7));
    assert_eq!(preserve_dims_exec(1000, 1, 10, 10), (10, 1));
}
