use ascii_image::image_converter::{ConvertError, ImageConverter, ScalingType};

fn png_bytes(width: u32, height: u32, pixels: &[(u8, u8, u8)]) -> Vec<u8> {
    let mut img = image::RgbImage::new(width, height);
    for y in 0..height {
        for x in 0..width {
            let (r, g, b) = pixels[(y * width + x) as usize];
            img.put_pixel(x, y, image::Rgb([r, g, b]));
        }
    }
    let mut cursor = std::io::Cursor::new(Vec::new());
    img.write_to(&mut cursor, image::ImageFormat::Png).unwrap();
    cursor.into_inner()
}

fn default_palette() -> Vec<char> {
    vec![' ', '.', ':', '-', '=', '+', '*', '#', '%', '@']
}

#[test]
fn single_black_pixel_mono() {
    let bytes = png_bytes(1, 1, &[(0, 0, 0)]);
    let converter = ImageConverter::new(&bytes, false, 1, 1, ScalingType::Stretch).unwrap();
    assert_eq!(converter.convert(default_palette()), " \n");
}

#[test]
fn single_white_pixel_mono() {
    let bytes = png_bytes(1, 1, &[(255, 255, 255)]);
    let converter = ImageConverter::new(&bytes, false, 1, 1, ScalingType::Stretch).unwrap();
    assert_eq!(converter.convert(default_palette()), "@\n");
}

#[test]
fn two_glyph_palette_black_and_white() {
    let bytes = png_bytes(2, 1, &[(0, 0, 0), (255, 255, 255)]);
    let converter = ImageConverter::new(&bytes, false, 2, 1, ScalingType::Stretch).unwrap();
    assert_eq!(converter.convert(vec![' ', '@']), " @\n");
}

#[test]
fn mid_gray_maps_to_plus() {
    let bytes = png_bytes(1, 1, &[(128, 128, 128)]);
    let converter = ImageConverter::new(&bytes, false, 1, 1, ScalingType::Stretch).unwrap();
    assert_eq!(converter.convert(default_palette()), "+\n");
}

#[test]
fn colored_single_pixel_escape() {
    let bytes = png_bytes(1, 1, &[(10, 20, 30)]);
    let converter = ImageConverter::new(&bytes, true, 1, 1, ScalingType::Stretch).unwrap();
    assert_eq!(converter.convert(default_palette()), "\u{1b}[38;2;10;20;30m.\u{1b}[0m\n");
}

#[test]
fn preserve_ratio_dims() {
    let pixels = vec![(0u8, 0u8, 0u8); 100 * 50];
    let bytes = png_bytes(100, 50, &pixels);
    let converter = ImageConverter::new(&bytes, false, 40, 40, ScalingType::PreserveRatio).unwrap();
    let out = converter.convert(default_palette());
    let lines: Vec<&str> = out.split('\n').collect();
    assert_eq!(lines.last(), Some(&""));
    let rows: Vec<&str> = lines[..lines.len() - 1].to_vec();
    assert_eq!(rows.len(), 20);
    for row in rows {
        assert_eq!(row.chars().count(), 40);
    }
}

#[test]
fn stretch_dims() {
    let bytes = png_bytes(1, 1, &[(200, 200, 200)]);
    let converter = ImageConverter::new(&bytes, false, 5, 3, ScalingType::Stretch).unwrap();
    let out = converter.convert(default_palette());
    let rows: Vec<&str> = out.split('\n').filter(|r| !r.is_empty()).collect();
    assert_eq!(rows.len(), 3);
    for row in &rows {
        assert_eq!(row.chars().count(), 5);
    }
}

#[test]
fn newline_count_matches_height() {
    let bytes = png_bytes(2, 2, &[(0, 0, 0), (80, 80, 80), (160, 160, 160), (255, 255, 255)]);
    let converter = ImageConverter::new(&bytes, false, 3, 2, ScalingType::Stretch).unwrap();
    let out = converter.convert(default_palette());
    assert_eq!(out.chars().filter(|c| *c == '\n').count(), 2);
}

#[test]
fn glyphs_come_from_palette() {
    let bytes = png_bytes(2, 2, &[(0, 0, 0), (90, 10, 200), (17, 255, 3), (255, 255, 255)]);
    let converter = ImageConverter::new(&bytes, false, 4, 4, ScalingType::Stretch).unwrap();
    let out = converter.convert(vec!['a', 'b', 'c']);
    for c in out.chars() {
        assert!(c == 'a' || c == 'b' || c == 'c' || c == '\n');
    }
}

#[test]
fn single_glyph_palette() {
    let bytes = png_bytes(2, 1, &[(0, 0, 0), (255, 255, 255)]);
    let converter = ImageConverter::new(&bytes, false, 2, 1, ScalingType::Stretch).unwrap();
    assert_eq!(converter.convert(vec!['#']), "##\n");
}

#[test]
fn colored_escape_carries_pixel_rgb() {
    let bytes = png_bytes(2, 1, &[(1, 2, 3), (250, 0, 77)]);
    let converter = ImageConverter::new(&bytes, true, 2, 1, ScalingType::Stretch).unwrap();
    let out = converter.convert(default_palette());
    assert!(out.contains("\u{1b}[38;2;1;2;3m"));
    assert!(out.contains("\u{1b}[38;2;250;0;77m"));
}

#[test]
fn render_is_idempotent() {
    let bytes = png_bytes(2, 2, &[(0, 0, 0), (90, 10, 200), (17, 255, 3), (255, 255, 255)]);
    let converter = ImageConverter::new(&bytes, true, 4, 4, ScalingType::Stretch).unwrap();
    let first = converter.convert(default_palette());
    let second = converter.convert(default_palette());
    assert_eq!(first, second);
    let again = ImageConverter::new(&bytes, true, 4, 4, ScalingType::Stretch).unwrap();
    assert_eq!(first, again.convert(default_palette()));
}

#[test]
fn unknown_format_is_rejected() {
    let bytes = vec![7u8; 64];
    let result = ImageConverter::new(&bytes, false, 10, 10, ScalingType::Stretch);
    assert_eq!(result.unwrap_err(), ConvertError::FormatUnrecognized);
}

#[test]
fn malformed_bitstream_is_rejected() {
    let mut bytes = png_bytes(1, 1, &[(0, 0, 0)]);
    bytes.truncate(20);
    let result = ImageConverter::new(&bytes, false, 10, 10, ScalingType::Stretch);
    assert_eq!(result.unwrap_err(), ConvertError::DecodeFailed);
}

#[test]
fn zero_target_dimension_is_rejected() {
    let bytes = png_bytes(1, 1, &[(0, 0, 0)]);
    let result = ImageConverter::new(&bytes, false, 0, 10, ScalingType::Stretch);
    assert_eq!(result.unwrap_err(), ConvertError::InvalidDimensions);
    let result = ImageConverter::new(&bytes, false, 10, 0, ScalingType::Stretch);
    assert_eq!(result.unwrap_err(), ConvertError::InvalidDimensions);
}

#[test]
fn nearest_neighbor_downscale_picks_source_pixels() {
    // A 2x1 source shrunk to 1x1 keeps the left pixel under this sampling.
    let bytes = png_bytes(2, 1, &[(255, 255, 255), (0, 0, 0)]);
    let converter = ImageConverter::new(&bytes, false, 1, 1, ScalingType::Stretch).unwrap();
    assert_eq!(converter.convert(default_palette()), "@\n");
}
