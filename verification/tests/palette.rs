use m3d::palette::{palette_from_pixels, palette_to_png, png_to_palette, PngColor};

fn sample_palette() -> Vec<u8> {
    (0..768u32).map(|i| ((i * 7 + 3) % 256) as u8).collect()
}

fn encode(width: u32, height: u32, color: png::ColorType, data: &[u8]) -> Vec<u8> {
    let mut out: Vec<u8> = Vec::new();
    {
        let mut encoder = png::Encoder::new(&mut out, width, height);
        encoder.set_color(color);
        let mut writer = encoder.write_header().unwrap();
        writer.write_image_data(data).unwrap();
    }
    out
}

#[test]
fn palette_image_round_trip() {
    let palette = sample_palette();
    let image = palette_to_png(&palette).unwrap();
    assert_eq!(&image[..8], &[137, 80, 78, 71, 13, 10, 26, 10]);
    assert_ne!(image, palette);
    assert_eq!(png_to_palette(&image), Some(palette));
}

#[test]
fn palette_image_is_rgb_256_by_1() {
    let image = palette_to_png(&sample_palette()).unwrap();
    let decoder = png::Decoder::new(&image[..]);
    let (info, _) = decoder.read_info().unwrap();
    assert_eq!((info.width, info.height), (256, 1));
    assert_eq!(info.color_type, png::ColorType::RGB);
    assert_eq!(info.bit_depth, png::BitDepth::Eight);
}

#[test]
fn palette_of_wrong_size_is_refused() {
    assert_eq!(palette_to_png(&[1, 2, 3]), None);
    assert_eq!(palette_to_png(&[0u8; 769]), None);
    assert_eq!(palette_to_png(&[]), None);
}

#[test]
fn rgba_image_drops_alpha() {
    let rgba: Vec<u8> = (0..1024u32).map(|i| (i % 251) as u8).collect();
    let image = encode(256, 1, png::ColorType::RGBA, &rgba);
    let palette = png_to_palette(&image).unwrap();
    assert_eq!(palette.len(), 768);
    for k in 0..256 {
        assert_eq!(&palette[3 * k..3 * k + 3], &rgba[4 * k..4 * k + 3]);
    }
}

#[test]
fn image_of_wrong_shape_holds_no_palette() {
    let rgb = vec![9u8; 768];
    assert_eq!(png_to_palette(&encode(128, 2, png::ColorType::RGB, &rgb)), None);
    let gray = vec![5u8; 256];
    assert_eq!(png_to_palette(&encode(256, 1, png::ColorType::Grayscale, &gray)), None);
}

#[test]
fn bytes_that_are_no_image_hold_no_palette() {
    assert_eq!(png_to_palette(&[]), None);
    assert_eq!(png_to_palette(&sample_palette()), None);
}

#[test]
fn palette_from_rgb_pixels() {
    let pixels: Vec<u8> = (0..768u32).map(|i| (i % 256) as u8).collect();
    let palette = palette_from_pixels(256, 1, PngColor::Rgb, 8, &pixels).unwrap();
    assert_eq!(palette, pixels);
}

#[test]
fn palette_from_rgba_pixels() {
    let pixels: Vec<u8> = (0..1024u32).map(|i| (i / 4) as u8).collect();
    let palette = palette_from_pixels(256, 1, PngColor::Rgba, 8, &pixels).unwrap();
    assert_eq!(&palette[..6], &[0, 0, 0, 1, 1, 1]);
    assert_eq!(&palette[765..], &[255, 255, 255]);
}

#[test]
fn palette_from_pixels_refusals() {
    let rgb = vec![0u8; 768];
    assert_eq!(palette_from_pixels(255, 1, PngColor::Rgb, 8, &rgb), None);
    assert_eq!(palette_from_pixels(256, 2, PngColor::Rgb, 8, &rgb), None);
    assert_eq!(palette_from_pixels(256, 1, PngColor::Rgb, 16, &rgb), None);
    assert_eq!(palette_from_pixels(256, 1, PngColor::Grayscale, 8, &rgb), None);
    assert_eq!(palette_from_pixels(256, 1, PngColor::Indexed, 8, &rgb), None);
    assert_eq!(palette_from_pixels(256, 1, PngColor::Rgba, 8, &rgb), None);
    assert_eq!(palette_from_pixels(256, 1, PngColor::Rgb, 8, &rgb[..767]), None);
}
