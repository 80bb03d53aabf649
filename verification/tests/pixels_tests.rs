use mtg_proxy_creator::pixels::{normalize_image, remove_alpha_channel, ColorSpace, PixelBuffer};

fn rgba(width: u32, height: u32, data: Vec<u8>) -> PixelBuffer {
    PixelBuffer { width, height, color: ColorSpace::Rgba, data }
}

#[test]
fn blends_rgba_against_white_exactly() {
    // new = (255 - a) + (a * c) / 255, truncated.
    let img = rgba(2, 1, vec![100, 150, 200, 0, 100, 150, 200, 255]);
    let out = remove_alpha_channel(img);
    assert!(matches!(out.color, ColorSpace::Rgb));
    // Fully transparent becomes white; fully opaque keeps its channels.
    assert_eq!(out.data, vec![255, 255, 255, 100, 150, 200]);
    assert_eq!(out.width, 2);
    assert_eq!(out.height, 1);
}

#[test]
fn blend_truncates_like_integer_division() {
    // a = 51, c = 250: (255 - 51) + 51 * 250 / 255 = 204 + 50 = 254.
    let img = rgba(1, 1, vec![250, 0, 10, 51]);
    let out = remove_alpha_channel(img);
    assert_eq!(out.data[0], 254);
    // c = 0: 255 - 51 = 204.
    assert_eq!(out.data[1], 204);
    // c = 10: 204 + 510 / 255 = 206.
    assert_eq!(out.data[2], 206);
}

#[test]
fn greyscale_alpha_uses_single_channel_formula() {
    let img = PixelBuffer {
        width: 2,
        height: 1,
        color: ColorSpace::GreyscaleAlpha,
        data: vec![80, 0, 80, 255],
    };
    let out = remove_alpha_channel(img);
    assert!(matches!(out.color, ColorSpace::Greyscale));
    assert_eq!(out.data, vec![255, 80]);
}

#[test]
fn opaque_buffers_pass_through_unchanged() {
    let img = PixelBuffer {
        width: 1,
        height: 1,
        color: ColorSpace::Rgb,
        data: vec![1, 2, 3],
    };
    let out = remove_alpha_channel(img);
    assert!(matches!(out.color, ColorSpace::Rgb));
    assert_eq!(out.data, vec![1, 2, 3]);

    let grey = PixelBuffer {
        width: 3,
        height: 1,
        color: ColorSpace::Greyscale,
        data: vec![9, 8, 7],
    };
    let out = remove_alpha_channel(grey);
    assert!(matches!(out.color, ColorSpace::Greyscale));
    assert_eq!(out.data, vec![9, 8, 7]);
}

#[test]
fn alpha_removal_is_idempotent() {
    let img = rgba(1, 2, vec![10, 20, 30, 40, 50, 60, 70, 80]);
    let once = remove_alpha_channel(img);
    let again = remove_alpha_channel(PixelBuffer {
        width: once.width,
        height: once.height,
        color: once.color,
        data: once.data.clone(),
    });
    assert_eq!(again.data, once.data);
    assert!(matches!(again.color, ColorSpace::Rgb));
}

#[test]
fn decodes_real_png_and_strips_alpha() {
    // A 2x1 RGBA PNG: one transparent pixel, one half-transparent red.
    let mut img = image::RgbaImage::new(2, 1);
    img.put_pixel(0, 0, image::Rgba([10, 20, 30, 0]));
    img.put_pixel(1, 0, image::Rgba([200, 0, 0, 51]));
    let mut bytes: Vec<u8> = Vec::new();
    img.write_to(
        &mut std::io::Cursor::new(&mut bytes),
        image::ImageOutputFormat::Png,
    )
    .unwrap();

    let out = normalize_image(&bytes).expect("png should decode");
    assert!(matches!(out.color, ColorSpace::Rgb));
    assert_eq!(out.width, 2);
    assert_eq!(out.height, 1);
    // (255 - 51) + 51 * 200 / 255 = 204 + 40 = 244.
    assert_eq!(out.data, vec![255, 255, 255, 244, 204, 204]);
}

#[test]
fn decodes_opaque_rgb_png_unchanged() {
    let mut img = image::RgbImage::new(1, 1);
    img.put_pixel(0, 0, image::Rgb([12, 34, 56]));
    let mut bytes: Vec<u8> = Vec::new();
    img.write_to(
        &mut std::io::Cursor::new(&mut bytes),
        image::ImageOutputFormat::Png,
    )
    .unwrap();
    let out = normalize_image(&bytes).expect("png should decode");
    assert!(matches!(out.color, ColorSpace::Rgb));
    assert_eq!(out.data, vec![12, 34, 56]);
}

#[test]
fn solid_image_repeats_its_color() {
    let img = mtg_proxy_creator::pixels::solid_image(2, 3, 9, 8, 7);
    assert!(matches!(img.color, ColorSpace::Rgb));
    assert_eq!(img.width, 2);
    assert_eq!(img.height, 3);
    assert_eq!(img.data.len(), 2 * 3 * 3);
    for (j, b) in img.data.iter().enumerate() {
        let want = [9u8, 8, 7][j % 3];
        assert_eq!(*b, want);
    }
}

#[test]
fn invalid_bytes_fail_to_decode() {
    assert!(normalize_image(&vec![1, 2, 3, 4]).is_err());
    assert!(normalize_image(&Vec::new()).is_err());
}
