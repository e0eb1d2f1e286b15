use clipper::icon::{load_window_icon, read_icon, IconError, PngLayout};
use image::codecs::png::PngEncoder;
use image::{ExtendedColorType, ImageEncoder};

fn encoded(pixels: &[u8], width: u32, height: u32, color: ExtendedColorType) -> Vec<u8> {
    let mut png = Vec::new();
    PngEncoder::new(&mut png).write_image(pixels, width, height, color).unwrap();
    png
}

#[test]
fn an_icon_is_decoded() {
    let pixels: Vec<u8> = (0..24).collect();
    let icon = load_window_icon(&encoded(&pixels, 3, 2, ExtendedColorType::Rgba8)).unwrap();
    assert_eq!((icon.width, icon.height), (3, 2));
    assert_eq!(icon.rgba, pixels);
}

#[test]
fn an_icon_of_a_known_layout_is_decoded() {
    let pixels: Vec<u8> = (0..6).collect();
    let png = encoded(&pixels, 2, 1, ExtendedColorType::Rgb8);
    let layout = PngLayout { width: 2, height: 1, channels: 3, total_bytes: 6 };
    let icon = read_icon(&png, layout).unwrap();
    assert_eq!((icon.width, icon.height), (2, 1));
    assert_eq!(icon.rgba, pixels);
}

#[test]
fn wide_values_take_two_bytes_each() {
    let pixels = [1u8, 2, 3, 4, 5, 6, 7, 8];
    let icon = load_window_icon(&encoded(&pixels, 1, 1, ExtendedColorType::Rgba16)).unwrap();
    assert_eq!(icon.rgba, pixels);
}

#[test]
fn bytes_that_are_no_image_are_refused() {
    assert!(matches!(load_window_icon(b"not a png"), Err(IconError::Png(_))));
    assert!(matches!(load_window_icon(b""), Err(IconError::Png(_))));
}

#[test]
fn a_cut_image_is_refused() {
    let pixels = vec![7u8; 4 * 64 * 64];
    let png = encoded(&pixels, 64, 64, ExtendedColorType::Rgba8);
    assert!(matches!(load_window_icon(&png[..50]), Err(IconError::Png(_))));
}

#[test]
fn an_image_too_large_for_a_buffer_is_refused() {
    // 2^31 - 1 by 2^31 - 1 pixels of 16-bit grey with one transparent shade.
    let mut header = b"IHDR".to_vec();
    header.extend_from_slice(&0x7fff_ffffu32.to_be_bytes());
    header.extend_from_slice(&0x7fff_ffffu32.to_be_bytes());
    header.extend_from_slice(&[16, 0, 0, 0, 0]);
    let png = of_chunks(&[&header[..], b"tRNS\x00\x01", b"IDAT"]);
    match load_window_icon(&png) {
        Err(IconError::TooLarge { total_bytes }) => assert!(total_bytes > isize::MAX as u64),
        other => panic!("{other:?}"),
    }
}

/// A single pixel, the first colour of the palette, of the kind `color`.
fn one_pixel(color: u8, palette: &[u8], row: &[u8]) -> Vec<u8> {
    let header = [b"IHDR", &[0, 0, 0, 1, 0, 0, 0, 1, 8, color, 0, 0, 0][..]].concat();
    let palette = [b"PLTE", palette].concat();
    let (mut a, mut b) = (1u32, 0u32);
    for byte in row {
        a += *byte as u32;
        b += a;
    }
    let len = row.len() as u16;
    let data = [
        b"IDAT",
        &[0x78, 1, 1][..],
        &len.to_le_bytes(),
        &(!len).to_le_bytes(),
        row,
        &(b << 16 | a).to_be_bytes(),
    ]
    .concat();
    of_chunks(&[&header, &palette, &data, b"IEND"])
}

#[test]
fn an_image_with_a_palette_is_decoded() {
    for palette in [&[7u8, 8, 9][..], &[7, 8, 9, 1, 2, 3]] {
        let icon = load_window_icon(&one_pixel(3, palette, &[0, 0])).unwrap();
        assert_eq!((icon.width, icon.height), (1, 1));
        assert_eq!(icon.rgba, vec![7, 8, 9]);
    }
}

#[test]
fn a_palette_that_ends_within_a_colour_is_refused() {
    for palette in [&[7u8, 8, 9, 1][..], &[7, 8, 9, 1, 2]] {
        let png = one_pixel(3, palette, &[0, 0]);
        assert!(matches!(load_window_icon(&png), Err(IconError::BrokenPalette)));
    }
}

#[test]
fn pixels_that_cannot_be_decoded_come_before_the_palette() {
    for palette in [&[7u8, 8, 9][..], &[7, 8, 9, 1], &[7, 8, 9, 1, 2]] {
        for row in [&[][..], &[0], &[9, 0]] {
            let png = one_pixel(3, palette, row);
            assert!(matches!(load_window_icon(&png), Err(IconError::Png(_))));
        }
    }
}

#[test]
fn a_palette_that_no_pixel_needs_may_end_anywhere() {
    let icon = load_window_icon(&one_pixel(2, &[7, 8, 9, 1], &[0, 4, 5, 6])).unwrap();
    assert_eq!(icon.rgba, vec![4, 5, 6]);
}

fn of_chunks(chunks: &[&[u8]]) -> Vec<u8> {
    let mut png = vec![0x89, b'P', b'N', b'G', 13, 10, 26, 10];
    for chunk in chunks {
        png.extend_from_slice(&(chunk.len() as u32 - 4).to_be_bytes());
        png.extend_from_slice(chunk);
        png.extend_from_slice(&crc(chunk).to_be_bytes());
    }
    png
}

fn crc(bytes: &[u8]) -> u32 {
    let mut crc = u32::MAX;
    for byte in bytes {
        crc ^= *byte as u32;
        for _ in 0..8 {
            crc = if crc & 1 == 1 { (crc >> 1) ^ 0xedb8_8320 } else { crc >> 1 };
        }
    }
    !crc
}
