use sixel::encoder::{Encoder, Image};
use sixel::settings::Settings;
use sixel::sixel::{encode_frame, palette_of, Pixel};

const RED: Pixel = (255, 0, 0, 255);
const BLUE: Pixel = (0, 0, 255, 255);

fn plain_encoder() -> Encoder {
    Encoder::new(Settings::new().build(None, None))
}

fn colored_encoder(colors: u16) -> Encoder {
    let mut builder = Settings::new();
    builder.colors(colors);
    Encoder::new(builder.build(None, None))
}

fn framed(body: &str) -> Vec<u8> {
    let mut bytes = b"\x1bP9q\n".to_vec();
    bytes.extend_from_slice(body.as_bytes());
    bytes.extend_from_slice(b"\x1b\\\n");
    bytes
}

#[test]
fn single_column_of_one_color() {
    let frame = Image { width: 1, height: 6, pixels: vec![RED; 6] };
    let bytes = plain_encoder().encode(&frame, &vec![]);
    assert_eq!(bytes, framed("#0;3;255;0;0;255\n#0~$\n-\n"));
}

#[test]
fn equal_columns_become_a_repeat() {
    let frame = Image { width: 3, height: 6, pixels: vec![RED; 18] };
    let bytes = plain_encoder().encode(&frame, &vec![]);
    assert_eq!(bytes, framed("#0;3;255;0;0;255\n#0!3~$\n-\n"));
}

#[test]
fn each_color_gets_a_block_in_order_of_appearance() {
    // column 0: three red lines over three blue ones; column 1: all red
    let mut pixels = Vec::new();
    for y in 0..6 {
        pixels.push(if y < 3 { RED } else { BLUE });
        pixels.push(RED);
    }
    let frame = Image { width: 2, height: 6, pixels };
    let bytes = plain_encoder().encode(&frame, &vec![]);
    assert_eq!(
        bytes,
        framed("#0;3;255;0;0;255#1;3;0;0;255;255\n#0F~$\n#1w?$\n-\n")
    );
}

#[test]
fn registers_keep_their_ids_across_bands() {
    let mut pixels = vec![RED; 6];
    pixels.extend(vec![BLUE; 3]);
    pixels.extend(vec![RED; 3]);
    let frame = Image { width: 1, height: 12, pixels };
    let bytes = plain_encoder().encode(&frame, &vec![]);
    assert_eq!(
        bytes,
        framed("#0;3;255;0;0;255\n#0~$\n-\n#1;3;0;0;255;255\n#1F$\n#0w$\n-\n")
    );
    let palette = plain_encoder().palette(&frame);
    assert_eq!(palette, vec![RED, BLUE]);
}

#[test]
fn partial_bands_are_not_drawn() {
    let frame = Image { width: 2, height: 5, pixels: vec![RED; 10] };
    assert_eq!(plain_encoder().encode(&frame, &vec![]), framed(""));
    assert_eq!(plain_encoder().palette(&frame), vec![]);
    let frame = Image { width: 0, height: 0, pixels: vec![] };
    assert_eq!(plain_encoder().encode(&frame, &vec![]), framed(""));
}

#[test]
fn empty_width_still_draws_band_moves() {
    let frame = Image { width: 0, height: 6, pixels: vec![] };
    assert_eq!(plain_encoder().encode(&frame, &vec![]), framed("\n-\n"));
}

#[test]
fn counted_colors_are_defined_by_shades_and_made_opaque() {
    let translucent: Pixel = (10, 20, 30, 128);
    let frame = Image { width: 1, height: 6, pixels: vec![translucent; 6] };
    let encoder = colored_encoder(16);
    let palette = encoder.palette(&frame);
    assert_eq!(palette, vec![(10, 20, 30, 255)]);
    let bytes = encoder.encode(&frame, &vec![(210, 50, 8)]);
    // the register holds the opaque color, which no translucent pixel matches
    assert_eq!(bytes, framed("#0;1;210;8;50\n#0?$\n-\n"));
}

#[test]
fn alpha_images_ignore_shades() {
    let frame = Image { width: 1, height: 6, pixels: vec![BLUE; 6] };
    let a = plain_encoder().encode(&frame, &vec![]);
    let b = plain_encoder().encode(&frame, &vec![(1, 2, 3), (4, 5, 6)]);
    assert_eq!(a, b);
}

#[test]
fn large_ids_and_counts_are_written_in_decimal() {
    let mut pixels = Vec::new();
    for i in 0..12u8 {
        for _ in 0..6 {
            pixels.push((i, 0, 0, 255));
        }
    }
    // twelve columns of distinct colors, stored row after row
    let mut rows = Vec::new();
    for y in 0..6 {
        for x in 0..12 {
            rows.push(pixels[x * 6 + y]);
        }
    }
    let frame = Image { width: 12, height: 6, pixels: rows };
    let bytes = encode_frame(&frame.pixels, 12, 6, true, &vec![]);
    let text = String::from_utf8(bytes).unwrap();
    assert!(text.contains("#11;3;11;0;0;255"));
    assert!(text.contains("#11!11?~$\n"));
    assert_eq!(palette_of(&frame.pixels, 12, 6, true).len(), 12);
}

#[test]
fn prepare_keeps_an_image_without_size_or_colors() {
    let mut pixels = Vec::new();
    for i in 0..12u8 {
        pixels.push((i, 2 * i, 3 * i, 255));
    }
    let image = Image { width: 3, height: 4, pixels: pixels.clone() };
    let frame = plain_encoder().prepare(&image);
    assert_eq!(frame, Image { width: 3, height: 4, pixels });
}

#[test]
fn prepare_shrinks_to_the_set_size() {
    let mut builder = Settings::new();
    builder.size(2, 2);
    let encoder = Encoder::new(builder.build(None, None));
    let image = Image { width: 4, height: 4, pixels: vec![RED; 16] };
    let frame = encoder.prepare(&image);
    assert_eq!((frame.width, frame.height), (2, 2));
    assert_eq!(frame.pixels.len(), 4);
}

#[test]
fn prepare_dithers_to_the_palette_table() {
    let image = Image { width: 2, height: 2, pixels: vec![(200, 10, 10, 255); 4] };
    let frame = colored_encoder(16).prepare(&image);
    assert_eq!((frame.width, frame.height), (2, 2));
    assert_eq!(frame.pixels.len(), 4);
    // the dithered color comes from the table, not from the image
    assert_ne!(frame.pixels[0], (200, 10, 10, 255));
}

#[test]
fn prepare_quantizes_and_grays() {
    let image = Image { width: 2, height: 2, pixels: vec![(200, 10, 10, 255); 4] };
    let quantized = colored_encoder(64).prepare(&image);
    assert_eq!(quantized.pixels.len(), 4);
    let gray = colored_encoder(3).prepare(&image);
    assert_eq!(gray.pixels.len(), 4);
    let (r, g, b, _) = gray.pixels[0];
    assert!(r == g && g == b);
}

fn gradient() -> Image {
    let mut pixels = Vec::new();
    for i in 0..256u32 {
        pixels.push((i as u8, (255 - i) as u8, ((i * 7) % 256) as u8, 255));
    }
    Image { width: 16, height: 16, pixels }
}

#[test]
fn quantizing_leaves_at_most_the_asked_colors() {
    let frame = colored_encoder(64).prepare(&gradient());
    assert_eq!(frame.pixels.len(), 256);
    let mut distinct: Vec<Pixel> = Vec::new();
    for p in &frame.pixels {
        if !distinct.contains(p) {
            distinct.push(*p);
        }
    }
    assert!(distinct.len() <= 64);
}

#[test]
fn dither_without_colors_keeps_the_image() {
    let image = gradient();
    let same = plain_encoder().dither(gradient());
    assert_eq!(same, image);
}

#[test]
fn scale_without_size_keeps_the_image() {
    let image = gradient();
    assert_eq!(plain_encoder().scale(&image), image);
}

#[test]
fn scale_grows_to_the_set_size() {
    let mut builder = Settings::new();
    builder.size(32, 32);
    let encoder = Encoder::new(builder.build(None, None));
    let frame = encoder.scale(&gradient());
    assert_eq!((frame.width, frame.height), (32, 32));
    assert_eq!(frame.pixels.len(), 32 * 32);
}

#[test]
fn palette_colors_come_from_pixels_and_are_distinct() {
    let image = gradient();
    let palette = plain_encoder().palette(&image);
    // two whole bands of sixteen columns are drawn
    assert!(palette.len() <= 6 * 16 * 2);
    for (i, c) in palette.iter().enumerate() {
        assert!(image.pixels[..12 * 16].contains(c));
        assert!(!palette[..i].contains(c));
    }
    for p in &image.pixels[..12 * 16] {
        assert!(palette.contains(p));
    }
}

#[test]
fn column_bits_follow_the_lines() {
    // lines 0, 2 and 5 are red: bits 1 + 4 + 32 = 37, written as 37 + 63 = 'd'
    let mut pixels = vec![BLUE; 6];
    pixels[0] = RED;
    pixels[2] = RED;
    pixels[5] = RED;
    let frame = Image { width: 1, height: 6, pixels };
    let text = String::from_utf8(plain_encoder().encode(&frame, &vec![])).unwrap();
    assert!(text.contains("#0d$\n"));
    assert!(text.contains("#1Y$\n"));
}

#[test]
fn scale_to_the_own_size_keeps_the_size() {
    let mut builder = Settings::new();
    builder.size(16, 16);
    let encoder = Encoder::new(builder.build(None, None));
    let frame = encoder.scale(&gradient());
    assert_eq!((frame.width, frame.height), (16, 16));
}

#[test]
fn encoding_is_reproducible() {
    let encoder = colored_encoder(256);
    let frame = encoder.prepare(&gradient());
    let palette = encoder.palette(&frame);
    let shades: Vec<(u16, u8, u8)> = (0..palette.len()).map(|i| ((i % 360) as u16, 50, 50)).collect();
    let first = encoder.encode(&frame, &shades);
    let again = colored_encoder(256).encode(&colored_encoder(256).prepare(&gradient()), &shades);
    assert_eq!(first, again);
}
