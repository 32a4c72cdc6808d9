use pixelate::{ceil_div, BitDepth, Color, Error, Image};
use pixelate::raster::rasterize;

/// A sink that refuses every write, to drive the `Io` error path.
struct FailingWriter;

impl std::io::Write for FailingWriter {
    fn write(&mut self, _buf: &[u8]) -> std::io::Result<usize> {
        Err(std::io::Error::new(std::io::ErrorKind::Other, "sink closed"))
    }

    fn flush(&mut self) -> std::io::Result<()> {
        Err(std::io::Error::new(std::io::ErrorKind::Other, "sink closed"))
    }
}

#[test]
fn renders_pixelate_logo() {
    let palette = &[
        Color::Rgba(255, 255, 255, 0),
        Color::Rgb(0, 0, 0),
        Color::Rgba(0, 0, 0, 80),
    ];

    const __: u8 = 0;
    const XX: u8 = 1;

    let ss = 2;

    let pixels: &[u8] = &[
        XX,XX,XX,XX,XX,__,XX,XX,XX,__,XX,__,__,__,XX,__,XX,XX,XX,XX,XX,__,XX,__,__,__,__,__,XX,XX,XX,XX,XX,__,XX,XX,XX,XX,XX,__,XX,XX,XX,XX,XX,
        XX,ss,ss,ss,XX,__,ss,XX,ss,__,XX,__,__,__,XX,__,XX,ss,ss,ss,ss,__,XX,__,__,__,__,__,XX,ss,ss,ss,XX,__,ss,ss,XX,ss,ss,__,XX,ss,ss,ss,ss,
        XX,__,__,__,XX,__,__,XX,__,__,ss,XX,__,XX,ss,__,XX,__,__,__,__,__,XX,__,__,__,__,__,XX,__,__,__,XX,__,__,__,XX,__,__,__,XX,__,__,__,__,
        XX,XX,XX,XX,XX,__,__,XX,__,__,__,ss,XX,ss,__,__,XX,XX,XX,XX,XX,__,XX,__,__,__,__,__,XX,XX,XX,XX,XX,__,__,__,XX,__,__,__,XX,XX,XX,XX,XX,
        XX,ss,ss,ss,ss,__,__,XX,__,__,__,XX,ss,XX,__,__,XX,ss,ss,ss,ss,__,XX,__,__,__,__,__,XX,ss,ss,ss,XX,__,__,__,XX,__,__,__,XX,ss,ss,ss,ss,
        XX,__,__,__,__,__,__,XX,__,__,XX,ss,__,ss,XX,__,XX,__,__,__,__,__,XX,__,__,__,__,__,XX,__,__,__,XX,__,__,__,XX,__,__,__,XX,__,__,__,__,
        XX,__,__,__,__,__,XX,XX,XX,__,XX,__,__,__,XX,__,XX,XX,XX,XX,XX,__,XX,XX,XX,XX,XX,__,XX,__,__,__,XX,__,__,__,XX,__,__,__,XX,XX,XX,XX,XX,
        ss,__,__,__,__,__,ss,ss,ss,__,ss,__,__,__,ss,__,ss,ss,ss,ss,ss,__,ss,ss,ss,ss,ss,__,ss,__,__,__,ss,__,__,__,ss,__,__,__,ss,ss,ss,ss,ss,
    ];

    let image = Image {
        palette,
        pixels,
        width: 45,
        scale: 16,
    };

    let mut actual = Vec::new();
    image.render(&mut actual).unwrap();

    // The rendered bitstream must decode back to the same logical image:
    // indexed color, 2 bits per pixel, 720x128, the palette triples, the
    // transparency table, and the very pixels, each replicated 16 times
    // along both axes.
    let decoder = png::Decoder::new(std::io::Cursor::new(&actual[..]));
    let mut reader = decoder.read_info().unwrap();

    let info = reader.info();
    assert_eq!(info.width, 720);
    assert_eq!(info.height, 128);
    assert!(matches!(info.bit_depth, png::BitDepth::Two));
    assert!(matches!(info.color_type, png::ColorType::Indexed));
    let decoded_palette: Vec<u8> = info.palette.as_ref().unwrap().to_vec();
    assert_eq!(decoded_palette, vec![255, 255, 255, 0, 0, 0, 0, 0, 0]);
    let decoded_trns: Vec<u8> = info.trns.as_ref().unwrap().to_vec();
    assert_eq!(decoded_trns, vec![0, 255, 80]);

    let mut buf = vec![0u8; reader.output_buffer_size().unwrap()];
    let frame = reader.next_frame(&mut buf).unwrap();
    let data = &buf[..frame.buffer_size()];

    // 720 pixels at 2 bits each pack into 180 bytes per scanline.
    assert_eq!(data.len(), 180 * 128);
    for y in 0..128usize {
        for x in 0..720usize {
            let byte = data[y * 180 + x / 4];
            let shift = 6 - 2 * (x % 4);
            let index = (byte >> shift) & 3;
            let expected = pixels[(y / 16) * 45 + x / 16];
            assert_eq!(index, expected, "pixel at ({}, {})", x, y);
        }
    }

    // The decoded bitmap is the rasterizer's own output, byte for byte.
    assert_eq!(data, &rasterize(pixels, 45, 16, 2, 180)[..]);
}

#[test]
fn bit_depth_follows_palette_size() {
    let color = Color::Rgb(1, 2, 3);
    let cases: &[(usize, BitDepth)] = &[
        (0, BitDepth::One),
        (1, BitDepth::One),
        (2, BitDepth::One),
        (3, BitDepth::Two),
        (4, BitDepth::Two),
        (5, BitDepth::Four),
        (16, BitDepth::Four),
        (17, BitDepth::Eight),
        (256, BitDepth::Eight),
    ];
    for &(len, expected) in cases {
        let palette = vec![color; len];
        let image = Image {
            palette: &palette,
            pixels: &[0],
            width: 1,
            scale: 1,
        };
        assert_eq!(image.bit_depth(), expected, "palette of {} colors", len);
    }
}

#[test]
fn rasterize_output_length() {
    // 3x2 source at scale 2 and depth 1: 6 output pixels per line pack
    // into 1 byte, 4 output lines.
    let out = rasterize(&[0, 1, 0, 1, 0, 1], 3, 2, 1, 1);
    assert_eq!(out.len(), 1 * 4);

    // 45x8 source at scale 16 and depth 2: 720 pixels, 180 bytes per
    // line, 128 lines.
    let pixels = vec![0u8; 45 * 8];
    let out = rasterize(&pixels, 45, 16, 2, 180);
    assert_eq!(out.len(), 180 * 128);

    // 5x1 source at scale 1 and depth 8: one byte per pixel.
    let out = rasterize(&[0, 1, 2, 3, 4], 5, 1, 8, 5);
    assert_eq!(out.len(), 5);
}

#[test]
fn horizontal_replication_packs_pixels_in_order() {
    // Scale 1 keeps the source order: nibbles 1, 2, 3 and a zero filler.
    assert_eq!(rasterize(&[1, 2, 3], 3, 1, 4, 2), vec![0x12, 0x30]);

    // Scale 2 writes each pixel's nibble twice before the next pixel
    // (and the whole scanline twice, once per output row).
    assert_eq!(rasterize(&[1, 2], 2, 2, 4, 2), vec![0x11, 0x22, 0x11, 0x22]);

    // At depth 1 the bits replicate the same way: [0, 1] at scale 3
    // expands to 000111 and packs MSB-first into one byte.
    assert_eq!(rasterize(&[0, 1], 2, 3, 1, 1), vec![0b0001_1100; 3]);
}

#[test]
fn vertical_replication_repeats_scanlines() {
    // Two source rows at scale 2: each packed row appears twice in a row.
    let out = rasterize(&[0, 1], 1, 2, 1, 1);
    assert_eq!(out, vec![0b0000_0000, 0b0000_0000, 0b1100_0000, 0b1100_0000]);

    // Scale 3, depth 4, two rows of one pixel each.
    let out = rasterize(&[5, 9], 1, 3, 4, 2);
    assert_eq!(out, vec![0x55, 0x50, 0x55, 0x50, 0x55, 0x50, 0x99, 0x90, 0x99, 0x90, 0x99, 0x90]);
}

#[test]
fn two_pixels_pack_into_one_byte() {
    // A 2-pixel row with a 2-color palette at scale 1: one scanline of
    // one byte, pixel 0 in bit 7 and pixel 1 in bit 6, the rest zero.
    let out = rasterize(&[0, 1], 2, 1, 1, 1);
    assert_eq!(out, vec![0b0100_0000]);
    assert_eq!(out, vec![64]);
}

#[test]
fn one_color_palette_is_too_small() {
    let image = Image {
        palette: &[Color::Rgb(0, 0, 0)],
        pixels: &[0],
        width: 1,
        scale: 1,
    };
    let mut out = Vec::new();
    assert_eq!(image.render(&mut out), Err(Error::PaletteTooSmall));

    let empty = Image {
        palette: &[],
        pixels: &[0, 0],
        width: 2,
        scale: 7,
    };
    assert_eq!(empty.render(&mut out), Err(Error::PaletteTooSmall));
}

#[test]
fn palette_of_257_colors_is_too_big() {
    let palette = vec![Color::Rgb(9, 9, 9); 257];
    let image = Image {
        palette: &palette,
        pixels: &[0],
        width: 1,
        scale: 1,
    };
    let mut out = Vec::new();
    assert_eq!(image.render(&mut out), Err(Error::PaletteTooBig));
}

#[test]
fn transparency_table_carries_alpha() {
    let image = Image {
        palette: &[Color::Rgb(0, 0, 0), Color::Rgba(255, 0, 0, 128)],
        pixels: &[0, 1],
        width: 2,
        scale: 1,
    };
    assert_eq!(image.transparency(), Some(vec![255, 128]));

    let opaque = Image {
        palette: &[Color::Rgb(0, 0, 0), Color::Rgb(255, 0, 0)],
        pixels: &[0, 1],
        width: 2,
        scale: 1,
    };
    assert_eq!(opaque.transparency(), None);
}

#[test]
fn no_transparency_chunk_without_alpha() {
    let image = Image {
        palette: &[Color::Rgb(0, 0, 0), Color::Rgb(255, 0, 0)],
        pixels: &[0, 1],
        width: 2,
        scale: 1,
    };
    let mut bytes = Vec::new();
    image.render(&mut bytes).unwrap();
    let reader = png::Decoder::new(std::io::Cursor::new(&bytes[..])).read_info().unwrap();
    assert!(reader.info().trns.is_none());
}

#[test]
fn rgb_entries_before_an_alpha_entry_read_opaque() {
    // Every entry before and after the last RGBA color still gets its
    // value: 255 for RGB entries, the literal alpha for RGBA ones.
    let image = Image {
        palette: &[
            Color::Rgb(1, 2, 3),
            Color::Rgba(0, 0, 0, 7),
            Color::Rgb(4, 5, 6),
        ],
        pixels: &[0, 1, 2],
        width: 3,
        scale: 1,
    };
    assert_eq!(image.transparency(), Some(vec![255, 7, 255]));
}

#[test]
fn palette_data_serializes_rgb_triples() {
    let image = Image {
        palette: &[Color::Rgb(1, 2, 3), Color::Rgba(4, 5, 6, 7), Color::Rgb(8, 9, 10)],
        pixels: &[0],
        width: 1,
        scale: 1,
    };
    assert_eq!(image.palette_data(), vec![1, 2, 3, 4, 5, 6, 8, 9, 10]);
}

#[test]
fn dimensions_scale_both_axes() {
    let pixels = vec![0u8; 45 * 8];
    let image = Image {
        palette: &[Color::Rgb(0, 0, 0), Color::Rgb(1, 1, 1)],
        pixels: &pixels,
        width: 45,
        scale: 16,
    };
    assert_eq!(image.dimensions(), (720, 128));
}

#[test]
fn ceil_div_rounds_up() {
    assert_eq!(ceil_div(0, 8), 0);
    assert_eq!(ceil_div(1, 8), 1);
    assert_eq!(ceil_div(8, 8), 1);
    assert_eq!(ceil_div(9, 8), 2);
    assert_eq!(ceil_div(720, 4), 180);
}

#[test]
fn failing_writer_reports_io_error() {
    let image = Image {
        palette: &[Color::Rgb(0, 0, 0), Color::Rgb(255, 255, 255)],
        pixels: &[0, 1],
        width: 2,
        scale: 1,
    };
    assert_eq!(image.render(FailingWriter), Err(Error::Io));
}

#[test]
fn every_depth_round_trips_through_the_encoder() {
    // Palettes of 2, 4, 16 and 256 colors drive all four bit depths; a
    // 3x2 source at scale 2 decodes back pixel for pixel at each.
    for &(palette_len, depth_bits) in &[(2usize, 1usize), (4, 2), (16, 4), (256, 8)] {
        let palette: Vec<Color> = (0..palette_len).map(|i| Color::Rgb(i as u8, 0, 0)).collect();
        let top = (palette_len - 1) as u8;
        let pixels: &[u8] = &[0, 1, top, top, 1, 0];
        let image = Image {
            palette: &palette,
            pixels,
            width: 3,
            scale: 2,
        };
        let mut bytes = Vec::new();
        image.render(&mut bytes).unwrap();

        let mut reader = png::Decoder::new(std::io::Cursor::new(&bytes[..])).read_info().unwrap();
        assert_eq!(reader.info().width, 6);
        assert_eq!(reader.info().height, 4);
        let mut buf = vec![0u8; reader.output_buffer_size().unwrap()];
        let frame = reader.next_frame(&mut buf).unwrap();
        let data = &buf[..frame.buffer_size()];

        let pixels_per_byte = 8 / depth_bits;
        let bytes_per_line = (6 + pixels_per_byte - 1) / pixels_per_byte;
        assert_eq!(data.len(), bytes_per_line * 4);
        let mask = if depth_bits == 8 { 0xFF } else { (1u8 << depth_bits) - 1 };
        for y in 0..4usize {
            for x in 0..6usize {
                let byte = data[y * bytes_per_line + x / pixels_per_byte];
                let within = x % pixels_per_byte;
                let shift = 8 - depth_bits * (within + 1);
                let index = (byte >> shift) & mask;
                let expected = pixels[(y / 2) * 3 + x / 2];
                assert_eq!(index, expected, "depth {}, pixel ({}, {})", depth_bits, x, y);
            }
        }
    }
}

#[test]
fn zero_height_image_is_rejected_by_the_encoder() {
    let image = Image {
        palette: &[Color::Rgb(0, 0, 0), Color::Rgb(255, 255, 255)],
        pixels: &[],
        width: 1,
        scale: 1,
    };
    let mut out = Vec::new();
    assert_eq!(image.render(&mut out), Err(Error::PngEncoding));
}
