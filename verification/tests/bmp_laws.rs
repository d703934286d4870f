use fovea_io::bmp::decode::{build_metadata, determine_color_space};
use fovea_io::bmp::encode::{
    can_encode, can_encode_bmp_image, can_encode_indexed, check_image, check_palette,
};
use fovea_io::bmp::header::{
    parse_dib_header, parse_file_header, resolve_dimensions, BmpDibHeader, LCS_PROFILE_EMBEDDED,
    LCS_SRGB, LCS_WINDOWS_COLOR_SPACE,
};
use fovea_io::bmp::le::{
    read_i32_le, read_u16_le, read_u32_le, write_i32_le, write_u16_le, write_u32_le,
};
use fovea_io::bmp::masks::{
    extract_channel, mask_info, resolve_masks_with_data, BitfieldMasks, MaskInfo,
};
use fovea_io::bmp::palette::parse_image_palette;
use fovea_io::bmp::pixels::row_stride;
use fovea_io::bmp::rle::{decompress, decompress_rle4, decompress_rle8, RleFault, RleFormat};
use fovea_io::bmp::{
    decode, decode_reader, encode, encode_bmp_image, encode_indexed, BmpBitDepth, BmpColorSpace,
    BmpCompression, BmpEncodeOptions, BmpHeaderVersion, BmpImage, BmpPixel, BmpResolution,
};
use fovea_io::image::Image;
use fovea_io::pixel::{Indexed8, Srgb8, Srgba8};
use fovea_io::{detect_format, load, DecodeSource, DecodedImage, EncodeSource, ImageFormat, IoError};

/// A file with a `BITMAPINFOHEADER` and whatever follows it.
fn info_file(
    width: i32,
    height: i32,
    bit_count: u16,
    compression: u32,
    colors_used: u32,
    pixel_offset: u32,
    rest: &[u8],
) -> Vec<u8> {
    let mut out = vec![0u8; 54];
    out[0] = 0x42;
    out[1] = 0x4D;
    write_u32_le(&mut out, 10, pixel_offset);
    write_u32_le(&mut out, 14, 40);
    write_i32_le(&mut out, 18, width);
    write_i32_le(&mut out, 22, height);
    write_u16_le(&mut out, 26, 1);
    write_u16_le(&mut out, 28, bit_count);
    write_u32_le(&mut out, 30, compression);
    write_u32_le(&mut out, 46, colors_used);
    out.extend_from_slice(rest);
    out
}

/// A file with a `BITMAPV5HEADER` and whatever follows it.
fn v5_file(
    width: i32,
    height: i32,
    masks: [u32; 4],
    cs_type: u32,
    profile: (u32, u32),
    rest: &[u8],
) -> Vec<u8> {
    let mut out = vec![0u8; 138];
    out[0] = 0x42;
    out[1] = 0x4D;
    write_u32_le(&mut out, 10, 138);
    write_u32_le(&mut out, 14, 124);
    write_i32_le(&mut out, 18, width);
    write_i32_le(&mut out, 22, height);
    write_u16_le(&mut out, 26, 1);
    write_u16_le(&mut out, 28, 32);
    write_u32_le(&mut out, 30, 3);
    for (i, mask) in masks.iter().enumerate() {
        write_u32_le(&mut out, 54 + 4 * i, *mask);
    }
    write_u32_le(&mut out, 70, cs_type);
    write_u32_le(&mut out, 126, profile.0);
    write_u32_le(&mut out, 130, profile.1);
    out.extend_from_slice(rest);
    out
}

fn message(r: Result<fovea_io::bmp::BmpDecoded, IoError>) -> String {
    match r {
        Ok(_) => "decoded".to_string(),
        Err(IoError::InvalidFormat { reason }) => format!("invalid: {reason}"),
        Err(IoError::UnsupportedFeature { reason }) => format!("unsupported: {reason}"),
        Err(IoError::DecodeFailed {
            source: DecodeSource::Message(msg),
        }) => format!("failed: {msg}"),
        Err(e) => format!("{e:?}"),
    }
}

fn rgb(image: &BmpImage) -> &Image<Srgb8> {
    match image {
        BmpImage::Srgb8(img) => img,
        other => panic!("expected Srgb8, got {}", other.describe()),
    }
}

// ── Numbers ─────────────────────────────────────────────────────────

#[test]
fn numbers_read_back_as_written() {
    let mut buf = [0xAAu8; 8];
    write_u16_le(&mut buf, 1, 0xBEEF);
    assert_eq!(read_u16_le(&buf, 1), Some(0xBEEF));
    assert_eq!(buf, [0xAA, 0xEF, 0xBE, 0xAA, 0xAA, 0xAA, 0xAA, 0xAA]);
    write_u32_le(&mut buf, 3, 0x0123_4567);
    assert_eq!(read_u32_le(&buf, 3), Some(0x0123_4567));
    write_i32_le(&mut buf, 4, -2);
    assert_eq!(read_i32_le(&buf, 4), Some(-2));
    assert_eq!(read_u32_le(&buf, 4), Some(0xFFFF_FFFE));
}

#[test]
fn numbers_written_back_change_nothing() {
    let bytes = [9u8, 8, 7, 6, 5];
    let mut copy = bytes;
    write_u16_le(&mut copy, 2, read_u16_le(&bytes, 2).unwrap());
    assert_eq!(copy, bytes);
    write_u32_le(&mut copy, 1, read_u32_le(&bytes, 1).unwrap());
    assert_eq!(copy, bytes);
}

#[test]
fn numbers_beyond_the_end_are_absent() {
    let bytes = [1u8, 2, 3];
    assert_eq!(read_u16_le(&bytes, 2), None);
    assert_eq!(read_u32_le(&bytes, 0), None);
    assert_eq!(read_i32_le(&bytes, usize::MAX), None);
    assert_eq!(read_u16_le(&bytes, usize::MAX), None);
}

// ── Headers ─────────────────────────────────────────────────────────

#[test]
fn dimensions_of_every_sign() {
    assert!(matches!(resolve_dimensions(3, 4), Ok((3, 4, false))));
    assert!(matches!(resolve_dimensions(3, -4), Ok((3, 4, true))));
    assert!(matches!(
        resolve_dimensions(1, i32::MIN),
        Ok((1, 0x8000_0000, true))
    ));
    assert!(matches!(
        resolve_dimensions(0, 4),
        Err(IoError::InvalidFormat {
            reason: "BMP width must be positive"
        })
    ));
    assert!(matches!(
        resolve_dimensions(-1, 4),
        Err(IoError::InvalidFormat {
            reason: "BMP width must be positive"
        })
    ));
    assert!(matches!(
        resolve_dimensions(3, 0),
        Err(IoError::InvalidFormat {
            reason: "BMP height must be non-zero"
        })
    ));
}

#[test]
fn every_header_that_parses_is_valid() {
    for bits in 0u16..40 {
        let file = info_file(2, 2, bits, 0, 0, 54, &[0; 64]);
        let parsed = parse_dib_header(&file);
        let allowed = [1, 4, 8, 16, 24, 32].contains(&bits);
        assert_eq!(parsed.is_ok(), allowed, "{bits} bits");
        if let Ok(dib) = parsed {
            assert_eq!(dib.header_size, 40);
            assert_eq!(dib.color_table_entry_size, 4);
            assert!(dib.v4_masks.is_none());
            assert_eq!((dib.width, dib.height), (2, 2));
        }
    }
}

#[test]
fn file_header_gives_the_pixel_offset() {
    let file = info_file(1, 1, 24, 0, 0, 0x0102_0304, &[]);
    assert_eq!(
        parse_file_header(&file).unwrap().pixel_data_offset,
        0x0102_0304
    );
}

// ── Compression tags ────────────────────────────────────────────────

#[test]
fn compression_errors_by_tag() {
    let tag = |compression: u32, bits: u16| {
        message(decode(&info_file(1, 1, bits, compression, 0, 54, &[0; 2048])))
    };
    assert_eq!(tag(4, 24), "unsupported: BI_JPEG compression is not supported");
    assert_eq!(tag(5, 24), "unsupported: BI_PNG compression is not supported");
    assert_eq!(tag(6, 24), "unsupported: unknown BMP compression type");
    assert_eq!(tag(u32::MAX, 24), "unsupported: unknown BMP compression type");
    assert_eq!(tag(1, 4), "invalid: BI_RLE8 compression requires 8-bit indexed");
    assert_eq!(tag(2, 8), "invalid: BI_RLE4 compression requires 4-bit indexed");
    assert_eq!(tag(0, 24), "decoded");
    assert_eq!(tag(3, 24), "decoded");
}

#[test]
fn errors_of_pixel_data() {
    assert_eq!(
        message(decode(&info_file(1, 1, 24, 0, 0, 54, &[1, 2]))),
        "failed: BMP 24-bit pixel data truncated"
    );
    assert_eq!(
        message(decode(&info_file(1, 1, 16, 0, 0, 54, &[1]))),
        "failed: BMP 16-bit pixel data truncated"
    );
    assert_eq!(
        message(decode(&info_file(1, 1, 32, 0, 0, 54, &[1, 2, 3]))),
        "failed: BMP 32-bit pixel data truncated"
    );
    assert_eq!(
        message(decode(&info_file(1, 1, 8, 0, 1, 58, &[0; 4]))),
        "failed: BMP pixel data truncated"
    );
    assert_eq!(
        message(decode(&info_file(1, 1, 8, 0, 2, 62, &[0; 7]))),
        "invalid: BMP file too short for color table"
    );
    assert_eq!(
        message(decode(&info_file(1, 1, 16, 3, 0, 54, &[0; 11]))),
        "invalid: BMP file too short for bitfield masks"
    );
    assert_eq!(
        message(decode(&info_file(1, 1, 8, 1, 1, 1000, &[0; 4]))),
        "invalid: BMP pixel data offset beyond file"
    );
}

#[test]
fn a_stream_that_cannot_be_read_is_an_io_error() {
    let e = std::io::Error::new(std::io::ErrorKind::TimedOut, "slow");
    match decode_reader(Err(e)) {
        Err(IoError::Io(e)) => assert_eq!(e.kind(), std::io::ErrorKind::TimedOut),
        _ => panic!("expected an I/O error"),
    }
}

// ── Rows ────────────────────────────────────────────────────────────

#[test]
fn row_stride_is_tight() {
    for width in 0u32..70 {
        for bits in [1u32, 4, 8, 16, 24, 32] {
            let packed = (width * bits).div_ceil(8) as usize;
            let stride = row_stride(width, bits);
            assert_eq!(stride % 4, 0);
            assert!(packed <= stride && stride < packed + 4);
        }
    }
}

#[test]
fn top_down_is_bottom_up_upside_down() {
    let rows = [
        1u8, 2, 3, 4, 5, 6, 0, 0, 7, 8, 9, 10, 11, 12, 0, 0, 13, 14, 15, 16, 17, 18, 0, 0,
    ];
    let up = decode(&info_file(2, 3, 24, 0, 0, 54, &rows)).unwrap().image;
    let down = decode(&info_file(2, -3, 24, 0, 0, 54, &rows)).unwrap().image;
    for y in 0..3 {
        for x in 0..2 {
            assert!(rgb(&up).pixel_at(x, y) == rgb(&down).pixel_at(x, 2 - y));
        }
    }
    assert!(rgb(&down).pixel_at(0, 0) == Srgb8::new(3, 2, 1));
}

#[test]
fn padding_is_not_looked_at() {
    let a = decode(&info_file(1, 2, 24, 0, 0, 54, &[1, 2, 3, 0, 4, 5, 6, 0])).unwrap();
    let b = decode(&info_file(1, 2, 24, 0, 0, 54, &[1, 2, 3, 99, 4, 5, 6])).unwrap();
    assert!(rgb(&a.image) == rgb(&b.image));
}

// ── Masks ───────────────────────────────────────────────────────────

#[test]
fn scaling_reaches_both_ends_in_order() {
    for bits in 1u32..=16 {
        let mask = ((1u64 << bits) - 1) as u32;
        let info = mask_info(mask);
        assert_eq!((info.shift, info.bits as u32), (0, bits));
        assert_eq!(extract_channel(0, info), 0);
        assert_eq!(extract_channel(mask, info), 255);
        let mut last = 0;
        for value in 0..=mask {
            let scaled = extract_channel(value, info);
            assert!(last <= scaled);
            last = scaled;
        }
    }
    assert_eq!(extract_channel(u32::MAX, mask_info(u32::MAX)), 255);
    assert_eq!(extract_channel(0x1234_5678, mask_info(u32::MAX)), 0x12);
    let nothing = MaskInfo { shift: 40, bits: 0 };
    assert_eq!(extract_channel(u32::MAX, nothing), 0);
}

#[test]
fn a_mask_with_gaps_counts_up_to_the_gap() {
    let info = mask_info(0b1011_0000);
    assert_eq!((info.shift, info.bits), (4, 2));
    // Two bits: 0, 85, 170, 255.
    assert_eq!(extract_channel(0b0010_0000, info), 170);
}

#[test]
fn five_bit_scaling_rounds_to_nearest() {
    let info = mask_info(0x1F);
    assert_eq!(extract_channel(1, info), 8);
    assert_eq!(extract_channel(15, info), 123);
    assert_eq!(extract_channel(16, info), 132);
}

#[test]
fn effective_masks_by_header() {
    let dib = parse_dib_header(&info_file(1, 1, 16, 0, 0, 54, &[])).unwrap();
    let m = resolve_masks_with_data(&dib, 16, &[]).unwrap();
    assert_eq!((m.r, m.g, m.b, m.a), (0x7C00, 0x03E0, 0x001F, 0));
    let m = resolve_masks_with_data(&dib, 32, &[]).unwrap();
    assert_eq!((m.r, m.g, m.b, m.a), (0xFF_0000, 0xFF00, 0xFF, 0));
    let file = v5_file(1, 1, [1, 2, 4, 8], 0, (0, 0), &[0; 4]);
    let dib = parse_dib_header(&file).unwrap();
    let m = resolve_masks_with_data(&dib, 32, &file).unwrap();
    assert_eq!((m.r, m.g, m.b, m.a), (1, 2, 4, 8));
    // Masks of the header count whatever the bit count.
    let m = resolve_masks_with_data(&dib, 24, &file).unwrap();
    assert_eq!((m.r, m.g, m.b, m.a), (1, 2, 4, 8));
    let d = BitfieldMasks::default_32bit();
    assert_eq!((d.r, d.g, d.b, d.a), (0xFF_0000, 0xFF00, 0xFF, 0));
}

#[test]
fn the_alpha_mask_decides_the_pixel_type() {
    let with = v5_file(
        1,
        1,
        [0xFF_0000, 0xFF00, 0xFF, 0xFF00_0000],
        LCS_SRGB,
        (0, 0),
        &[1, 2, 3, 4],
    );
    match decode(&with).unwrap().image {
        BmpImage::Srgba8(img) => assert!(img.pixel_at(0, 0) == Srgba8::new(3, 2, 1, 4)),
        other => panic!("expected Srgba8, got {}", other.describe()),
    }
    let without = v5_file(1, 1, [0xFF_0000, 0xFF00, 0xFF, 0], LCS_SRGB, (0, 0), &[1, 2, 3, 4]);
    let decoded = decode(&without).unwrap();
    assert!(rgb(&decoded.image).pixel_at(0, 0) == Srgb8::new(3, 2, 1));
    assert_eq!(decoded.metadata.source_bit_depth, BmpBitDepth::ThirtyTwo);
    assert_eq!(decoded.metadata.compression, BmpCompression::Bitfields);
}

// ── Palettes and indices ────────────────────────────────────────────

#[test]
fn what_follows_three_masks_is_no_mask() {
    let masks = [0, 0, 0xFF, 0, 0, 0xFF, 0, 0, 0xFF, 0, 0, 0];
    let word = [0x11, 0x22, 0x33, 0x44];
    let mut rest = masks.to_vec();
    rest.extend_from_slice(&word);
    let decoded = decode(&info_file(1, 1, 32, 3, 0, 66, &rest)).unwrap();
    assert!(rgb(&decoded.image).pixel_at(0, 0) == Srgb8::new(0x33, 0x22, 0x11));

    // A fourth mask fits before the pixels.
    let mut rest = masks.to_vec();
    rest.extend_from_slice(&[0, 0, 0, 0xFF]);
    rest.extend_from_slice(&word);
    let decoded = decode(&info_file(1, 1, 32, 3, 0, 70, &rest)).unwrap();
    match &decoded.image {
        BmpImage::Srgba8(image) => {
            assert!(image.pixel_at(0, 0) == Srgba8::new(0x33, 0x22, 0x11, 0x44))
        }
        other => panic!("expected alpha, got {}", other.describe()),
    }
}

#[test]
fn a_file_with_three_masks_byte_for_byte() {
    let file = [
        0x42, 0x4D, 0x46, 0, 0, 0, 0, 0, 0, 0, 0x42, 0, 0, 0, 0x28, 0, 0, 0, 1, 0, 0, 0, 1, 0, 0,
        0, 1, 0, 0x20, 0, 3, 0, 0, 0, 4, 0, 0, 0, 0, 0, 0, 0, 0, 0, 0, 0, 0, 0, 0, 0, 0, 0, 0, 0,
        0, 0, 0xFF, 0, 0, 0xFF, 0, 0, 0xFF, 0, 0, 0, 0x11, 0x22, 0x33, 0,
    ];
    assert_eq!(file.len(), 70);
    let decoded = decode(&file).unwrap();
    assert!(rgb(&decoded.image).pixel_at(0, 0) == Srgb8::new(0x33, 0x22, 0x11));
}

#[test]
fn the_direction_of_rows_does_not_matter() {
    for (bits, table) in [(1u16, 8u32), (4, 64), (8, 1024), (16, 0), (24, 0), (32, 0)] {
        let (width, height) = (5i32, 3i32);
        let stride = row_stride(width as u32, bits as u32);
        let mut before = Vec::new();
        for i in 0..table {
            before.push((7 * i) as u8);
        }
        let mut rows = Vec::new();
        for i in 0..stride * height as usize {
            rows.push((31 * i + 5) as u8);
        }
        let mut reversed = Vec::new();
        for row in rows.chunks(stride).rev() {
            reversed.extend_from_slice(row);
        }
        let offset = 54 + table;
        let up = info_file(width, height, bits, 0, 0, offset, &[before.clone(), rows].concat());
        let down = info_file(width, -height, bits, 0, 0, offset, &[before, reversed].concat());
        let a = decode(&up).unwrap();
        let b = decode(&down).unwrap();
        let same = match (&a.image, &b.image) {
            (
                BmpImage::Indexed8 { data: x, palette: p },
                BmpImage::Indexed8 { data: y, palette: q },
            ) => x == y && p == q,
            (BmpImage::Srgb8(x), BmpImage::Srgb8(y)) => x == y,
            _ => false,
        };
        assert!(same, "{bits} bits");
        assert_eq!(format!("{:?}", a.metadata), format!("{:?}", b.metadata));
    }
}

#[test]
fn fourth_bytes_do_not_count() {
    let a = info_file(2, 1, 32, 0, 0, 54, &[1, 2, 3, 4, 5, 6, 7, 8]);
    let b = info_file(2, 1, 32, 0, 0, 54, &[1, 2, 3, 250, 5, 6, 7, 0]);
    let a = decode(&a).unwrap();
    let b = decode(&b).unwrap();
    assert!(rgb(&a.image) == rgb(&b.image));
    assert!(rgb(&a.image).pixel_at(0, 0) == Srgb8::new(3, 2, 1));
    assert!(rgb(&a.image).pixel_at(1, 0) == Srgb8::new(7, 6, 5));
}

#[test]
fn palettes_are_opaque_and_complete() {
    let file = info_file(1, 1, 8, 0, 2, 62, &[1, 2, 3, 77, 4, 5, 6, 88, 0]);
    let dib = parse_dib_header(&file).unwrap();
    let palette = parse_image_palette(&dib, &file).unwrap();
    assert!(palette[0] == Srgba8::new(3, 2, 1, 255));
    assert!(palette[1] == Srgba8::new(6, 5, 4, 255));
    for entry in palette.iter().skip(2) {
        assert!(*entry == Srgba8::new(0, 0, 0, 255));
    }
}

#[test]
fn narrow_indices_stay_narrow() {
    let mut rest = vec![0u8; 8];
    rest.extend_from_slice(&[0b1010_0101, 0, 0, 0]);
    match decode(&info_file(8, 1, 1, 0, 0, 62, &rest)).unwrap().image {
        BmpImage::Indexed8 { data, .. } => {
            let found: Vec<u8> = data.as_slice().iter().map(|p| p.0).collect();
            assert_eq!(found, [1, 0, 1, 0, 0, 1, 0, 1]);
        }
        other => panic!("expected indices, got {}", other.describe()),
    }
    let mut rest = vec![0u8; 64];
    rest.extend_from_slice(&[0xF1, 0x2E, 0, 0]);
    match decode(&info_file(4, 1, 4, 0, 0, 118, &rest)).unwrap().image {
        BmpImage::Indexed8 { data, .. } => {
            let found: Vec<u8> = data.as_slice().iter().map(|p| p.0).collect();
            assert_eq!(found, [15, 1, 2, 14]);
        }
        other => panic!("expected indices, got {}", other.describe()),
    }
    let all = decompress_rle4(&[4, 0xFE, 0, 3, 0x1D, 0xC0, 0, 1], 7, 1).unwrap();
    assert_eq!(all, [15, 14, 15, 14, 1, 13, 12]);
}

// ── Run-length encoding ─────────────────────────────────────────────

#[test]
fn run_length_output_always_fills_the_image() {
    for stream in [&[][..], &[0, 1][..], &[3, 9][..], &[0, 0, 1, 5, 0, 1][..]] {
        assert_eq!(decompress_rle8(stream, 4, 3).unwrap().len(), 12);
        assert_eq!(decompress_rle4(stream, 4, 3).unwrap().len(), 12);
    }
}

#[test]
fn run_length_faults_are_told_apart() {
    let fault = |data: &[u8]| decompress(RleFormat::Rle8, data, 2, 1).err();
    assert_eq!(fault(&[0, 0, 1, 5]), Some(RleFault::OutOfBounds));
    assert_eq!(fault(&[0, 2, 1]), Some(RleFault::DeltaTruncated));
    assert_eq!(fault(&[0, 3, 1, 2]), Some(RleFault::LiteralTruncated));
    assert_eq!(fault(&[0, 0, 0, 3, 1]), Some(RleFault::OutOfBounds));
    assert_eq!(fault(&[0, 0, 0, 3]), Some(RleFault::LiteralTruncated));
    assert_eq!(fault(&[1, 5, 0, 1, 99]), None);
    assert_eq!(fault(&[7]), None);
}

#[test]
fn nothing_behind_the_end_of_a_bitmap_matters() {
    let stream = [2u8, 0x5A, 0, 3, 0x12, 0x34, 0x56, 0, 0, 1];
    let mut longer = stream.to_vec();
    longer.extend_from_slice(&[9, 9, 0, 2, 0, 9]);
    assert_eq!(
        decompress_rle8(&longer, 6, 1).unwrap(),
        decompress_rle8(&stream, 6, 1).unwrap()
    );
    let stream = [2u8, 0x5A, 0, 4, 0x12, 0x34, 0, 1];
    let mut longer = stream.to_vec();
    longer.extend_from_slice(&[0, 2]);
    assert_eq!(
        decompress_rle4(&longer, 6, 1).unwrap(),
        [5, 10, 1, 2, 3, 4]
    );
}

#[test]
fn the_end_of_a_bitmap_may_be_left_out() {
    // A run, an end of line, a literal run of three with its pad byte, a move.
    let eight = [2u8, 9, 0, 0, 0, 3, 4, 5, 6, 0, 0, 2, 1, 0];
    let four = [3u8, 0x12, 0, 0, 0, 3, 0x45, 0x60, 0, 2, 0, 0];
    for tail in [&[][..], &[7, 7][..], &[0, 2, 9][..]] {
        let mut ended = eight.to_vec();
        ended.extend_from_slice(&[0, 1]);
        ended.extend_from_slice(tail);
        assert_eq!(
            decompress_rle8(&ended, 4, 3).unwrap(),
            decompress_rle8(&eight, 4, 3).unwrap()
        );
        let mut ended = four.to_vec();
        ended.extend_from_slice(&[0, 1]);
        ended.extend_from_slice(tail);
        assert_eq!(
            decompress_rle4(&ended, 4, 3).unwrap(),
            decompress_rle4(&four, 4, 3).unwrap()
        );
    }
    assert_eq!(
        decompress_rle8(&eight, 4, 3).unwrap(),
        [9, 9, 0, 0, 4, 5, 6, 0, 0, 0, 0, 0]
    );
    assert_eq!(
        decompress_rle4(&four, 4, 3).unwrap(),
        [1, 2, 1, 0, 4, 5, 6, 0, 0, 0, 0, 0]
    );
}

#[test]
fn runs_beyond_the_row_are_cut_off() {
    assert_eq!(decompress_rle8(&[5, 7, 0, 1], 3, 2).unwrap(), [7, 7, 7, 0, 0, 0]);
    assert_eq!(
        decompress_rle8(&[0, 2, 2, 1, 4, 9, 0, 1], 3, 2).unwrap(),
        [0, 0, 0, 0, 0, 9]
    );
}

// ── Metadata ────────────────────────────────────────────────────────

#[test]
fn a_profile_is_announced_and_lies_in_the_file() {
    let pixel = [1u8, 2, 3, 4];
    let mut rest = pixel.to_vec();
    rest.extend_from_slice(b"PROFILE");
    let masks = [0xFF_0000, 0xFF00, 0xFF, 0];
    // 142 bytes in, counted from the DIB header.
    let file = v5_file(1, 1, masks, LCS_PROFILE_EMBEDDED, (128, 7), &rest);
    let m = decode(&file).unwrap().metadata;
    assert_eq!(m.color_space, BmpColorSpace::IccTagged);
    assert_eq!(m.header_version, BmpHeaderVersion::V5);
    assert_eq!(m.icc_profile.as_deref(), Some(&b"PROFILE"[..]));
    // One byte too long for the file.
    let file = v5_file(1, 1, masks, LCS_PROFILE_EMBEDDED, (128, 8), &rest);
    let m = decode(&file).unwrap().metadata;
    assert_eq!(m.color_space, BmpColorSpace::IccTagged);
    assert_eq!(m.icc_profile, None);
    // Not announced.
    let file = v5_file(1, 1, masks, LCS_WINDOWS_COLOR_SPACE, (128, 7), &rest);
    let m = decode(&file).unwrap().metadata;
    assert_eq!(m.color_space, BmpColorSpace::Srgb);
    assert_eq!(m.icc_profile, None);
}

#[test]
fn the_oldest_header_says_little() {
    let mut file = vec![0u8; 26];
    file[0] = 0x42;
    file[1] = 0x4D;
    write_u32_le(&mut file, 10, 26);
    write_u32_le(&mut file, 14, 12);
    write_u16_le(&mut file, 18, 1);
    write_u16_le(&mut file, 20, 1);
    write_u16_le(&mut file, 22, 1);
    write_u16_le(&mut file, 24, 24);
    file.extend_from_slice(&[7, 8, 9]);
    let decoded = decode(&file).unwrap();
    assert!(rgb(&decoded.image).pixel_at(0, 0) == Srgb8::new(9, 8, 7));
    let m = decoded.metadata;
    assert_eq!(m.header_version, BmpHeaderVersion::Core);
    assert_eq!(m.color_space, BmpColorSpace::Srgb);
    assert_eq!(m.resolution, None);
    assert_eq!(m.compression, BmpCompression::Uncompressed);
}

#[test]
fn metadata_of_a_header_alone() {
    let dib = BmpDibHeader {
        width: 1,
        height: 1,
        top_down: false,
        bit_count: 16,
        compression: 3,
        header_version: BmpHeaderVersion::V4,
        x_pels_per_meter: 0,
        y_pels_per_meter: 5,
        colors_used: 0,
        cs_type: LCS_PROFILE_EMBEDDED,
        header_size: 108,
        v4_masks: None,
        icc_profile: None,
        color_table_entry_size: 4,
    };
    assert_eq!(determine_color_space(&dib), BmpColorSpace::Srgb);
    let v5 = BmpDibHeader {
        header_version: BmpHeaderVersion::V5,
        header_size: 124,
        ..dib
    };
    assert_eq!(determine_color_space(&v5), BmpColorSpace::IccTagged);
    let plain = BmpDibHeader {
        cs_type: LCS_SRGB,
        ..v5
    };
    assert_eq!(determine_color_space(&plain), BmpColorSpace::Srgb);
    let m = build_metadata(&dib, &[]);
    assert_eq!(m.color_space, BmpColorSpace::Srgb);
    assert_eq!(m.source_bit_depth, BmpBitDepth::Sixteen);
    assert_eq!(m.compression, BmpCompression::Bitfields);
    assert_eq!(
        m.resolution,
        Some(BmpResolution {
            x_pixels_per_meter: 0,
            y_pixels_per_meter: 5
        })
    );
    assert_eq!(m.icc_profile, None);
}

// ── Encoding ────────────────────────────────────────────────────────

#[test]
fn one_pixel_file_byte_for_byte() {
    let image = Image::fill(1, 1, Srgb8::new(10, 20, 30));
    let options = BmpEncodeOptions {
        resolution: Some(BmpResolution {
            x_pixels_per_meter: 2835,
            y_pixels_per_meter: 1,
        }),
    };
    let expected: [u8; 58] = [
        0x42, 0x4D, 58, 0, 0, 0, 0, 0, 0, 0, 54, 0, 0, 0, // file header
        40, 0, 0, 0, 1, 0, 0, 0, 1, 0, 0, 0, 1, 0, 24, 0, // size to bit count
        0, 0, 0, 0, 4, 0, 0, 0, 0x13, 0x0B, 0, 0, 1, 0, 0, 0, // compression to resolution
        0, 0, 0, 0, 0, 0, 0, 0, // colours
        30, 20, 10, 0, // one padded row
    ];
    assert_eq!(encode(&image, &options).unwrap(), expected);
}

#[test]
fn alpha_file_byte_for_byte() {
    let image = Image::fill(1, 1, Srgba8::new(10, 20, 30, 40));
    let file = encode(&image, &BmpEncodeOptions::default()).unwrap();
    assert_eq!(file.len(), 74);
    assert_eq!(read_u16_le(&file, 28), Some(32));
    assert_eq!(read_u32_le(&file, 30), Some(3));
    assert_eq!(read_u32_le(&file, 54), Some(0x00FF_0000));
    assert_eq!(read_u32_le(&file, 58), Some(0x0000_FF00));
    assert_eq!(read_u32_le(&file, 62), Some(0x0000_00FF));
    assert_eq!(read_u32_le(&file, 66), Some(0xFF00_0000));
    assert_eq!(&file[70..], [30, 20, 10, 40]);
}

#[test]
fn files_state_their_own_size() {
    for (w, h) in [(1usize, 1usize), (2, 3), (5, 4), (7, 1), (0, 3), (3, 0)] {
        let file = encode(
            &Image::fill(w, h, Srgb8::new(1, 2, 3)),
            &BmpEncodeOptions::default(),
        )
        .unwrap();
        assert_eq!(read_u32_le(&file, 2), Some(file.len() as u32));
        assert_eq!(file.len(), 54 + row_stride(w as u32, 24) * h);
        let file = encode_indexed(
            &Image::fill(w, h, Indexed8(1)),
            &[Srgba8::new(0, 0, 0, 0), Srgba8::new(9, 9, 9, 9)],
            &BmpEncodeOptions::default(),
        )
        .unwrap();
        assert_eq!(read_u32_le(&file, 2), Some(file.len() as u32));
        assert_eq!(file.len(), 62 + row_stride(w as u32, 8) * h);
    }
}

#[test]
fn every_kind_of_image_comes_back() {
    let pixels: Vec<Srgb8> = (0..15).map(|i| Srgb8::new(i, 2 * i, 255 - i)).collect();
    let color = BmpImage::Srgb8(Image::from_vec(5, 3, pixels).unwrap());
    let pixels: Vec<Srgba8> = (0..15).map(|i| Srgba8::new(i, 2 * i, 255 - i, 17 * i)).collect();
    let alpha = BmpImage::Srgba8(Image::from_vec(3, 5, pixels).unwrap());
    let pixels: Vec<Indexed8> = (0..15).map(|i| Indexed8(17 * i)).collect();
    let mut palette = Box::new([Srgba8::new(1, 2, 3, 255); 256]);
    palette[255] = Srgba8::new(200, 100, 50, 255);
    let indexed = BmpImage::Indexed8 {
        data: Image::from_vec(15, 1, pixels).unwrap(),
        palette,
    };
    for image in [color, alpha, indexed] {
        assert!(can_encode_bmp_image(&image));
        let file = encode_bmp_image(&image, &BmpEncodeOptions::default()).unwrap();
        assert_eq!(detect_format(&file), Some(ImageFormat::Bmp));
        let again = decode(&file).unwrap();
        match (&image, &again.image) {
            (BmpImage::Srgb8(a), BmpImage::Srgb8(b)) => assert!(a == b),
            (BmpImage::Srgba8(a), BmpImage::Srgba8(b)) => assert!(a == b),
            (
                BmpImage::Indexed8 {
                    data: a,
                    palette: p,
                },
                BmpImage::Indexed8 {
                    data: b,
                    palette: q,
                },
            ) => assert!(a == b && p == q),
            _ => panic!("the kind of image changed"),
        }
        // What was decoded encodes to the same file.
        let twice = encode_bmp_image(&again.image, &BmpEncodeOptions::default()).unwrap();
        assert!(twice == file);
        match load(&file) {
            Ok(DecodedImage::Bmp(d)) => assert_eq!(d.image.describe(), image.describe()),
            _ => panic!("expected a BMP image"),
        }
    }
}

#[test]
fn a_short_palette_comes_back_opaque_and_complete() {
    let image = Image::fill(2, 1, Indexed8(1));
    let palette = [Srgba8::new(1, 2, 3, 4), Srgba8::new(5, 6, 7, 8)];
    let file = encode_indexed(&image, &palette, &BmpEncodeOptions::default()).unwrap();
    match decode(&file).unwrap().image {
        BmpImage::Indexed8 { data, palette } => {
            assert!(data == image);
            assert!(palette[0] == Srgba8::new(1, 2, 3, 255));
            assert!(palette[1] == Srgba8::new(5, 6, 7, 255));
            assert!(palette[2] == Srgba8::new(0, 0, 0, 255));
        }
        other => panic!("expected indices, got {}", other.describe()),
    }
}

#[test]
fn palette_errors_have_their_messages() {
    let text = |r: Result<Vec<u8>, IoError>| match r {
        Err(IoError::EncodeFailed {
            source: EncodeSource::Message(msg),
        }) => msg,
        _ => "no message",
    };
    let image = Image::fill(1, 1, Indexed8(3));
    let entry = Srgba8::new(0, 0, 0, 255);
    let options = BmpEncodeOptions::default();
    assert_eq!(
        text(encode_indexed(&image, &[], &options)),
        "palette must have 1\u{2013}256 entries"
    );
    assert_eq!(
        text(encode_indexed(&image, &[entry; 257], &options)),
        "palette must have 1\u{2013}256 entries"
    );
    assert_eq!(
        text(encode_indexed(&image, &[entry; 3], &options)),
        "pixel index exceeds palette size"
    );
    assert!(encode_indexed(&image, &[entry; 4], &options).is_ok());
    assert!(check_palette(&image, &[entry; 3]).is_some());
    assert!(check_palette(&image, &[entry; 4]).is_none());
    let whole = BmpImage::Indexed8 {
        data: image,
        palette: Box::new([entry; 256]),
    };
    assert!(check_image(&whole).is_none());
}

#[test]
fn a_resolution_of_zero_counts_as_none() {
    let image = Image::fill(1, 1, Srgb8::new(0, 0, 0));
    let with = |x: u32, y: u32| {
        let options = BmpEncodeOptions {
            resolution: Some(BmpResolution {
                x_pixels_per_meter: x,
                y_pixels_per_meter: y,
            }),
        };
        decode(&encode(&image, &options).unwrap())
            .unwrap()
            .metadata
            .resolution
    };
    assert_eq!(with(0, 0), None);
    assert_eq!(
        with(0, 7),
        Some(BmpResolution {
            x_pixels_per_meter: 0,
            y_pixels_per_meter: 7
        })
    );
}

#[test]
fn images_without_pixels_encode_but_do_not_decode() {
    let file = encode(
        &Image::fill(0, 0, Srgb8::new(0, 0, 0)),
        &BmpEncodeOptions::default(),
    )
    .unwrap();
    assert_eq!(file.len(), 54);
    assert_eq!(message(decode(&file)), "invalid: BMP width must be positive");
}

#[test]
fn what_fits_a_file_can_be_asked() {
    assert!(can_encode(&Image::fill(3, 2, Srgb8::new(0, 0, 0))));
    assert!(can_encode(&Image::fill(3, 2, Srgba8::new(0, 0, 0, 0))));
    assert!(can_encode_indexed(&Image::fill(3, 2, Indexed8(0)), 256));
    // A row of nothing but padding is no row at all.
    assert!(can_encode(&Image::fill(0, 70_000, Srgb8::new(0, 0, 0))));
}

#[test]
fn wire_pixels_overwrite_only_their_bytes() {
    let mut out = [9u8; 5];
    Srgb8::new(1, 2, 3).write_bmp_bytes(&mut out);
    assert_eq!(out, [3, 2, 1, 9, 9]);
    Srgba8::new(1, 2, 3, 4).write_bmp_bytes(&mut out);
    assert_eq!(out, [3, 2, 1, 4, 9]);
    assert_eq!((Srgb8::BMP_BYTES_PER_PIXEL, Srgb8::BMP_BIT_COUNT), (3, 24));
    assert_eq!((Srgba8::BMP_BYTES_PER_PIXEL, Srgba8::BMP_BIT_COUNT), (4, 32));
    assert!(!Srgb8::BMP_HAS_ALPHA && Srgba8::BMP_HAS_ALPHA);
}
