use fovea_io::image::Image;
use fovea_io::jpeg::decode::{
    build_metadata, decode_error, finish_decode, pixels_to_image, report_failure, DecoderFailure,
    JpegFrame, JpegPixelFormat, RawJpeg,
};
use fovea_io::jpeg::encode::{encode_error, EncoderFailure, JpegColorType};
use fovea_io::jpeg::exif::{parse_exif, parse_tiff_exif};
use fovea_io::jpeg::extent::{fits_decoder, LARGEST_SIDE};
use fovea_io::jpeg::markers::{scan_com_markers, scan_jfif_density};
use fovea_io::jpeg::tiff::{
    read_ascii, read_ifd_entries, ByteOrder, TiffReader, MAX_IFD_ENTRIES, TIFF_TYPE_SHORT,
};
use fovea_io::jpeg::{
    decode, decode_reader, encode, encode_jpeg_image, JpegBitDepth, JpegColorSpace,
    JpegEncodeOptions, JpegImage, JpegPixel, JpegPixelDensity, JpegSamplingFactor,
};
use fovea_io::pixel::{Srgb8, SrgbMono16, SrgbMono8};
use fovea_io::{
    detect_format, load, load_reader, DecodeSource, DecodedImage, EncodeSource, ImageFormat,
    IoError,
};

/// A file with a segment inserted right after the start of the image.
fn with_segment(file: &[u8], marker: u8, payload: &[u8]) -> Vec<u8> {
    let mut out = file[..2].to_vec();
    out.push(0xFF);
    out.push(marker);
    out.extend_from_slice(&(payload.len() as u16 + 2).to_be_bytes());
    out.extend_from_slice(payload);
    out.extend_from_slice(&file[2..]);
    out
}

/// A TIFF stream of one directory, in the given byte order.
fn tiff_stream(order: ByteOrder, entries: &[(u16, u16, u32, [u8; 4])]) -> Vec<u8> {
    let two = |v: u16| match order {
        ByteOrder::Little => v.to_le_bytes(),
        ByteOrder::Big => v.to_be_bytes(),
    };
    let four = |v: u32| match order {
        ByteOrder::Little => v.to_le_bytes(),
        ByteOrder::Big => v.to_be_bytes(),
    };
    let mut out = match order {
        ByteOrder::Little => b"II".to_vec(),
        ByteOrder::Big => b"MM".to_vec(),
    };
    out.extend_from_slice(&two(42));
    out.extend_from_slice(&four(8));
    out.extend_from_slice(&two(entries.len() as u16));
    for (tag, kind, count, value) in entries {
        out.extend_from_slice(&two(*tag));
        out.extend_from_slice(&two(*kind));
        out.extend_from_slice(&four(*count));
        out.extend_from_slice(value);
    }
    out.extend_from_slice(&four(0));
    out
}

/// A TIFF stream with a main directory and both of those that it can point to.
fn full_stream(order: ByteOrder) -> Vec<u8> {
    let two = |v: u16| match order {
        ByteOrder::Little => v.to_le_bytes(),
        ByteOrder::Big => v.to_be_bytes(),
    };
    let four = |v: u32| match order {
        ByteOrder::Little => v.to_le_bytes(),
        ByteOrder::Big => v.to_be_bytes(),
    };
    let short = |v: u16| [two(v)[0], two(v)[1], 0, 0];
    let main = [
        (0x0112u16, 3u16, 1u32, short(6)),
        (0x010F, 2, 4, *b"Hi!\0"),
        (0x0110, 2, 6, four(200)),
        (0x8769, 4, 1, four(96)),
        (0x8825, 4, 1, four(136)),
        (0x0102, 3, 3, four(200)),
    ];
    let exposure = [(0x829Au16, 5u16, 1u32, four(208)), (0x8827, 3, 1, short(400))];
    let position = [
        (0x0001u16, 2u16, 2u32, *b"S\0\0\0"),
        (0x0002, 5, 3, four(216)),
        (0x0005, 1, 1, [1, 0, 0, 0]),
        (0x0006, 5, 1, four(240)),
    ];
    let mut out = tiff_stream(order, &main);
    out.resize(96, 0);
    out.extend_from_slice(&tiff_stream(order, &exposure)[8..]);
    out.resize(136, 0);
    out.extend_from_slice(&tiff_stream(order, &position)[8..]);
    out.resize(200, 0);
    out.extend_from_slice(b"Model\0\0\0");
    for v in [1u32, 250, 33, 1, 51, 1, 35, 1, 1234, 10] {
        out.extend_from_slice(&four(v));
    }
    out
}

fn color_image(width: usize, height: usize) -> Image<Srgb8> {
    let mut pixels = Vec::new();
    for i in 0..width * height {
        pixels.push(Srgb8::new(i as u8, (2 * i) as u8, (255 - i) as u8));
    }
    Image::from_vec(width, height, pixels).unwrap()
}

// ── Encode, then decode ─────────────────────────────────────────────

#[test]
fn written_dimensions_and_kind_come_back() {
    let samplings = [
        None,
        Some(JpegSamplingFactor::F1x1),
        Some(JpegSamplingFactor::F2x1),
        Some(JpegSamplingFactor::F2x2),
    ];
    for (w, h) in [(1usize, 1usize), (3, 7), (17, 2), (33, 20)] {
        for sampling_factor in samplings {
            for progressive in [false, true] {
                let options = JpegEncodeOptions {
                    quality: 70,
                    sampling_factor,
                    progressive,
                };
                let file = encode(&color_image(w, h), &options).unwrap();
                assert_eq!(detect_format(&file), Some(ImageFormat::Jpeg));
                let d = decode(&file).unwrap();
                assert_eq!(d.image.describe(), format!("Srgb8({w}x{h})"));
                assert_eq!(d.metadata.source_bit_depth, JpegBitDepth::Eight);
                assert_eq!(
                    d.metadata.pixel_density,
                    Some(JpegPixelDensity::AspectRatio { x: 1, y: 1 })
                );
                assert_eq!(d.metadata.color_space, JpegColorSpace::Srgb);
                let file = encode(&Image::fill(w, h, SrgbMono8::new(7)), &options).unwrap();
                let d = decode(&file).unwrap();
                assert_eq!(d.image.describe(), format!("SrgbMono8({w}x{h})"));
            }
        }
    }
}

#[test]
fn encoded_files_start_with_their_headers() {
    let file = encode(
        &Image::fill(0x0102, 3, Srgb8::new(0, 0, 0)),
        &JpegEncodeOptions::default(),
    )
    .unwrap();
    assert_eq!(
        &file[..20],
        [0xFF, 0xD8, 0xFF, 0xE0, 0, 16, b'J', b'F', b'I', b'F', 0, 1, 2, 0, 0, 1, 0, 1, 0, 0]
    );
    assert_eq!(&file[20..30], [0xFF, 0xC0, 0, 17, 8, 0, 3, 1, 2, 3]);
    let options = JpegEncodeOptions {
        progressive: true,
        ..Default::default()
    };
    let file = encode(&Image::fill(9, 0x0203, SrgbMono8::new(0)), &options).unwrap();
    assert_eq!(&file[20..30], [0xFF, 0xC2, 0, 11, 8, 2, 3, 0, 9, 1]);
}

#[test]
fn equal_requests_give_equal_files() {
    let image = color_image(10, 6);
    let with = |quality: u8| {
        let options = JpegEncodeOptions {
            quality,
            ..Default::default()
        };
        encode(&image, &options).unwrap()
    };
    assert!(with(50) == with(50));
    assert!(with(0) == with(1));
    assert!(with(100) == with(200));
    assert!(with(1) != with(100));
}

#[test]
fn settings_reach_the_encoder() {
    let image = color_image(16, 16);
    let with = |sampling_factor: Option<JpegSamplingFactor>, progressive: bool| {
        let options = JpegEncodeOptions {
            quality: 90,
            sampling_factor,
            progressive,
        };
        encode(&image, &options).unwrap()
    };
    let full = with(Some(JpegSamplingFactor::F1x1), false);
    let half = with(Some(JpegSamplingFactor::F2x1), false);
    let quarter = with(Some(JpegSamplingFactor::F2x2), false);
    // The sampling factors of the first component.
    assert_eq!((full[31], half[31], quarter[31]), (0x11, 0x21, 0x22));
    assert_eq!(with(None, true)[21], 0xC2);
    assert_eq!(with(None, false)[21], 0xC0);
}

#[test]
fn decoded_images_encode_again() {
    let file = encode(&color_image(5, 4), &JpegEncodeOptions::default()).unwrap();
    let d = decode(&file).unwrap();
    assert!(encode_jpeg_image(&d.image, &JpegEncodeOptions::default()).is_ok());
    let deep = JpegImage::SrgbMono16(Image::fill(2, 2, SrgbMono16::new(1)));
    match encode_jpeg_image(&deep, &JpegEncodeOptions::default()) {
        Err(IoError::UnsupportedFeature { reason }) => assert_eq!(
            reason,
            "16-bit grayscale (12-bit JPEG) cannot be re-encoded to baseline JPEG"
        ),
        _ => panic!("expected a refusal"),
    }
}

#[test]
fn an_image_without_pixels_is_refused_by_the_encoder() {
    for (w, h) in [(0usize, 0usize), (0, 3), (3, 0)] {
        let image = Image::fill(w, h, SrgbMono8::new(0));
        match encode(&image, &JpegEncodeOptions::default()) {
            Err(IoError::EncodeFailed {
                source: EncodeSource::Jpeg(e),
            }) => assert!(e.to_string().contains("zero"), "{e}"),
            _ => panic!("expected a refusal"),
        }
    }
}

#[test]
fn the_size_limit_comes_before_the_encoder() {
    let image = Image::fill(0x1_0000, 0, SrgbMono8::new(0));
    match encode(&image, &JpegEncodeOptions::default()) {
        Err(IoError::UnsupportedFeature { reason }) => assert_eq!(
            reason,
            "JPEG dimensions exceed 65535 (u16::MAX) per ITU-T T.81 §B.2.2"
        ),
        _ => panic!("expected a refusal"),
    }
}

// ── Decoder output ──────────────────────────────────────────────────

#[test]
fn samples_read_back_as_the_image() {
    let image = color_image(3, 2);
    let mut samples = Vec::new();
    for p in image.as_slice() {
        p.push_samples(&mut samples);
    }
    assert_eq!(&samples[..6], [0, 0, 255, 1, 2, 254]);
    match pixels_to_image(samples, 3, 2, JpegPixelFormat::Rgb24, ByteOrder::Little) {
        Ok((JpegImage::Srgb8(back), JpegBitDepth::Eight)) => assert!(back == image),
        _ => panic!("expected the image"),
    }
    let gray = Image::from_vec(2, 1, vec![SrgbMono8::new(4), SrgbMono8::new(9)]).unwrap();
    let mut samples = Vec::new();
    for p in gray.as_slice() {
        p.push_samples(&mut samples);
    }
    match pixels_to_image(samples, 2, 1, JpegPixelFormat::L8, ByteOrder::Big) {
        Ok((JpegImage::SrgbMono8(back), JpegBitDepth::Eight)) => assert!(back == gray),
        _ => panic!("expected the image"),
    }
    assert_eq!(SrgbMono8::JPEG_COLOR_TYPE, JpegColorType::Luma);
}

#[test]
fn deep_samples_are_put_together_in_order() {
    let value = |order: ByteOrder| {
        match pixels_to_image(vec![1, 2], 1, 1, JpegPixelFormat::L16, order) {
            Ok((JpegImage::SrgbMono16(img), JpegBitDepth::Twelve)) => img.pixel_at(0, 0).v,
            _ => panic!("expected deep grayscale"),
        }
    };
    assert_eq!(value(ByteOrder::Little), 0x0201);
    assert_eq!(value(ByteOrder::Big), 0x0102);
}

#[test]
fn pixel_counts_that_do_not_match() {
    let text = |count: usize, format: JpegPixelFormat| {
        match pixels_to_image(vec![0; count], 2, 2, format, ByteOrder::Little) {
            Ok(_) => "decoded",
            Err(IoError::DecodeFailed {
                source: DecodeSource::Message(msg),
            }) => msg,
            Err(IoError::UnsupportedFeature { reason }) => reason,
            Err(_) => "another error",
        }
    };
    assert_eq!(text(4, JpegPixelFormat::L8), "decoded");
    assert_eq!(
        text(5, JpegPixelFormat::L8),
        "pixel count does not match image dimensions (L8)"
    );
    assert_eq!(text(8, JpegPixelFormat::L16), "decoded");
    assert_eq!(text(9, JpegPixelFormat::L16), "decoded");
    assert_eq!(
        text(10, JpegPixelFormat::L16),
        "pixel count does not match image dimensions (L16)"
    );
    assert_eq!(text(12, JpegPixelFormat::Rgb24), "decoded");
    assert_eq!(
        text(13, JpegPixelFormat::Rgb24),
        "pixel count does not match image dimensions (RGB24)"
    );
    assert_eq!(
        text(9, JpegPixelFormat::Rgb24),
        "pixel count does not match image dimensions (RGB24)"
    );
    assert_eq!(
        text(16, JpegPixelFormat::Cmyk32),
        "CMYK JPEG is not supported — convert to RGB before loading"
    );
}

#[test]
fn decoder_output_without_a_frame_is_an_error() {
    let raw = RawJpeg {
        pixels: vec![1],
        frame: None,
        exif: None,
        icc: None,
    };
    match finish_decode(raw, Vec::new(), None, ByteOrder::Little) {
        Err(IoError::DecodeFailed {
            source: DecodeSource::Message(msg),
        }) => assert_eq!(
            msg,
            "jpeg decoder produced no image info after successful decode"
        ),
        _ => panic!("expected an error"),
    }
}

#[test]
fn decoder_output_becomes_image_and_metadata() {
    let raw = RawJpeg {
        pixels: vec![1, 2],
        frame: Some(JpegFrame {
            width: 2,
            height: 1,
            format: JpegPixelFormat::L8,
        }),
        exif: Some(tiff_stream(
            ByteOrder::Big,
            &[(0x0112, TIFF_TYPE_SHORT, 1, [0, 6, 0, 0])],
        )),
        icc: Some(vec![5, 6]),
    };
    let density = Some(JpegPixelDensity::Dpcm { x: 3, y: 4 });
    let comments = vec!["hello".to_string()];
    let d = finish_decode(raw, comments, density, ByteOrder::Little).unwrap();
    assert_eq!(d.image.describe(), "SrgbMono8(2x1)");
    assert_eq!(d.metadata.exif.unwrap().orientation, Some(6));
    assert_eq!(d.metadata.icc_profile.as_deref(), Some(&[5u8, 6][..]));
    assert_eq!(d.metadata.color_space, JpegColorSpace::IccTagged);
    assert_eq!(d.metadata.pixel_density, density);
    assert_eq!(d.metadata.comments, ["hello"]);
    assert_eq!(d.metadata.source_bit_depth, JpegBitDepth::Eight);
}

#[test]
fn metadata_of_a_file_that_says_nothing() {
    let m = build_metadata(None, None, JpegBitDepth::Twelve, Vec::new(), None);
    assert!(m.exif.is_none() && m.raw_exif.is_none() && m.icc_profile.is_none());
    assert!(m.comments.is_empty() && m.pixel_density.is_none());
    assert_eq!(m.source_bit_depth, JpegBitDepth::Twelve);
    assert_eq!(m.color_space, JpegColorSpace::Srgb);
    // EXIF bytes that do not parse are kept all the same.
    let m = build_metadata(Some(vec![1, 2, 3]), None, JpegBitDepth::Eight, Vec::new(), None);
    assert!(m.exif.is_none());
    assert_eq!(m.raw_exif.as_deref(), Some(&[1u8, 2, 3][..]));
}

// ── Whole files ─────────────────────────────────────────────────────

#[test]
fn cmyk_files_are_refused() {
    let mut file = Vec::new();
    jpeg_encoder::Encoder::new(&mut file, 90)
        .encode(&[10; 4 * 64], 8, 8, jpeg_encoder::ColorType::Cmyk)
        .unwrap();
    match decode(&file) {
        Err(IoError::UnsupportedFeature { reason }) => assert_eq!(
            reason,
            "CMYK JPEG is not supported — convert to RGB before loading"
        ),
        _ => panic!("expected a refusal"),
    }
}

#[test]
fn embedded_profile_and_exif_come_out() {
    let stream = tiff_stream(
        ByteOrder::Little,
        &[(0x0112, TIFF_TYPE_SHORT, 1, [3, 0, 0, 0])],
    );
    let mut payload = b"Exif\0\0".to_vec();
    payload.extend_from_slice(&stream);
    let mut icc = b"ICC_PROFILE\0\x01\x01".to_vec();
    icc.extend_from_slice(b"profile bytes");
    let plain = encode(&color_image(4, 4), &JpegEncodeOptions::default()).unwrap();
    let file = with_segment(&with_segment(&plain, 0xE1, &payload), 0xE2, &icc);
    let m = decode(&file).unwrap().metadata;
    assert_eq!(m.raw_exif.as_deref(), Some(&stream[..]));
    assert_eq!(m.exif.unwrap().orientation, Some(3));
    assert_eq!(m.icc_profile.as_deref(), Some(&b"profile bytes"[..]));
    assert_eq!(m.color_space, JpegColorSpace::IccTagged);
}

#[test]
fn memory_and_stream_agree() {
    let file = encode(&color_image(9, 5), &JpegEncodeOptions::default()).unwrap();
    let file = with_segment(&file, 0xFE, b"note");
    let a = decode(&file).unwrap();
    let b = decode_reader(Ok(file.clone())).unwrap();
    assert_eq!(a.image.describe(), b.image.describe());
    assert_eq!(a.metadata.comments, b.metadata.comments);
    assert_eq!(a.metadata.pixel_density, b.metadata.pixel_density);
    match load_reader(Ok(file)) {
        Ok(DecodedImage::Jpeg(d)) => assert_eq!(d.metadata.comments, ["note"]),
        _ => panic!("expected a JPEG image"),
    }
}

#[test]
fn failures_are_told_apart() {
    // Data that ends too early cannot be read on.
    let file = encode(&color_image(9, 5), &JpegEncodeOptions::default()).unwrap();
    assert!(matches!(decode(&file[..40]), Err(IoError::Io(_))));
    // Data of another kind is malformed.
    assert!(matches!(
        decode(b"not a jpeg file"),
        Err(IoError::DecodeFailed {
            source: DecodeSource::Jpeg(_)
        })
    ));
    // A signature alone is enough to be handed to the decoder.
    assert!(matches!(load(&[0xFF, 0xD8, 0xFF]), Err(IoError::Io(_))));
    let e = std::io::Error::new(std::io::ErrorKind::TimedOut, "slow");
    match decode_reader(Err(e)) {
        Err(IoError::Io(e)) => assert_eq!(e.kind(), std::io::ErrorKind::TimedOut),
        _ => panic!("expected an I/O error"),
    }
}

#[test]
fn failures_are_reported_with_their_source() {
    let io = std::io::Error::new(std::io::ErrorKind::BrokenPipe, "gone");
    assert!(matches!(report_failure(DecoderFailure::Io(io)), IoError::Io(_)));
    let format = jpeg_decoder::Error::Format("bad".to_string());
    assert!(matches!(
        report_failure(DecoderFailure::Codec(format)),
        IoError::DecodeFailed {
            source: DecodeSource::Jpeg(jpeg_decoder::Error::Format(_))
        }
    ));
    let io = std::io::Error::new(std::io::ErrorKind::BrokenPipe, "gone");
    let failure = EncoderFailure::Io(io);
    assert!(matches!(
        fovea_io::jpeg::encode::report_failure(failure),
        IoError::Io(_)
    ));
}

// ── Segments ────────────────────────────────────────────────────────

#[test]
fn an_inserted_comment_comes_first() {
    let plain = [0xFF, 0xD8, 0xFF, 0xFE, 0, 4, b'a', b'b', 0xFF, 0xDA];
    let file = with_segment(&plain, 0xFE, b"first");
    assert_eq!(scan_com_markers(&plain), ["ab"]);
    assert_eq!(scan_com_markers(&file), ["first", "ab"]);
    assert_eq!(scan_jfif_density(&file), scan_jfif_density(&plain));
}

#[test]
fn an_inserted_header_decides_the_density() {
    let plain = encode(&color_image(2, 2), &JpegEncodeOptions::default()).unwrap();
    let density = |units: u8| {
        let payload = [b'J', b'F', b'I', b'F', 0, 1, 2, units, 1, 44, 0, 72, 0, 0];
        scan_jfif_density(&with_segment(&plain, 0xE0, &payload))
    };
    assert_eq!(density(0), Some(JpegPixelDensity::AspectRatio { x: 300, y: 72 }));
    assert_eq!(density(1), Some(JpegPixelDensity::Dpi { x: 300, y: 72 }));
    assert_eq!(density(2), Some(JpegPixelDensity::Dpcm { x: 300, y: 72 }));
    assert_eq!(density(9), Some(JpegPixelDensity::AspectRatio { x: 300, y: 72 }));
}

#[test]
fn nothing_behind_the_scan_is_searched() {
    let mut file = vec![0xFF, 0xD8, 0xFF, 0xFE, 0, 3, b'x', 0xFF, 0xDA];
    let before = scan_com_markers(&file);
    file.extend_from_slice(&[0xFF, 0xFE, 0, 3, b'y']);
    file.extend_from_slice(&[0xFF, 0xE0, 0, 16]);
    file.extend_from_slice(b"JFIF\0\x01\x02\x01\0\x48\0\x48\0\0");
    assert_eq!(scan_com_markers(&file), before);
    assert_eq!(scan_jfif_density(&file), None);
}

#[test]
fn comments_that_are_not_utf8_are_latin1() {
    let plain = [0xFF, 0xD8, 0xFF, 0xDA];
    let file = with_segment(&plain, 0xFE, &[b'c', b'a', b'f', 0xE9]);
    assert_eq!(scan_com_markers(&file), ["caf\u{e9}"]);
    let file = with_segment(&plain, 0xFE, "caf\u{e9}".as_bytes());
    assert_eq!(scan_com_markers(&file), ["caf\u{e9}"]);
    let file = with_segment(&plain, 0xFE, b"");
    assert_eq!(scan_com_markers(&file), [""]);
}

// ── EXIF ────────────────────────────────────────────────────────────

#[test]
fn a_payload_says_what_its_stream_says() {
    for order in [ByteOrder::Little, ByteOrder::Big] {
        let value = match order {
            ByteOrder::Little => [8, 0, 0, 0],
            ByteOrder::Big => [0, 8, 0, 0],
        };
        let stream = tiff_stream(order, &[(0x0112, TIFF_TYPE_SHORT, 1, value)]);
        let mut payload = b"Exif\0\0".to_vec();
        payload.extend_from_slice(&stream);
        assert_eq!(parse_exif(&payload), parse_tiff_exif(&stream));
        assert_eq!(parse_exif(&payload).unwrap().orientation, Some(8));
        payload[0] = b'e';
        assert_eq!(parse_exif(&payload), None);
    }
}

#[test]
fn a_stream_parses_whatever_its_tags_hold() {
    let garbage = |start: &[u8; 4]| {
        let mut stream = start.to_vec();
        stream.extend_from_slice(&[0xFF; 60]);
        parse_tiff_exif(&stream)
    };
    assert_eq!(garbage(b"II\x2A\0"), Some(Default::default()));
    assert_eq!(garbage(b"MM\0\x2A"), Some(Default::default()));
    assert_eq!(garbage(b"MM\x2A\0"), None);
    assert_eq!(garbage(b"IM\x2A\0"), None);
    assert_eq!(parse_tiff_exif(b"II\x2A\0\0\0\0"), None);
}

#[test]
fn byte_orders_mirror_each_other() {
    let bytes = [1u8, 2, 3, 4];
    let mirrored = [4u8, 3, 2, 1];
    let little = TiffReader::new(&bytes, ByteOrder::Little);
    let big = TiffReader::new(&mirrored, ByteOrder::Big);
    assert_eq!(little.u32_at(0), Some(0x0403_0201));
    assert_eq!(little.u32_at(0), big.u32_at(0));
    assert_eq!(little.u16_at(0), big.u16_at(2));
}

#[test]
fn orientations_out_of_range_are_dropped() {
    for v in [0u8, 1, 8, 9, 255] {
        let stream = tiff_stream(
            ByteOrder::Little,
            &[(0x0112, TIFF_TYPE_SHORT, 1, [v, 0, 0, 0])],
        );
        let found = parse_tiff_exif(&stream).unwrap().orientation;
        assert_eq!(found, if (1..=8).contains(&v) { Some(v) } else { None });
    }
    // The last valid one counts.
    let stream = tiff_stream(
        ByteOrder::Little,
        &[
            (0x0112, TIFF_TYPE_SHORT, 1, [2, 0, 0, 0]),
            (0x0112, TIFF_TYPE_SHORT, 1, [5, 0, 0, 0]),
            (0x0112, TIFF_TYPE_SHORT, 1, [0, 1, 0, 0]),
        ],
    );
    assert_eq!(parse_tiff_exif(&stream).unwrap().orientation, Some(5));
}

#[test]
fn directories_are_read_up_to_the_limit() {
    let mut stream = vec![0u8; 2 + 12 * 1200];
    stream[0..2].copy_from_slice(&1200u16.to_le_bytes());
    let reader = TiffReader::new(&stream, ByteOrder::Little);
    let entries = read_ifd_entries(&reader, 0);
    assert_eq!(entries.len(), MAX_IFD_ENTRIES as usize);
    // As many as there is room for.
    let reader = TiffReader::new(&stream[..2 + 12 * 3 + 11], ByteOrder::Little);
    assert_eq!(read_ifd_entries(&reader, 0).len(), 3);
    assert!(read_ifd_entries(&reader, usize::MAX).is_empty());
}

#[test]
fn texts_end_before_their_trailing_zeros() {
    let data = b"ab\0c\0\0";
    let reader = TiffReader::new(data, ByteOrder::Little);
    assert_eq!(read_ascii(&reader, 0, 6), Some("ab\0c".to_string()));
    assert_eq!(read_ascii(&reader, 4, 2), None);
    assert_eq!(read_ascii(&reader, 0, 7), None);
    assert_eq!(read_ascii(&reader, 0, 0), None);
    let latin = [0xC4u8, 0x70, 0];
    let reader = TiffReader::new(&latin, ByteOrder::Big);
    assert_eq!(read_ascii(&reader, 0, 3), Some("\u{c4}p".to_string()));
}

#[test]
fn a_malformed_tag_keeps_what_was_read() {
    let mut payload = b"Exif\0\0".to_vec();
    payload.extend_from_slice(&[
        0x49, 0x49, 0x2A, 0, 8, 0, 0, 0, 2, 0, 0x0F, 1, 2, 0, 4, 0, 0, 0, 0x48, 0x69, 0x21, 0,
        0x0F, 1, 2, 0, 5, 0, 0, 0, 0xE7, 3, 0, 0,
    ]);
    let info = parse_exif(&payload).unwrap();
    assert_eq!(info.camera_make.as_deref(), Some("Hi!"));
}

#[test]
fn the_last_readable_rational_counts() {
    let order = ByteOrder::Little;
    let main = [(0x8769u16, 4u16, 1u32, 26u32.to_le_bytes())];
    let exposure = [
        (0x829Au16, 5u16, 1u32, 56u32.to_le_bytes()),
        (0x829A, 5, 1, 9999u32.to_le_bytes()),
    ];
    let mut stream = tiff_stream(order, &main);
    assert_eq!(stream.len(), 26);
    stream.extend_from_slice(&tiff_stream(order, &exposure)[8..]);
    assert_eq!(stream.len(), 56);
    stream.extend_from_slice(&1u32.to_le_bytes());
    stream.extend_from_slice(&60u32.to_le_bytes());
    assert_eq!(parse_tiff_exif(&stream).unwrap().exposure_time, Some((1, 60)));
}

#[test]
fn the_byte_order_does_not_matter() {
    let little = parse_tiff_exif(&full_stream(ByteOrder::Little)).unwrap();
    let big = parse_tiff_exif(&full_stream(ByteOrder::Big)).unwrap();
    assert!(little == big);
    assert_eq!(little.orientation, Some(6));
    assert_eq!(little.camera_make.as_deref(), Some("Hi!"));
    assert_eq!(little.camera_model.as_deref(), Some("Model"));
    assert_eq!(little.exposure_time, Some((1, 250)));
    assert_eq!(little.iso_speed, Some(400));
    let latitude = little.gps_latitude.unwrap();
    assert!(latitude.negative);
    assert_eq!(latitude.degrees, (33, 1));
    let altitude = little.gps_altitude.unwrap();
    assert!(altitude.below_sea_level);
    assert_eq!(altitude.metres, (1234, 10));
}

#[test]
fn a_wrong_type_spoils_only_its_field() {
    let stream = full_stream(ByteOrder::Big);
    let whole = parse_tiff_exif(&stream).unwrap();
    for k in 0..3 {
        let mut other = stream.clone();
        other[10 + 12 * k + 2] = 0;
        other[10 + 12 * k + 3] = 7;
        let info = parse_tiff_exif(&other).unwrap();
        let mut expected = whole.clone();
        match k {
            0 => expected.orientation = None,
            1 => expected.camera_make = None,
            _ => expected.camera_model = None,
        }
        assert!(info == expected, "entry {k}");
    }
}

// ── The reach of the decoder ────────────────────────────────────────

#[test]
fn long_sides_decode_where_their_blocks_can_be_counted() {
    let plain = JpegEncodeOptions::default();
    let progressive = JpegEncodeOptions {
        progressive: true,
        ..Default::default()
    };
    let limit = LARGEST_SIDE as usize;
    assert_eq!(limit, 65528);

    let gray = |w: usize, h: usize| Image::fill(w, h, SrgbMono8::new(9));
    let color = |w: usize, h: usize| Image::fill(w, h, Srgb8::new(1, 2, 3));

    let d = decode(&encode(&gray(1, limit), &plain).unwrap()).unwrap();
    assert_eq!(d.image.describe(), "SrgbMono8(1x65528)");
    let d = decode(&encode(&gray(65535, 1), &plain).unwrap()).unwrap();
    assert_eq!(d.image.describe(), "SrgbMono8(65535x1)");
    let d = decode(&encode(&color(1, 65535), &plain).unwrap()).unwrap();
    assert_eq!(d.image.describe(), "Srgb8(1x65535)");
    let d = decode(&encode(&color(1, limit), &progressive).unwrap()).unwrap();
    assert_eq!(d.image.describe(), "Srgb8(1x65528)");

    for file in [
        encode(&gray(1, limit + 1), &plain).unwrap(),
        encode(&gray(1, 65535), &plain).unwrap(),
        encode(&color(1, 65535), &progressive).unwrap(),
    ] {
        assert!(!fits_decoder(&file));
        assert!(matches!(
            decode(&file),
            Err(IoError::UnsupportedFeature {
                reason: "JPEG side above 65528 pixels in this block layout"
            })
        ));
        assert!(matches!(
            load(&file),
            Err(IoError::UnsupportedFeature { .. })
        ));
        // Without a scan there is nothing to count.
        assert!(fits_decoder(&file[..40]));
        assert!(decode(&file[..40]).is_err());
    }
}

#[test]
fn sampling_factors_of_three_count_for_long_sides() {
    let mut file = encode(
        &Image::fill(65535, 1, SrgbMono8::new(9)),
        &JpegEncodeOptions::default(),
    )
    .unwrap();
    assert_eq!(file[31], 0x11);
    assert!(fits_decoder(&file));
    file[31] = 0x31;
    assert!(!fits_decoder(&file));
    assert!(matches!(
        decode(&file),
        Err(IoError::UnsupportedFeature { .. })
    ));
    file[31] = 0x13;
    assert!(fits_decoder(&file));
    // A header of another length is no header to go by.
    file[31] = 0x31;
    file[23] = 12;
    assert!(fits_decoder(&file));
    assert!(matches!(decode(&file), Err(IoError::DecodeFailed { .. })));
}

#[test]
fn only_scans_of_single_components_are_short_of_counting() {
    let refused = |file: &[u8]| matches!(decode(file), Err(IoError::UnsupportedFeature { .. }));
    let lone = [0xFF, 0xDA, 0, 8, 1, 1, 0, 0, 63, 0];
    let options = JpegEncodeOptions {
        sampling_factor: Some(JpegSamplingFactor::F1x1),
        ..Default::default()
    };

    // Wide, all components in one scan, each sampled threefold.
    let mut wide = encode(&Image::fill(65535, 1, Srgb8::new(1, 2, 3)), &options).unwrap();
    for i in [31, 34, 37] {
        assert_eq!(wide[i], 0x11);
        wide[i] = 0x31;
    }
    assert!(fits_decoder(&wide));
    assert!(!refused(&wide));
    let end = wide.len() - 2;
    wide.splice(end..end, lone);
    assert!(!fits_decoder(&wide));
    assert!(refused(&wide));

    // Tall, complete after the first scan.
    let mut tall = encode(&Image::fill(1, 65535, Srgb8::new(1, 2, 3)), &options).unwrap();
    let end = tall.len() - 2;
    tall.splice(end..end, lone);
    assert!(fits_decoder(&tall));
    assert!(!refused(&tall));
    for i in [31, 34, 37] {
        tall[i] = 0x13;
    }
    assert!(!fits_decoder(&tall));
    assert!(refused(&tall));
}

#[test]
fn codec_errors_are_taken_apart() {
    let io = std::io::Error::new(std::io::ErrorKind::TimedOut, "slow");
    match decode_error(jpeg_decoder::Error::Io(io)) {
        IoError::Io(e) => assert_eq!(e.kind(), std::io::ErrorKind::TimedOut),
        _ => panic!("expected an I/O error"),
    }
    assert!(matches!(
        decode_error(jpeg_decoder::Error::Format("bad".to_string())),
        IoError::DecodeFailed {
            source: DecodeSource::Jpeg(jpeg_decoder::Error::Format(_))
        }
    ));
    let io = std::io::Error::new(std::io::ErrorKind::BrokenPipe, "gone");
    match encode_error(jpeg_encoder::EncodingError::IoError(io)) {
        IoError::Io(e) => assert_eq!(e.kind(), std::io::ErrorKind::BrokenPipe),
        _ => panic!("expected an I/O error"),
    }
    assert!(matches!(
        encode_error(jpeg_encoder::EncodingError::IccTooLarge(7)),
        IoError::EncodeFailed {
            source: EncodeSource::Jpeg(jpeg_encoder::EncodingError::IccTooLarge(7))
        }
    ));
}

#[test]
fn two_decodings_end_alike() {
    let file = encode(&color_image(5, 4), &JpegEncodeOptions::default()).unwrap();
    for data in [&file[..], &file[..30], &file[1..], &[][..]] {
        match (decode(data), decode_reader(Ok(data.to_vec()))) {
            (Ok(a), Ok(b)) => assert_eq!(a.image.describe(), b.image.describe()),
            (Err(a), Err(b)) => assert_eq!(a.to_string(), b.to_string()),
            _ => panic!("one decoding failed and the other did not"),
        }
    }
}
