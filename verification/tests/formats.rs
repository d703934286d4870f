use fovea_io::image::Image;
use fovea_io::pixel::{Srgb8, SrgbMono8};
use fovea_io::{bmp, detect_format, jpeg, load, load_reader, DecodedImage, ImageFormat, IoError};

// ── detect_format — positive tests per format ────────────────────────

#[test]
fn detect_format_png() {
    let sig = [0x89, 0x50, 0x4E, 0x47, 0x0D, 0x0A, 0x1A, 0x0A];
    assert_eq!(detect_format(&sig), Some(ImageFormat::Png));
}

#[test]
fn detect_format_png_with_trailing_data() {
    let mut data = vec![0x89, 0x50, 0x4E, 0x47, 0x0D, 0x0A, 0x1A, 0x0A];
    data.extend_from_slice(&[0x00; 100]);
    assert_eq!(detect_format(&data), Some(ImageFormat::Png));
}

#[test]
fn detect_format_jpeg() {
    let sig = [0xFF, 0xD8, 0xFF];
    assert_eq!(detect_format(&sig), Some(ImageFormat::Jpeg));
}

#[test]
fn detect_format_jpeg_with_trailing_data() {
    let data = [0xFF, 0xD8, 0xFF, 0xE0, 0x00, 0x10];
    assert_eq!(detect_format(&data), Some(ImageFormat::Jpeg));
}

#[test]
fn detect_format_tiff_le_is_no_longer_recognised() {
    // TIFF is not a supported format: its signature gives None, so callers
    // don't see a phantom variant they can't decode.
    let sig = [0x49, 0x49, 0x2A, 0x00];
    assert_eq!(detect_format(&sig), None);
}

#[test]
fn detect_format_tiff_be_is_no_longer_recognised() {
    let sig = [0x4D, 0x4D, 0x00, 0x2A];
    assert_eq!(detect_format(&sig), None);
}

#[test]
fn detect_format_bmp() {
    let sig = [0x42, 0x4D];
    assert_eq!(detect_format(&sig), Some(ImageFormat::Bmp));
}

#[test]
fn detect_format_bmp_with_trailing_data() {
    let data = [0x42, 0x4D, 0x00, 0x00, 0x00, 0x00];
    assert_eq!(detect_format(&data), Some(ImageFormat::Bmp));
}

// ── detect_format — negative / edge cases ────────────────────────────

#[test]
fn detect_format_empty() {
    assert_eq!(detect_format(&[]), None);
}

#[test]
fn detect_format_single_byte() {
    assert_eq!(detect_format(&[0x89]), None);
}

#[test]
fn detect_format_unknown_signature() {
    assert_eq!(detect_format(&[0x00, 0x00, 0x00, 0x00]), None);
}

#[test]
fn detect_format_short_for_png() {
    // First 7 of 8 PNG signature bytes — should not match.
    let short = [0x89, 0x50, 0x4E, 0x47, 0x0D, 0x0A, 0x1A];
    assert_eq!(detect_format(&short), None);
}

#[test]
fn detect_format_near_miss_png() {
    // Correct first 4 bytes but wrong continuation.
    let near = [0x89, 0x50, 0x4E, 0x47, 0x00, 0x00, 0x00, 0x00];
    assert_eq!(detect_format(&near), None);
}

#[test]
fn detect_format_short_for_jpeg() {
    // Only 2 of 3 JPEG signature bytes.
    assert_eq!(detect_format(&[0xFF, 0xD8]), None);
}

#[test]
fn detect_format_short_for_legacy_tiff_le_signature() {
    // Not even the full 4-byte TIFF LE signature is recognised, and no
    // shorter prefix of it.
    assert_eq!(detect_format(&[0x49, 0x49, 0x2A]), None);
}

// ── ImageFormat — derived traits ─────────────────────────────────────

#[test]
fn image_format_debug_and_eq() {
    let fmt = ImageFormat::Png;
    let dbg = format!("{:?}", fmt);
    assert_eq!(dbg, "Png");
    assert_eq!(fmt, fmt.clone());
    assert_ne!(ImageFormat::Png, ImageFormat::Jpeg);

    // Cover all variants in Debug.
    let _ = format!("{:?}", ImageFormat::Jpeg);
    let _ = format!("{:?}", ImageFormat::Bmp);
}

// ── detect_format — priority: first matching format wins ─────────────

#[test]
fn detect_format_bmp_prefix_not_confused_with_longer() {
    // BMP signature is only 2 bytes — make sure it doesn't false-match
    // when followed by arbitrary trailing bytes (here, those of a
    // TIFF LE signature).
    let data = [0x42, 0x4D, 0x49, 0x49, 0x2A, 0x00];
    assert_eq!(detect_format(&data), Some(ImageFormat::Bmp));
}

// ── load / load_reader ───────────────────────────────────────────────

#[test]
fn load_jpeg_dispatches_correctly() {
    // Build a minimal JPEG via the codec, then load() it.
    let img = Image::fill(4, 4, Srgb8::new(100, 150, 200));
    let bytes = jpeg::encode(&img, &jpeg::JpegEncodeOptions::default()).unwrap();
    let decoded = load(&bytes).unwrap();
    match decoded {
        DecodedImage::Jpeg(d) => match &d.image {
            jpeg::JpegImage::Srgb8(img) => {
                assert_eq!(img.width(), 4);
                assert_eq!(img.height(), 4);
            }
            other => panic!("expected Srgb8, got {}", other.describe()),
        },
        #[allow(unreachable_patterns)]
        _ => panic!("expected DecodedImage::Jpeg"),
    }
}

#[test]
fn load_reader_jpeg_dispatches_correctly() {
    let img = Image::fill(8, 6, SrgbMono8::new(128));
    let bytes = jpeg::encode(&img, &jpeg::JpegEncodeOptions::default()).unwrap();
    let decoded = load_reader(Ok(bytes.clone())).unwrap();
    match decoded {
        DecodedImage::Jpeg(d) => match &d.image {
            jpeg::JpegImage::SrgbMono8(img) => {
                assert_eq!(img.width(), 8);
                assert_eq!(img.height(), 6);
            }
            other => panic!("expected SrgbMono8, got {}", other.describe()),
        },
        #[allow(unreachable_patterns)]
        _ => panic!("expected DecodedImage::Jpeg"),
    }
}

#[test]
fn load_unknown_format_returns_error() {
    let result = load(&[0x00, 0x00, 0x00, 0x00]);
    assert!(matches!(result, Err(IoError::InvalidFormat { .. })));
}

#[test]
fn load_empty_returns_error() {
    let result = load(&[]);
    assert!(matches!(result, Err(IoError::InvalidFormat { .. })));
}

#[test]
fn load_unsupported_format_returns_error() {
    // A TIFF magic prefix is not recognised at all. `load` must surface an `InvalidFormat` error rather than
    // silently picking the wrong codec.
    let tiff_le = [0x49, 0x49, 0x2A, 0x00];
    let result = load(&tiff_le);
    assert!(matches!(result, Err(IoError::InvalidFormat { .. })));
}

#[test]
fn load_jpeg_returns_metadata() {
    let img = Image::fill(2, 2, Srgb8::new(0, 0, 0));
    let bytes = jpeg::encode(&img, &jpeg::JpegEncodeOptions::default()).unwrap();
    let decoded = load(&bytes).unwrap();
    match decoded {
        DecodedImage::Jpeg(d) => {
            assert_eq!(d.metadata.source_bit_depth, jpeg::JpegBitDepth::Eight);
            assert_eq!(d.metadata.color_space, jpeg::JpegColorSpace::Srgb);
        }
        #[allow(unreachable_patterns)]
        _ => panic!("expected DecodedImage::Jpeg"),
    }
}

#[test]
fn load_bmp_dispatches_correctly() {
    let img = Image::fill(4, 4, Srgb8::new(100, 150, 200));
    let bytes = bmp::encode(&img, &bmp::BmpEncodeOptions::default()).unwrap();
    let decoded = load(&bytes).unwrap();
    match decoded {
        DecodedImage::Bmp(d) => match &d.image {
            bmp::BmpImage::Srgb8(img) => {
                assert_eq!(img.width(), 4);
                assert_eq!(img.height(), 4);
            }
            other => panic!("expected Srgb8, got {}", other.describe()),
        },
        #[allow(unreachable_patterns)]
        _ => panic!("expected DecodedImage::Bmp"),
    }
}

#[test]
fn load_reader_bmp_dispatches_correctly() {
    let img = Image::fill(3, 2, Srgb8::new(42, 84, 126));
    let bytes = bmp::encode(&img, &bmp::BmpEncodeOptions::default()).unwrap();
    let decoded = load_reader(Ok(bytes.clone())).unwrap();
    match decoded {
        DecodedImage::Bmp(d) => match &d.image {
            bmp::BmpImage::Srgb8(img) => {
                assert_eq!(img.width(), 3);
                assert_eq!(img.height(), 2);
            }
            other => panic!("expected Srgb8, got {}", other.describe()),
        },
        #[allow(unreachable_patterns)]
        _ => panic!("expected DecodedImage::Bmp"),
    }
}

#[test]
fn load_bmp_returns_metadata() {
    let img = Image::fill(2, 2, Srgb8::new(0, 0, 0));
    let bytes = bmp::encode(&img, &bmp::BmpEncodeOptions::default()).unwrap();
    let decoded = load(&bytes).unwrap();
    match decoded {
        DecodedImage::Bmp(d) => {
            assert_eq!(d.metadata.source_bit_depth, bmp::BmpBitDepth::TwentyFour);
            assert_eq!(d.metadata.color_space, bmp::BmpColorSpace::Srgb);
            assert_eq!(d.metadata.header_version, bmp::BmpHeaderVersion::Info);
            assert_eq!(d.metadata.compression, bmp::BmpCompression::Uncompressed);
        }
        #[allow(unreachable_patterns)]
        _ => panic!("expected DecodedImage::Bmp"),
    }
}
