use fovea_io::image::{Image, Size};
use fovea_io::pixel::{Indexed8, Srgb8, Srgba8, SrgbMono16, SrgbMono8};
use fovea_io::text::{decode_text, describe_layout, push_decimal};
use fovea_io::{
    bmp, detect_format, jpeg, load, load_reader, DecodeSource, DecodedImage, EncodeSource,
    ImageFormat, IoError,
};

// ── Formats ─────────────────────────────────────────────────────────

#[test]
fn the_format_needs_only_the_first_eight_bytes() {
    let mut png = vec![0x89, 0x50, 0x4E, 0x47, 0x0D, 0x0A, 0x1A, 0x0A];
    png.extend_from_slice(&[0; 20]);
    let mut jpeg = vec![0xFF, 0xD8, 0xFF];
    jpeg.extend_from_slice(&[0x42; 20]);
    let mut bmp = vec![0x42, 0x4D];
    bmp.extend_from_slice(&[0xFF; 20]);
    for file in [png, jpeg, bmp, vec![0; 20]] {
        for n in 8..file.len() {
            assert_eq!(detect_format(&file[..n]), detect_format(&file));
        }
    }
}

#[test]
fn a_signature_decides_whatever_follows() {
    for rest in [&[][..], &[0x4D, 0xFF, 0xD8][..]] {
        let mut file = vec![0x42, 0x4D];
        file.extend_from_slice(rest);
        assert_eq!(detect_format(&file), Some(ImageFormat::Bmp));
        let mut file = vec![0xFF, 0xD8, 0xFF];
        file.extend_from_slice(rest);
        assert_eq!(detect_format(&file), Some(ImageFormat::Jpeg));
        let mut file = vec![0x89, 0x50, 0x4E, 0x47, 0x0D, 0x0A, 0x1A, 0x0A];
        file.extend_from_slice(rest);
        assert_eq!(detect_format(&file), Some(ImageFormat::Png));
    }
}

#[test]
fn formats_without_a_codec_are_refused() {
    let png = [0x89, 0x50, 0x4E, 0x47, 0x0D, 0x0A, 0x1A, 0x0A];
    match load(&png) {
        Err(IoError::InvalidFormat { reason }) => assert_eq!(
            reason,
            "detected format is not supported (enable the corresponding feature)"
        ),
        _ => panic!("expected a refusal"),
    }
    match load(b"text") {
        Err(IoError::InvalidFormat { reason }) => assert_eq!(
            reason,
            "unrecognised image format (magic bytes don't match any known codec)"
        ),
        _ => panic!("expected a refusal"),
    }
}

#[test]
fn loading_picks_the_codec_of_the_signature() {
    let image = Image::fill(3, 2, Srgb8::new(1, 2, 3));
    let file = bmp::encode(&image, &bmp::BmpEncodeOptions::default()).unwrap();
    match load_reader(Ok(file)) {
        Ok(DecodedImage::Bmp(d)) => match d.image {
            bmp::BmpImage::Srgb8(img) => assert!(img == image),
            other => panic!("expected Srgb8, got {}", other.describe()),
        },
        _ => panic!("expected a BMP image"),
    }
    let file = jpeg::encode(&image, &jpeg::JpegEncodeOptions::default()).unwrap();
    match load_reader(Ok(file)) {
        Ok(DecodedImage::Jpeg(d)) => assert_eq!((d.image.width(), d.image.height()), (3, 2)),
        _ => panic!("expected a JPEG image"),
    }
    let e = std::io::Error::new(std::io::ErrorKind::NotFound, "missing");
    match load_reader(Err(e)) {
        Err(IoError::Io(e)) => assert_eq!(e.kind(), std::io::ErrorKind::NotFound),
        _ => panic!("expected an I/O error"),
    }
}

// ── Errors ──────────────────────────────────────────────────────────

#[test]
fn errors_have_their_texts() {
    let e = IoError::InvalidFormat {
        reason: "not a PNG file",
    };
    assert_eq!(e.to_string(), "invalid format: not a PNG file");
    let e = IoError::UnsupportedFeature { reason: "CMYK" };
    assert_eq!(e.to_string(), "unsupported feature: CMYK");
    let e = IoError::DecodeFailed {
        source: DecodeSource::Message("anything"),
    };
    assert_eq!(e.to_string(), "decode failed");
    let e = IoError::EncodeFailed {
        source: EncodeSource::Message("anything"),
    };
    assert_eq!(e.to_string(), "encode failed");
    let e = IoError::Io(std::io::Error::new(std::io::ErrorKind::Other, "boom"));
    assert_eq!(e.to_string(), "boom");
}

// ── Text ────────────────────────────────────────────────────────────

#[test]
fn bytes_become_text() {
    assert_eq!(decode_text(b""), "");
    assert_eq!(decode_text("gr\u{fc}n \u{1F600}".as_bytes()), "gr\u{fc}n \u{1F600}");
    assert_eq!(decode_text(&[b'g', b'r', 0xFC, b'n']), "gr\u{fc}n");
    // Every byte has a character of its own.
    let all: Vec<u8> = (0..=255).collect();
    let text = decode_text(&all);
    assert_eq!(text.chars().count(), 256);
    assert!(text.chars().zip(0u32..).all(|(c, i)| c as u32 == i));
}

#[test]
fn numbers_become_digits() {
    let digits = |n: usize| {
        let mut text = String::from("n=");
        push_decimal(&mut text, n);
        text
    };
    assert_eq!(digits(0), "n=0");
    assert_eq!(digits(9), "n=9");
    assert_eq!(digits(10), "n=10");
    assert_eq!(digits(320), "n=320");
    assert_eq!(digits(usize::MAX), format!("n={}", usize::MAX));
    assert_eq!(describe_layout("Srgb8", 320, 240), "Srgb8(320x240)");
}

// ── Images ──────────────────────────────────────────────────────────

#[test]
fn images_hold_exactly_their_pixels() {
    assert!(Image::from_vec(2, 2, vec![1u8, 2, 3]).is_none());
    assert!(Image::from_vec(2, 2, vec![1u8, 2, 3, 4, 5]).is_none());
    assert!(Image::from_vec(usize::MAX, 2, vec![1u8, 2]).is_none());
    assert!(Image::<u8>::from_vec(0, 5, vec![]).is_some());
    let image = Image::from_vec(2, 3, vec![1u8, 2, 3, 4, 5, 6]).unwrap();
    assert_eq!((image.width(), image.height()), (2, 3));
    assert_eq!(
        image.size(),
        Size {
            width: 2,
            height: 3
        }
    );
    assert_eq!(image.as_slice(), [1, 2, 3, 4, 5, 6]);
    assert_eq!(image.pixel_at(1, 2), 6);
    assert_eq!(image.get(0, 1), Some(3));
    assert_eq!(image.get(2, 0), None);
    assert_eq!(image.get(0, 3), None);
}

#[test]
fn filled_images_are_uniform() {
    let image = Image::fill(3, 2, 7u8);
    assert_eq!(image.as_slice(), [7; 6]);
    assert!(Image::fill(0, 9, 7u8).as_slice().is_empty());
}

#[test]
fn pixels_hold_their_channels() {
    let p = Srgb8::new(1, 2, 3);
    assert_eq!((p.r, p.g, p.b), (1, 2, 3));
    let p = Srgba8::new(1, 2, 3, 4);
    assert_eq!((p.r, p.g, p.b, p.a), (1, 2, 3, 4));
    assert_eq!(SrgbMono8::new(5).v, 5);
    assert_eq!(SrgbMono16::new(500).v, 500);
    assert_eq!(Indexed8(6).0, 6);
}
