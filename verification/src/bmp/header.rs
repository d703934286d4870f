//! The file header and the DIB header.

use vstd::prelude::*;
use crate::bmp::le;
use crate::bmp::le::{read_i32_le, read_u16_le, read_u32_le};
use crate::bmp::masks::BitfieldMasks;
use crate::bmp::BmpHeaderVersion;
use crate::error::IoError;

verus! {

/// Colour space tag: sRGB.
pub const LCS_SRGB: u32 = 0x73524742;

/// Colour space tag: the default colour space of Windows, which is sRGB.
pub const LCS_WINDOWS_COLOR_SPACE: u32 = 0x57696E20;

/// Colour space tag: an ICC profile is embedded.
pub const LCS_PROFILE_EMBEDDED: u32 = 0x4D424544;

/// Compression tag: uncompressed.
pub const BI_RGB: u32 = 0;

/// Compression tag: run-length encoded, 8 bits per index.
pub const BI_RLE8: u32 = 1;

/// Compression tag: run-length encoded, 4 bits per index.
pub const BI_RLE4: u32 = 2;

/// Compression tag: uncompressed, with explicit channel masks.
pub const BI_BITFIELDS: u32 = 3;

/// The size of the file header, which is where the DIB header starts.
pub const FILE_HEADER_SIZE: usize = 14;

/// Parsed BMP file header (14 bytes).
#[derive(Debug, Clone, Copy, PartialEq, Eq, Structural)]
pub struct BmpFileHeader {
    /// Offset from the beginning of the file to the pixel data.
    pub pixel_data_offset: u32,
}

/// Parsed and normalised DIB header: all header versions are collapsed into
/// this single representation.
#[derive(Debug, Clone, Copy)]
pub struct BmpDibHeader {
    /// Width in pixels.
    pub width: u32,
    /// Height in pixels.
    pub height: u32,
    /// True if the image is stored top-down (negative height).
    pub top_down: bool,
    /// Bits per pixel.
    pub bit_count: u16,
    /// Compression tag.
    pub compression: u32,
    /// Header version.
    pub header_version: BmpHeaderVersion,
    /// Horizontal resolution in pixels per metre; zero if unspecified.
    pub x_pels_per_meter: u32,
    /// Vertical resolution in pixels per metre; zero if unspecified.
    pub y_pels_per_meter: u32,
    /// Number of colour table entries; zero for the most the bit count allows.
    pub colors_used: u32,
    /// Colour space tag of V4 and V5 headers (zero for earlier versions).
    pub cs_type: u32,
    /// Size of the DIB header in bytes.
    pub header_size: u32,
    /// Channel masks embedded in V4 and V5 headers.
    pub v4_masks: Option<BitfieldMasks>,
    /// ICC profile offset (relative to the start of the DIB header) and size.
    pub icc_profile: Option<(u32, u32)>,
    /// Colour table entry size: 3 for `BITMAPCOREHEADER`, 4 otherwise.
    pub color_table_entry_size: u8,
}

/// The bit counts that a header may hold.
pub open spec fn valid_bit_count(version: BmpHeaderVersion, bit_count: u16) -> bool {
    match version {
        BmpHeaderVersion::Core => bit_count == 1 || bit_count == 4 || bit_count == 8 || bit_count
            == 24,
        _ => bit_count == 1 || bit_count == 4 || bit_count == 8 || bit_count == 16 || bit_count
            == 24 || bit_count == 32,
    }
}

/// The size of a DIB header in bytes.
pub open spec fn dib_size(version: BmpHeaderVersion) -> u32 {
    match version {
        BmpHeaderVersion::Core => 12,
        BmpHeaderVersion::Info => 40,
        BmpHeaderVersion::V4 => 108,
        BmpHeaderVersion::V5 => 124,
    }
}

impl BmpDibHeader {
    /// What every header holds that was parsed from a file.
    pub open spec fn wf(self) -> bool {
        &&& 1 <= self.width <= i32::MAX
        &&& 1 <= self.height <= i32::MAX + 1
        &&& valid_bit_count(self.header_version, self.bit_count)
        &&& self.header_size == dib_size(self.header_version)
        &&& self.color_table_entry_size == if self.header_version is Core {
            3u8
        } else {
            4u8
        }
        &&& self.v4_masks is Some <==> self.header_version is V4 || self.header_version is V5
    }
}

/// The file header of `data`, or the error that it gives.
#[verifier::opaque]
pub open spec fn file_header(data: Seq<u8>) -> Result<BmpFileHeader, IoError> {
    if data.len() < 14 {
        Err(
            IoError::InvalidFormat {
                reason: "BMP file too short for file header (need at least 14 bytes)",
            },
        )
    } else if data[0] != 0x42 || data[1] != 0x4D {
        Err(IoError::InvalidFormat { reason: "not a BMP file (missing 'BM' signature)" })
    } else {
        Ok(BmpFileHeader { pixel_data_offset: le::le32(data, 10) })
    }
}

/// Signed header dimensions as width, height and whether rows run top-down, or
/// the error that they give.
pub open spec fn dimensions(raw_width: i32, raw_height: i32) -> Result<(u32, u32, bool), IoError> {
    if raw_width <= 0 {
        Err(IoError::InvalidFormat { reason: "BMP width must be positive" })
    } else if raw_height == 0 {
        Err(IoError::InvalidFormat { reason: "BMP height must be non-zero" })
    } else if raw_height < 0 {
        Ok((raw_width as u32, (-raw_height) as u32, true))
    } else {
        Ok((raw_width as u32, raw_height as u32, false))
    }
}

/// The error for a bit count that a header may not hold.
pub open spec fn bit_count_error(version: BmpHeaderVersion) -> IoError {
    let msg: &'static str = match version {
        BmpHeaderVersion::Core =>
            "invalid bit count for BITMAPCOREHEADER (must be 1, 4, 8, or 24)",
        _ => "invalid bit count (must be 1, 4, 8, 16, 24, or 32)",
    };
    IoError::InvalidFormat { reason: msg }
}

/// The error for a file that ends inside a DIB header.
pub open spec fn dib_truncated(version: BmpHeaderVersion) -> IoError {
    let msg: &'static str = match version {
        BmpHeaderVersion::Core => "BMP file too short for BITMAPCOREHEADER",
        BmpHeaderVersion::Info => "BMP file too short for BITMAPINFOHEADER",
        BmpHeaderVersion::V4 => "BMP file too short for BITMAPV4HEADER",
        BmpHeaderVersion::V5 => "BMP file too short for BITMAPV5HEADER",
    };
    IoError::InvalidFormat { reason: msg }
}

/// The `BITMAPCOREHEADER` at `at`, or the error that it gives.
pub open spec fn core_header(data: Seq<u8>, at: int) -> Result<BmpDibHeader, IoError> {
    let width = le::le16(data, at + 4) as u32;
    let height = le::le16(data, at + 6) as u32;
    let bit_count = le::le16(data, at + 10);
    if data.len() < at + 12 {
        Err(dib_truncated(BmpHeaderVersion::Core))
    } else if le::le16(data, at + 8) != 1 {
        Err(IoError::InvalidFormat { reason: "BMP planes field must be 1" })
    } else if !valid_bit_count(BmpHeaderVersion::Core, bit_count) {
        Err(bit_count_error(BmpHeaderVersion::Core))
    } else if width == 0 || height == 0 {
        Err(IoError::InvalidFormat { reason: "BMP image dimensions must be non-zero" })
    } else {
        Ok(
            BmpDibHeader {
                width,
                height,
                top_down: false,
                bit_count,
                compression: BI_RGB,
                header_version: BmpHeaderVersion::Core,
                x_pels_per_meter: 0,
                y_pels_per_meter: 0,
                colors_used: 0,
                cs_type: 0,
                header_size: 12,
                v4_masks: None,
                icc_profile: None,
                color_table_entry_size: 3,
            },
        )
    }
}

/// The channel masks that a V4 or V5 header at `at` embeds.
pub open spec fn embedded_masks(data: Seq<u8>, at: int) -> BitfieldMasks {
    BitfieldMasks {
        r: le::le32(data, at + 40),
        g: le::le32(data, at + 44),
        b: le::le32(data, at + 48),
        a: le::le32(data, at + 52),
    }
}

/// The `BITMAPINFOHEADER` or one of its successors at `at`, or the error that
/// it gives.
pub open spec fn long_header(data: Seq<u8>, at: int, version: BmpHeaderVersion) -> Result<
    BmpDibHeader,
    IoError,
> {
    let bit_count = le::le16(data, at + 14);
    let v4 = version is V4 || version is V5;
    let cs_type = if v4 {
        le::le32(data, at + 56)
    } else {
        0
    };
    let profile = (le::le32(data, at + 112), le::le32(data, at + 116));
    if data.len() < at + dib_size(version) {
        Err(dib_truncated(version))
    } else if le::le16(data, at + 12) != 1 {
        Err(IoError::InvalidFormat { reason: "BMP planes field must be 1" })
    } else if !valid_bit_count(version, bit_count) {
        Err(bit_count_error(version))
    } else {
        match dimensions(le::le32_signed(data, at + 4), le::le32_signed(data, at + 8)) {
            Err(e) => Err(e),
            Ok((width, height, top_down)) => Ok(
                BmpDibHeader {
                    width,
                    height,
                    top_down,
                    bit_count,
                    compression: le::le32(data, at + 16),
                    header_version: version,
                    x_pels_per_meter: le::le32(data, at + 24),
                    y_pels_per_meter: le::le32(data, at + 28),
                    colors_used: le::le32(data, at + 32),
                    cs_type,
                    header_size: dib_size(version),
                    v4_masks: if v4 {
                        Some(embedded_masks(data, at))
                    } else {
                        None
                    },
                    icc_profile: if version is V5 && cs_type == LCS_PROFILE_EMBEDDED && profile.1
                        > 0 {
                        Some(profile)
                    } else {
                        None
                    },
                    color_table_entry_size: 4,
                },
            ),
        }
    }
}

/// The DIB header of `data`, or the error that it gives.
#[verifier::opaque]
pub open spec fn dib_header(data: Seq<u8>) -> Result<BmpDibHeader, IoError> {
    if data.len() < 18 {
        Err(IoError::InvalidFormat { reason: "BMP file too short for DIB header size field" })
    } else if le::le32(data, 14) == 12 {
        core_header(data, 14)
    } else if le::le32(data, 14) == 40 {
        long_header(data, 14, BmpHeaderVersion::Info)
    } else if le::le32(data, 14) == 108 {
        long_header(data, 14, BmpHeaderVersion::V4)
    } else if le::le32(data, 14) == 124 {
        long_header(data, 14, BmpHeaderVersion::V5)
    } else {
        Err(
            IoError::UnsupportedFeature {
                reason: "unsupported DIB header size (only 12, 40, 108, 124 are supported)",
            },
        )
    }
}

/// Parses the 14-byte BMP file header.
pub fn parse_file_header(data: &[u8]) -> (r: Result<BmpFileHeader, IoError>)
    ensures
        r == file_header(data@),
{
    reveal(file_header);
    if data.len() < 14 {
        return Err(
            IoError::InvalidFormat {
                reason: "BMP file too short for file header (need at least 14 bytes)",
            },
        );
    }
    if data[0] != 0x42 || data[1] != 0x4D {
        return Err(IoError::InvalidFormat { reason: "not a BMP file (missing 'BM' signature)" });
    }
    let pixel_data_offset: u32 = read_u32_le(data, 10).unwrap();
    Ok(BmpFileHeader { pixel_data_offset })
}

/// Parses the DIB header, which starts right after the file header.
pub fn parse_dib_header(data: &[u8]) -> (r: Result<BmpDibHeader, IoError>)
    ensures
        r == dib_header(data@),
{
    reveal(dib_header);
    match read_u32_le(data, FILE_HEADER_SIZE) {
        None => Err(
            IoError::InvalidFormat { reason: "BMP file too short for DIB header size field" },
        ),
        Some(12) => parse_core_header(data, FILE_HEADER_SIZE),
        Some(40) => parse_info_header(data, FILE_HEADER_SIZE),
        Some(108) => parse_v4_header(data, FILE_HEADER_SIZE),
        Some(124) => parse_v5_header(data, FILE_HEADER_SIZE),
        Some(_) => Err(
            IoError::UnsupportedFeature {
                reason: "unsupported DIB header size (only 12, 40, 108, 124 are supported)",
            },
        ),
    }
}

/// Parses a `BITMAPCOREHEADER` (12 bytes).
pub fn parse_core_header(data: &[u8], offset: usize) -> (r: Result<BmpDibHeader, IoError>)
    ensures
        r == core_header(data@, offset as int),
{
    if data.len() < 12 || offset > data.len() - 12 {
        return Err(IoError::InvalidFormat { reason: "BMP file too short for BITMAPCOREHEADER" });
    }
    let width: u32 = read_u16_le(data, offset + 4).unwrap() as u32;
    let height: u32 = read_u16_le(data, offset + 6).unwrap() as u32;
    let planes: u16 = read_u16_le(data, offset + 8).unwrap();
    let bit_count: u16 = read_u16_le(data, offset + 10).unwrap();
    if planes != 1 {
        return Err(IoError::InvalidFormat { reason: "BMP planes field must be 1" });
    }
    match validate_bit_count_core(bit_count) {
        Ok(()) => {},
        Err(e) => return Err(e),
    }
    if width == 0 || height == 0 {
        return Err(IoError::InvalidFormat { reason: "BMP image dimensions must be non-zero" });
    }
    Ok(
        BmpDibHeader {
            width,
            height,
            top_down: false,
            bit_count,
            compression: BI_RGB,
            header_version: BmpHeaderVersion::Core,
            x_pels_per_meter: 0,
            y_pels_per_meter: 0,
            colors_used: 0,
            cs_type: 0,
            header_size: 12,
            v4_masks: None,
            icc_profile: None,
            color_table_entry_size: 3,
        },
    )
}

/// Parses a `BITMAPINFOHEADER` (40 bytes).
pub fn parse_info_header(data: &[u8], offset: usize) -> (r: Result<BmpDibHeader, IoError>)
    ensures
        r == long_header(data@, offset as int, BmpHeaderVersion::Info),
{
    if data.len() < 40 || offset > data.len() - 40 {
        return Err(IoError::InvalidFormat { reason: "BMP file too short for BITMAPINFOHEADER" });
    }
    parse_info_fields(data, offset, BmpHeaderVersion::Info, 40, 0, None, None)
}

/// Parses a `BITMAPV4HEADER` (108 bytes).
pub fn parse_v4_header(data: &[u8], offset: usize) -> (r: Result<BmpDibHeader, IoError>)
    ensures
        r == long_header(data@, offset as int, BmpHeaderVersion::V4),
{
    if data.len() < 108 || offset > data.len() - 108 {
        return Err(IoError::InvalidFormat { reason: "BMP file too short for BITMAPV4HEADER" });
    }
    let masks = read_embedded_masks(data, offset);
    let cs_type: u32 = read_u32_le(data, offset + 56).unwrap();
    parse_info_fields(data, offset, BmpHeaderVersion::V4, 108, cs_type, Some(masks), None)
}

/// Parses a `BITMAPV5HEADER` (124 bytes).
pub fn parse_v5_header(data: &[u8], offset: usize) -> (r: Result<BmpDibHeader, IoError>)
    ensures
        r == long_header(data@, offset as int, BmpHeaderVersion::V5),
{
    if data.len() < 124 || offset > data.len() - 124 {
        return Err(IoError::InvalidFormat { reason: "BMP file too short for BITMAPV5HEADER" });
    }
    let masks = read_embedded_masks(data, offset);
    let cs_type: u32 = read_u32_le(data, offset + 56).unwrap();
    let profile_data: u32 = read_u32_le(data, offset + 112).unwrap();
    let profile_size: u32 = read_u32_le(data, offset + 116).unwrap();
    let icc: Option<(u32, u32)> = if cs_type == LCS_PROFILE_EMBEDDED && profile_size > 0 {
        Some((profile_data, profile_size))
    } else {
        None
    };
    parse_info_fields(data, offset, BmpHeaderVersion::V5, 124, cs_type, Some(masks), icc)
}

fn read_embedded_masks(data: &[u8], offset: usize) -> (masks: BitfieldMasks)
    requires
        offset + 108 <= data@.len(),
    ensures
        masks == embedded_masks(data@, offset as int),
{
    let limit: usize = data.len();
    BitfieldMasks {
        r: read_u32_le(data, offset + 40).unwrap(),
        g: read_u32_le(data, offset + 44).unwrap(),
        b: read_u32_le(data, offset + 48).unwrap(),
        a: read_u32_le(data, offset + 52).unwrap(),
    }
}

/// Parses the fields that a `BITMAPINFOHEADER` and its successors share, and
/// joins them with what the caller read beyond.
fn parse_info_fields(
    data: &[u8],
    offset: usize,
    version: BmpHeaderVersion,
    header_size: u32,
    cs_type: u32,
    v4_masks: Option<BitfieldMasks>,
    icc_profile: Option<(u32, u32)>,
) -> (r: Result<BmpDibHeader, IoError>)
    requires
        !(version is Core),
        header_size == dib_size(version),
        offset + header_size <= data@.len(),
        ({
            let v4 = version is V4 || version is V5;
            &&& cs_type == if v4 {
                le::le32(data@, offset + 56)
            } else {
                0
            }
            &&& v4_masks == if v4 {
                Some(embedded_masks(data@, offset as int))
            } else {
                None
            }
            &&& icc_profile == if version is V5 && cs_type == LCS_PROFILE_EMBEDDED && le::le32(
                data@,
                offset + 116,
            ) > 0 {
                Some((le::le32(data@, offset + 112), le::le32(data@, offset + 116)))
            } else {
                None
            }
        }),
    ensures
        r == long_header(data@, offset as int, version),
{
    let limit: usize = data.len();
    let raw_width: i32 = read_i32_le(data, offset + 4).unwrap();
    let raw_height: i32 = read_i32_le(data, offset + 8).unwrap();
    let planes: u16 = read_u16_le(data, offset + 12).unwrap();
    let bit_count: u16 = read_u16_le(data, offset + 14).unwrap();
    let compression: u32 = read_u32_le(data, offset + 16).unwrap();
    let x_pels_per_meter: u32 = read_u32_le(data, offset + 24).unwrap();
    let y_pels_per_meter: u32 = read_u32_le(data, offset + 28).unwrap();
    let colors_used: u32 = read_u32_le(data, offset + 32).unwrap();
    if planes != 1 {
        return Err(IoError::InvalidFormat { reason: "BMP planes field must be 1" });
    }
    match validate_bit_count_info(bit_count) {
        Ok(()) => {},
        Err(e) => return Err(e),
    }
    match resolve_dimensions(raw_width, raw_height) {
        Err(e) => Err(e),
        Ok((width, height, top_down)) => Ok(
            BmpDibHeader {
                width,
                height,
                top_down,
                bit_count,
                compression,
                header_version: version,
                x_pels_per_meter,
                y_pels_per_meter,
                colors_used,
                cs_type,
                header_size,
                v4_masks,
                icc_profile,
                color_table_entry_size: 4,
            },
        ),
    }
}

/// Checks the bit count of a `BITMAPCOREHEADER` (1, 4, 8, or 24 only).
pub fn validate_bit_count_core(bit_count: u16) -> (r: Result<(), IoError>)
    ensures
        r == if valid_bit_count(BmpHeaderVersion::Core, bit_count) {
            Ok(())
        } else {
            Err(bit_count_error(BmpHeaderVersion::Core))
        },
{
    match bit_count {
        1 | 4 | 8 | 24 => Ok(()),
        _ => Err(
            IoError::InvalidFormat {
                reason: "invalid bit count for BITMAPCOREHEADER (must be 1, 4, 8, or 24)",
            },
        ),
    }
}

/// Checks the bit count of a `BITMAPINFOHEADER` or one of its successors (1, 4,
/// 8, 16, 24, or 32).
pub fn validate_bit_count_info(bit_count: u16) -> (r: Result<(), IoError>)
    ensures
        r == if valid_bit_count(BmpHeaderVersion::Info, bit_count) {
            Ok(())
        } else {
            Err(bit_count_error(BmpHeaderVersion::Info))
        },
{
    match bit_count {
        1 | 4 | 8 | 16 | 24 | 32 => Ok(()),
        _ => Err(
            IoError::InvalidFormat {
                reason: "invalid bit count (must be 1, 4, 8, 16, 24, or 32)",
            },
        ),
    }
}

/// Resolves signed dimensions into unsigned ones and a top-down flag: a
/// negative height means top-down storage.
pub fn resolve_dimensions(raw_width: i32, raw_height: i32) -> (r: Result<
    (u32, u32, bool),
    IoError,
>)
    ensures
        r == dimensions(raw_width, raw_height),
{
    if raw_width <= 0 {
        return Err(IoError::InvalidFormat { reason: "BMP width must be positive" });
    }
    if raw_height == 0 {
        return Err(IoError::InvalidFormat { reason: "BMP height must be non-zero" });
    }
    let width: u32 = raw_width as u32;
    if raw_height < 0 {
        let height: u32 = (-(raw_height as i64)) as u32;
        Ok((width, height, true))
    } else {
        Ok((width, raw_height as u32, false))
    }
}

/// Every header that parses is valid: both dimensions are positive, the bit
/// count is one that its version allows, and the fields that only some versions
/// have are there exactly for those.
pub proof fn law_parsed_header_is_valid(data: Seq<u8>)
    ensures
        dib_header(data) matches Ok(dib) ==> dib.wf(),
{
    reveal(dib_header);
}

} // verus!
