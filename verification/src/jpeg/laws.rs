//! What holds of every file that decodes, and of what is handed to the encoder.

use vstd::prelude::*;
use crate::error::IoError;
use crate::image::Raster;
use crate::jpeg::decode;
use crate::jpeg::decode::{JpegFrame, JpegPixelFormat};
use crate::jpeg::encode;
use crate::jpeg::encode::{JpegColorType, JpegPixel};
use crate::jpeg::exif;
use crate::jpeg::extent;
use crate::jpeg::markers;
use crate::jpeg::segment_laws;
use crate::jpeg::tiff;
use crate::jpeg::tiff::ByteOrder;
use crate::jpeg::{
    JpegBitDepth, JpegDecoded, JpegEncodeOptions, JpegImageModel, JpegPixelDensity,
};
use crate::pixel::{Srgb8, SrgbMono16, SrgbMono8};
use crate::text;

verus! {

/// The pixels of an image fill its dimensions.
pub open spec fn sound(image: JpegImageModel) -> bool {
    match image {
        JpegImageModel::SrgbMono8(raster) => raster.wf(),
        JpegImageModel::SrgbMono16(raster) => raster.wf(),
        JpegImageModel::Srgb8(raster) => raster.wf(),
    }
}

/// A decoded image has the dimensions and the kind of pixels that the first
/// frame header of its file states. It is not empty, its pixels fill its
/// dimensions, and its source bit depth is more than eight exactly for 16-bit
/// grayscale.
pub proof fn law_image_is_as_stated(data: Seq<u8>, d: JpegDecoded)
    requires
        decode::is_decoding(data, Ok(d)),
    ensures
        decode::stated_frame(data) matches Some(frame) && {
            &&& d@.image.width() == frame.width
            &&& d@.image.height() == frame.height
            &&& 1 <= d@.image.width()
            &&& 1 <= d@.image.height()
            &&& sound(d@.image)
            &&& d@.image is SrgbMono8 <==> frame.format is L8
            &&& d@.image is SrgbMono16 <==> frame.format is L16
            &&& d@.image is Srgb8 <==> frame.format is Rgb24
            &&& d@.metadata.source_bit_depth is Twelve <==> d@.image is SrgbMono16
        },
{
}

/// The metadata of a decoded file comes from the file: the comments and the
/// density are those that its segments hold, the parsed EXIF fields are those
/// of the raw EXIF bytes, and a profile is there exactly if the colour space
/// says so.
pub proof fn law_metadata_comes_from_file(data: Seq<u8>, d: JpegDecoded)
    requires
        decode::is_decoding(data, Ok(d)),
    ensures
        d@.metadata.comments == markers::comments(data),
        d@.metadata.pixel_density == markers::density(data),
        d@.metadata.exif == match d@.metadata.raw_exif {
            Some(raw) => exif::tiff_exif(raw),
            None => None,
        },
        d@.metadata.color_space is IccTagged <==> d@.metadata.icc_profile is Some,
{
}

/// Decoding a file twice, from memory or from a stream, gives the same metadata
/// and the same dimensions and kind of pixels, once both succeed.
pub proof fn law_decodings_agree(data: Seq<u8>, first: JpegDecoded, second: JpegDecoded)
    requires
        decode::is_decoding(data, Ok(first)),
        decode::is_decoding(data, Ok(second)),
    ensures
        first@.metadata == second@.metadata,
        first@.image.width() == second@.image.width(),
        first@.image.height() == second@.image.height(),
        first@.image.layout() == second@.image.layout(),
{
    law_image_is_as_stated(data, first);
    law_image_is_as_stated(data, second);
}

/// Decoding a file twice, from memory or from a stream, succeeds both times or
/// fails both times with the same kind of error, unless the file states lossless
/// compression.
pub proof fn law_decodings_end_alike(
    data: Seq<u8>,
    first: Result<JpegDecoded, IoError>,
    second: Result<JpegDecoded, IoError>,
)
    requires
        decode::is_decoding(data, first),
        decode::is_decoding(data, second),
        !decode::is_lossless(data),
    ensures
        first is Ok <==> second is Ok,
        first matches Err(e) ==> second matches Err(f) ==> {
            &&& e is Io <==> f is Io
            &&& e is DecodeFailed <==> f is DecodeFailed
            &&& e is UnsupportedFeature <==> f is UnsupportedFeature
            &&& e is UnsupportedFeature ==> e == f
        },
{
    if extent::within_reach(data) && decode::decoder_verdict(data, usize::BITS) is Decoded {
        if decode::stated_frame(data)->0.format is Cmyk32 {
            law_cmyk_is_refused(data, first);
            law_cmyk_is_refused(data, second);
        } else {
            law_readable_file_decodes(data, first);
            law_readable_file_decodes(data, second);
        }
    }
}

/// A file that is beyond the decoder's reach is refused, and no other file is
/// refused for that reason.
pub proof fn law_huge_image_is_refused(data: Seq<u8>, r: Result<JpegDecoded, IoError>)
    requires
        decode::is_decoding(data, r),
    ensures
        r == Err::<JpegDecoded, IoError>(decode::out_of_reach()) <==> !extent::within_reach(data),
{
    reveal_strlit("JPEG side above 65528 pixels in this block layout");
    reveal_strlit("CMYK JPEG is not supported — convert to RGB before loading");
}

/// A file that states CMYK, and that the decoder can read, is refused, whatever
/// its pixels.
pub proof fn law_cmyk_is_refused(data: Seq<u8>, r: Result<JpegDecoded, IoError>)
    requires
        decode::is_decoding(data, r),
        extent::within_reach(data),
        decode::decoder_verdict(data, usize::BITS) is Decoded,
        decode::stated_frame(data) matches Some(frame) && frame.format is Cmyk32,
    ensures
        r == Err::<JpegDecoded, IoError>(
            IoError::UnsupportedFeature {
                reason: "CMYK JPEG is not supported — convert to RGB before loading",
            },
        ),
{
}

/// Every file decodes that the decoder can read and that is within its reach,
/// unless the file states CMYK or lossless compression.
pub proof fn law_readable_file_decodes(data: Seq<u8>, r: Result<JpegDecoded, IoError>)
    requires
        decode::is_decoding(data, r),
        extent::within_reach(data),
        decode::decoder_verdict(data, usize::BITS) is Decoded,
        !decode::is_lossless(data),
        decode::stated_frame(data) matches Some(frame) && !(frame.format is Cmyk32),
    ensures
        r is Ok,
{
    let frame = decode::stated_frame(data)->0;
    let n = frame.width * frame.height;
    assert(n * 3 == 3 * n && n * 2 / 2 == n && n * 1 == n);
}

/// The only errors of a decode are inconsistent data, an unsupported feature
/// and a failure to read. None of them is an invalid format or stems from
/// encoding.
pub proof fn law_decode_errors(data: Seq<u8>, e: IoError)
    requires
        decode::is_decoding(data, Err(e)),
    ensures
        e is DecodeFailed || e is UnsupportedFeature || e is Io,
{
}

/// What follows in two files from two places on is the same.
pub open spec fn same_rest(a: Seq<u8>, p: int, b: Seq<u8>, q: int) -> bool {
    &&& 0 <= p <= a.len()
    &&& 0 <= q <= b.len()
    &&& a.skip(p) == b.skip(q)
}

proof fn lemma_same_byte(a: Seq<u8>, p: int, b: Seq<u8>, q: int, i: int)
    requires
        same_rest(a, p, b, q),
        0 <= i,
        p + i < a.len(),
    ensures
        q + i < b.len(),
        a[p + i] == b[q + i],
        a.len() - p == b.len() - q,
{
    assert(a.skip(p).len() == b.skip(q).len());
    assert(a.skip(p)[i] == b.skip(q)[i]);
}

proof fn lemma_same_rest_later(a: Seq<u8>, p: int, b: Seq<u8>, q: int, i: int)
    requires
        same_rest(a, p, b, q),
        0 <= i,
        p + i <= a.len(),
    ensures
        same_rest(a, p + i, b, q + i),
        a.len() - p == b.len() - q,
{
    assert(a.skip(p).len() == b.skip(q).len());
    assert(a.skip(p + i) =~= a.skip(p).skip(i));
    assert(b.skip(q + i) =~= b.skip(q).skip(i));
}

proof fn lemma_same_next_marker(a: Seq<u8>, p: int, b: Seq<u8>, q: int)
    requires
        same_rest(a, p, b, q),
    ensures
        match markers::next_marker(a, p) {
            Some(m) => p <= m && m + 1 < a.len() && markers::next_marker(b, q) == Some(m - p + q),
            None => markers::next_marker(b, q) is None,
        },
    decreases a.len() - p,
{
    assert(a.skip(p).len() == b.skip(q).len());
    if p < a.len() {
        lemma_same_byte(a, p, b, q, 0);
        if p + 1 < a.len() {
            lemma_same_byte(a, p, b, q, 1);
        }
        lemma_same_rest_later(a, p, b, q, 1);
        if !markers::is_marker(a, p) {
            lemma_same_next_marker(a, p + 1, b, q + 1);
        }
    }
}

proof fn lemma_same_next_segment(a: Seq<u8>, p: int, b: Seq<u8>, q: int)
    requires
        same_rest(a, p, b, q),
    ensures
        match markers::next_segment(a, p) {
            Some((marker, start, end)) => {
                &&& p < start <= end <= a.len()
                &&& start == end || start + 2 <= end
                &&& markers::next_segment(b, q) == Some((marker, start - p + q, end - p + q))
            },
            None => markers::next_segment(b, q) is None,
        },
{
    lemma_same_next_marker(a, p, b, q);
    if let Some(m) = markers::next_marker(a, p) {
        let at = m + 2;
        lemma_same_byte(a, p, b, q, m + 1 - p);
        if at + 2 <= a.len() {
            lemma_same_byte(a, p, b, q, at - p);
            lemma_same_byte(a, p, b, q, at + 1 - p);
        }
    }
}

proof fn lemma_same_subrange(a: Seq<u8>, p: int, b: Seq<u8>, q: int, i: int, j: int)
    requires
        same_rest(a, p, b, q),
        0 <= i <= j,
        p + j <= a.len(),
    ensures
        a.subrange(p + i, p + j) == b.subrange(q + i, q + j),
{
    assert(a.skip(p).len() == b.skip(q).len());
    assert(a.subrange(p + i, p + j) =~= a.skip(p).subrange(i, j));
    assert(b.subrange(q + i, q + j) =~= b.skip(q).subrange(i, j));
}

proof fn lemma_same_scans(a: Seq<u8>, p: int, b: Seq<u8>, q: int)
    requires
        same_rest(a, p, b, q),
    ensures
        markers::comments_from(a, p) == markers::comments_from(b, q),
        markers::density_from(a, p) == markers::density_from(b, q),
    decreases a.len() - p,
{
    lemma_same_next_segment(a, p, b, q);
    if let Some((marker, start, end)) = markers::next_segment(a, p) {
        lemma_same_rest_later(a, p, b, q, end - p);
        lemma_same_scans(a, end, b, end - p + q);
        if start + 2 <= end {
            lemma_same_subrange(a, p, b, q, start + 2 - p, end - p);
        }
    }
}

/// A segment with the given marker and payload.
pub open spec fn segment(marker: u8, payload: Seq<u8>) -> Seq<u8> {
    let length = payload.len() + 2;
    seq![0xFFu8, marker, (length / 0x100) as u8, (length % 0x100) as u8] + payload
}

/// A file with a segment inserted right after the start of the image.
pub open spec fn with_segment(data: Seq<u8>, marker: u8, payload: Seq<u8>) -> Seq<u8> {
    data.take(2) + segment(marker, payload) + data.skip(2)
}

proof fn lemma_inserted_segment(data: Seq<u8>, marker: u8, payload: Seq<u8>)
    requires
        markers::starts_image(data),
        payload.len() <= 0xFFFD,
        marker != 0xFF && marker != 0xDA && !markers::is_standalone(marker),
    ensures
        ({
            let file = with_segment(data, marker, payload);
            let end = 6 + payload.len() as int;
            &&& markers::starts_image(file)
            &&& markers::next_segment(file, 2) == Some((marker, 4int, end))
            &&& file.subrange(6, end) == payload
            &&& same_rest(file, end, data, 2)
        }),
{
    let file = with_segment(data, marker, payload);
    let length = payload.len() + 2;
    let end = 6 + payload.len() as int;
    assert(file[0] == 0xFF && file[1] == 0xD8);
    assert(file[2] == 0xFF && file[3] == marker);
    assert(file[4] == (length / 0x100) as u8 && file[5] == (length % 0x100) as u8);
    assert(markers::is_marker(file, 2));
    assert(markers::next_marker(file, 2) == Some(2int));
    assert(markers::segment_length(file, 4) == Some(length as int));
    assert(file.subrange(6, end) =~= payload);
    assert(file.skip(end) =~= data.skip(2));
}

/// A comment inserted at the start of a file comes first, and the others stay
/// as they are. The density stays too.
pub proof fn law_inserted_comment(data: Seq<u8>, payload: Seq<u8>)
    requires
        markers::starts_image(data),
        payload.len() <= 0xFFFD,
    ensures
        markers::comments(with_segment(data, 0xFE, payload)) == seq![text::byte_text(payload)]
            + markers::comments(data),
        markers::density(with_segment(data, 0xFE, payload)) == markers::density(data),
{
    lemma_inserted_segment(data, 0xFE, payload);
    lemma_same_scans(with_segment(data, 0xFE, payload), 6 + payload.len() as int, data, 2);
}

/// A JFIF header inserted at the start of a file decides the density, and the
/// comments stay as they are.
pub proof fn law_inserted_jfif_header(data: Seq<u8>, payload: Seq<u8>)
    requires
        markers::starts_image(data),
        payload.len() <= 0xFFFD,
        markers::is_jfif(payload),
    ensures
        markers::density(with_segment(data, 0xE0, payload)) == Some(markers::jfif_density(payload)),
        markers::comments(with_segment(data, 0xE0, payload)) == markers::comments(data),
{
    lemma_inserted_segment(data, 0xE0, payload);
    lemma_same_scans(with_segment(data, 0xE0, payload), 6 + payload.len() as int, data, 2);
}

/// A segment that is no comment, inserted at the start of a file, leaves the
/// comments as they are, and the density too unless it is a JFIF header.
pub proof fn law_inserted_segment_keeps_comments(data: Seq<u8>, marker: u8, payload: Seq<u8>)
    requires
        markers::starts_image(data),
        payload.len() <= 0xFFFD,
        segment_laws::has_length(marker),
        marker != 0xFE,
    ensures
        markers::comments(with_segment(data, marker, payload)) == markers::comments(data),
        marker != 0xE0 || payload.len() < 12 || payload[0] != 0x4A ==> markers::density(
            with_segment(data, marker, payload),
        ) == markers::density(data),
{
    lemma_inserted_segment(data, marker, payload);
    lemma_same_scans(with_segment(data, marker, payload), 6 + payload.len() as int, data, 2);
    if payload.len() >= 12 && payload[0] != 0x4A {
        assert(payload.take(5)[0] == payload[0]);
    }
}

/// The search for segments from `pos` on meets compressed image data.
pub open spec fn meets_scan(data: Seq<u8>, pos: int) -> bool
    decreases data.len() - pos,
{
    if pos < 0 {
        false
    } else {
        match markers::next_marker(data, pos) {
            Some(p) if markers::is_start_of_scan(data[p + 1]) => true,
            _ => match markers::next_segment(data, pos) {
                None => false,
                Some((_, start, end)) => {
                    proof {
                        markers::lemma_next_segment_advances(data, pos);
                    }
                    meets_scan(data, end)
                },
            },
        }
    }
}

proof fn lemma_marker_in_longer_file(data: Seq<u8>, more: Seq<u8>, pos: int)
    requires
        0 <= pos,
        markers::next_marker(data, pos) is Some,
    ensures
        markers::next_marker(data + more, pos) == markers::next_marker(data, pos),
        markers::next_marker(data, pos) matches Some(p) && pos <= p && p + 1 < data.len(),
    decreases data.len() - pos,
{
    if !markers::is_marker(data, pos) {
        assert(pos + 1 < data.len()) by {
            if pos + 1 >= data.len() {
                assert(markers::next_marker(data, pos + 1) is None);
            }
        }
        lemma_marker_in_longer_file(data, more, pos + 1);
    }
}

proof fn lemma_scans_in_longer_file(data: Seq<u8>, more: Seq<u8>, pos: int)
    requires
        0 <= pos,
        meets_scan(data, pos),
    ensures
        markers::comments_from(data + more, pos) == markers::comments_from(data, pos),
        markers::density_from(data + more, pos) == markers::density_from(data, pos),
    decreases data.len() - pos,
{
    lemma_marker_in_longer_file(data, more, pos);
    markers::lemma_next_segment_advances(data, pos);
    if let Some((marker, start, end)) = markers::next_segment(data, pos) {
        assert(markers::next_segment(data + more, pos) == Some((marker, start, end)));
        lemma_scans_in_longer_file(data, more, end);
        if start + 2 <= end {
            assert((data + more).subrange(start + 2, end) =~= data.subrange(start + 2, end));
        }
    }
}

/// Once compressed image data starts, nothing behind it adds a comment or a
/// density.
pub proof fn law_scan_data_is_not_searched(data: Seq<u8>, more: Seq<u8>)
    requires
        meets_scan(data, 2),
    ensures
        markers::comments(data + more) == markers::comments(data),
        markers::density(data + more) == markers::density(data),
{
    lemma_marker_in_longer_file(data, more, 2);
    lemma_scans_in_longer_file(data, more, 2);
}

/// The pixel format that a colour type is read back in.
pub open spec fn read_back_format(color: JpegColorType) -> JpegPixelFormat {
    match color {
        JpegColorType::Luma => JpegPixelFormat::L8,
        JpegColorType::Rgb => JpegPixelFormat::Rgb24,
    }
}

/// A file that starts as every encoded file does states the dimensions and the
/// colour type that it was written with, and a pixel aspect ratio of one to
/// one.
pub proof fn law_encoded_headers(
    file: Seq<u8>,
    width: u16,
    height: u16,
    color: JpegColorType,
    progressive: bool,
)
    requires
        encode::opens_with_headers(file, width, height, color, progressive),
    ensures
        decode::stated_frame(file) == Some(
            JpegFrame { width, height, format: read_back_format(color) },
        ),
        !decode::is_lossless(file),
        markers::density(file) == Some(JpegPixelDensity::AspectRatio { x: 1, y: 1 }),
{
    let start = encode::jfif_start();
    let frame = encode::frame_start(width, height, color, progressive);
    assert forall|i: int| 0 <= i < 20 implies #[trigger] file[i] == start[i] by {
        assert(file.take(20)[i] == file[i]);
    }
    assert forall|i: int| 20 <= i < 30 implies #[trigger] file[i] == frame[i - 20] by {
        assert(file.subrange(20, 30)[i - 20] == file[i]);
    }
    assert(file[0] == 0xFF && file[1] == 0xD8 && file[2] == 0xFF && file[3] == 0xE0);
    assert(file[4] == 0 && file[5] == 16);
    assert(markers::is_marker(file, 2));
    assert(markers::next_marker(file, 2) == Some(2int));
    assert(markers::next_segment(file, 2) == Some((0xE0u8, 4int, 20int)));
    let header = file.subrange(6, 20);
    assert forall|i: int| 0 <= i < 14 implies #[trigger] header[i] == start[i + 6] by {
        assert(header[i] == file[i + 6]);
    }
    assert(header.take(5) =~= seq![0x4Au8, 0x46u8, 0x49u8, 0x46u8, 0u8]);
    assert(header[7] == 0 && header[8] == 0 && header[9] == 1 && header[10] == 0 && header[11]
        == 1);
    let c = encode::channels(color);
    assert(file[20] == 0xFF && decode::is_frame_marker(file[21]));
    assert(file[22] == 0 && file[23] == 8 + 3 * c);
    assert(markers::is_marker(file, 20));
    assert(markers::next_marker(file, 20) == Some(20int));
    assert(markers::next_segment(file, 20) == Some((file[21], 22int, 30 + 3 * c)));
    assert(file[24] == 8 && file[29] == c);
    assert(file[25] == height / 0x100 && file[26] == height % 0x100);
    assert(file[27] == width / 0x100 && file[28] == width % 0x100);
    assert(decode::frame_header_from(file, 20) == Some((file[21], 22int)));
    assert(decode::frame_header_from(file, 2) == decode::frame_header_from(file, 20));
}

/// A decoded file has the dimensions and the kind of pixels of an image that
/// was encoded, and the metadata that every encoded file has.
pub open spec fn comes_back<P: JpegPixel>(image: Raster<P>, d: JpegDecoded) -> bool {
    &&& d@.image.width() == image.width
    &&& d@.image.height() == image.height
    &&& d@.image is SrgbMono8 <==> P::JPEG_COLOR_TYPE is Luma
    &&& d@.image is Srgb8 <==> P::JPEG_COLOR_TYPE is Rgb
    &&& d@.metadata.source_bit_depth is Eight
    &&& d@.metadata.pixel_density == Some(JpegPixelDensity::AspectRatio { x: 1, y: 1 })
}

/// An encoded image that the decoder can read decodes, and comes back with its
/// dimensions and its kind of pixels, eight bits deep, with a pixel aspect
/// ratio of one to one. Sides of up to 65528 pixels are within the decoder's
/// reach whatever the options.
pub proof fn law_encode_then_decode<P: JpegPixel>(
    image: Raster<P>,
    options: JpegEncodeOptions,
    file: Vec<u8>,
    r: Result<JpegDecoded, IoError>,
)
    requires
        encode::is_encoding(image, options, Ok(file)),
        decode::is_decoding(file@, r),
    ensures
        r is Ok <==> extent::within_reach(file@) && decode::decoder_verdict(file@, usize::BITS)
            is Decoded,
        r matches Ok(d) ==> comes_back(image, d),
        image.width <= extent::LARGEST_SIDE && image.height <= extent::LARGEST_SIDE
            ==> extent::within_reach(file@),
{
    law_encoded_headers(
        file@,
        image.width as u16,
        image.height as u16,
        P::JPEG_COLOR_TYPE,
        options.progressive,
    );
    if image.width <= extent::LARGEST_SIDE && image.height <= extent::LARGEST_SIDE {
        extent::law_short_sides_fit(file@);
    }
    if extent::within_reach(file@) && decode::decoder_verdict(file@, usize::BITS) is Decoded {
        law_readable_file_decodes(file@, r);
    }
    if let Ok(d) = r {
        law_image_is_as_stated(file@, d);
        law_metadata_comes_from_file(file@, d);
    }
}

/// Every image that decodes can be encoded again, except 16-bit grayscale,
/// which is refused.
pub proof fn law_decoded_image_encodes_again(
    data: Seq<u8>,
    d: JpegDecoded,
    options: JpegEncodeOptions,
    r: Result<Vec<u8>, IoError>,
)
    requires
        decode::is_decoding(data, Ok(d)),
        encode::is_image_encoding(d@.image, options, r),
    ensures
        r is Ok <==> !(d@.image is SrgbMono16),
{
    law_image_is_as_stated(data, d);
}

/// Encoding depends on nothing but the pixels and the options: two encodings
/// of an image with the same options give the same file. A quality out of range
/// counts as the nearest one in range.
pub proof fn law_encodings_agree<P: JpegPixel>(
    image: Raster<P>,
    options: JpegEncodeOptions,
    other: JpegEncodeOptions,
    first: Vec<u8>,
    second: Vec<u8>,
)
    requires
        encode::used_quality(options.quality) == encode::used_quality(other.quality),
        options.sampling_factor == other.sampling_factor,
        options.progressive == other.progressive,
        encode::is_encoding(image, options, Ok(first)),
        encode::is_encoding(image, other, Ok(second)),
    ensures
        first@ == second@,
        1 <= encode::used_quality(options.quality) <= 100,
{
}

proof fn lemma_gray_samples(pixels: Seq<SrgbMono8>)
    ensures
        pixels.map_values(|p: SrgbMono8| p.samples()).flatten() == pixels.map_values(
            |p: SrgbMono8| p.v,
        ),
    decreases pixels.len(),
{
    let f = |p: SrgbMono8| p.samples();
    let g = |p: SrgbMono8| p.v;
    if pixels.len() > 0 {
        let rest = pixels.drop_first();
        lemma_gray_samples(rest);
        assert(pixels.map_values(f).drop_first() =~= rest.map_values(f));
        assert(pixels.map_values(g) =~= seq![pixels.first().v] + rest.map_values(g));
    } else {
        assert(pixels.map_values(f) =~= Seq::empty());
        assert(pixels.map_values(g) =~= Seq::empty());
    }
}

proof fn lemma_color_samples(pixels: Seq<Srgb8>)
    ensures
        pixels.map_values(|p: Srgb8| p.samples()).flatten() == Seq::new(
            3 * pixels.len(),
            |i: int| pixels[i / 3].samples()[i % 3],
        ),
    decreases pixels.len(),
{
    let f = |p: Srgb8| p.samples();
    let flat = Seq::new(3 * pixels.len(), |i: int| pixels[i / 3].samples()[i % 3]);
    if pixels.len() > 0 {
        let rest = pixels.drop_first();
        lemma_color_samples(rest);
        assert(pixels.map_values(f).drop_first() =~= rest.map_values(f));
        assert(flat =~= pixels.first().samples() + Seq::new(
            3 * rest.len(),
            |i: int| rest[i / 3].samples()[i % 3],
        ));
    } else {
        assert(pixels.map_values(f) =~= Seq::empty());
        assert(flat =~= Seq::empty());
    }
}

/// The samples of a grayscale image, taken as decoder output, are the image:
/// nothing is lost or reordered on the way to the encoder.
pub proof fn law_gray_samples_read_back(image: Raster<SrgbMono8>, order: ByteOrder)
    requires
        image.wf(),
    ensures
        decode::image_of_pixels(
            encode::image_samples(image),
            image.width,
            image.height,
            JpegPixelFormat::L8,
            order,
        ) == Ok::<(JpegImageModel, JpegBitDepth), IoError>(
            (JpegImageModel::SrgbMono8(image), JpegBitDepth::Eight),
        ),
{
    lemma_gray_samples(image.pixels);
    let samples = encode::image_samples(image);
    assert(samples.map_values(|v: u8| SrgbMono8 { v }) =~= image.pixels);
}

/// The samples of a colour image, taken as decoder output, are the image:
/// nothing is lost or reordered on the way to the encoder.
pub proof fn law_color_samples_read_back(image: Raster<Srgb8>, order: ByteOrder)
    requires
        image.wf(),
    ensures
        decode::image_of_pixels(
            encode::image_samples(image),
            image.width,
            image.height,
            JpegPixelFormat::Rgb24,
            order,
        ) == Ok::<(JpegImageModel, JpegBitDepth), IoError>(
            (JpegImageModel::Srgb8(image), JpegBitDepth::Eight),
        ),
{
    lemma_color_samples(image.pixels);
    let samples = encode::image_samples(image);
    assert(Seq::new(
        image.width * image.height,
        |i: int| Srgb8 { r: samples[3 * i], g: samples[3 * i + 1], b: samples[3 * i + 2] },
    ) =~= image.pixels);
}

/// A request reaches the encoder as it is: the samples of the image, its
/// dimensions, its colour type, the sampling and the mode that the options ask
/// for, and the quality. A quality from 1 to 100 is used itself, one below counts
/// as 1, and one above as 100.
pub proof fn law_request_reaches_encoder<P: JpegPixel>(
    image: Raster<P>,
    options: JpegEncodeOptions,
    file: Vec<u8>,
    quality: u8,
)
    requires
        encode::is_encoding(image, options, Ok(file)),
        1 <= quality <= 100,
        options.quality < 1 ==> quality == 1,
        options.quality > 100 ==> quality == 100,
        1 <= options.quality <= 100 ==> quality == options.quality,
    ensures
        1 <= image.width <= 0xFFFF,
        1 <= image.height <= 0xFFFF,
        file@ == encode::encoder_output(
            encode::image_samples(image),
            image.width as u16,
            image.height as u16,
            P::JPEG_COLOR_TYPE,
            quality,
            options.sampling_factor,
            options.progressive,
        ),
{
}

/// An image is encoded exactly if neither dimension is zero or above 65535. A
/// dimension above is an unsupported feature, and otherwise one of zero is what
/// the encoder refuses.
pub proof fn law_dimensions_decide_encoding<P: JpegPixel>(
    image: Raster<P>,
    options: JpegEncodeOptions,
    r: Result<Vec<u8>, IoError>,
)
    requires
        encode::is_encoding(image, options, r),
    ensures
        r is Ok <==> 1 <= image.width <= 0xFFFF && 1 <= image.height <= 0xFFFF,
        image.width > 0xFFFF || image.height > 0xFFFF <==> r matches Err(
            IoError::UnsupportedFeature { .. },
        ),
        r matches Err(e) ==> e is UnsupportedFeature || e is EncodeFailed,
{
}

/// An image of a file is encoded as the kind of image that it is, and 16-bit
/// grayscale is an unsupported feature.
pub proof fn law_image_is_encoded_by_kind(
    image: JpegImageModel,
    options: JpegEncodeOptions,
    r: Result<Vec<u8>, IoError>,
)
    requires
        encode::is_image_encoding(image, options, r),
    ensures
        image matches JpegImageModel::SrgbMono8(raster) ==> encode::is_encoding(raster, options, r),
        image matches JpegImageModel::Srgb8(raster) ==> encode::is_encoding(raster, options, r),
        image is SrgbMono16 ==> r matches Err(IoError::UnsupportedFeature { .. }),
{
}

/// The samples of a grayscale image are its pixels, row by row.
pub proof fn law_samples_of_gray(image: Raster<SrgbMono8>, i: int)
    requires
        0 <= i < image.pixels.len(),
    ensures
        encode::image_samples(image).len() == image.pixels.len(),
        encode::image_samples(image)[i] == image.pixels[i].v,
{
    lemma_gray_samples(image.pixels);
}

/// The samples of a colour image are red, green and blue of its pixels, row by
/// row.
pub proof fn law_samples_of_color(image: Raster<Srgb8>, i: int)
    requires
        0 <= i < image.pixels.len(),
    ensures
        encode::image_samples(image).len() == 3 * image.pixels.len(),
        encode::image_samples(image)[3 * i] == image.pixels[i].r,
        encode::image_samples(image)[3 * i + 1] == image.pixels[i].g,
        encode::image_samples(image)[3 * i + 2] == image.pixels[i].b,
{
    lemma_color_samples(image.pixels);
}

/// The pixels of an image are the bytes that the decoder gave, row by row: one
/// byte for each grayscale pixel, two bytes in the given order for each pixel of
/// 16-bit grayscale, and red, green and blue for each colour pixel.
pub open spec fn shows_bytes(image: JpegImageModel, bytes: Seq<u8>, order: ByteOrder) -> bool {
    match image {
        JpegImageModel::SrgbMono8(raster) => {
            &&& raster.pixels.len() == bytes.len()
            &&& forall|i: int|
                0 <= i < raster.pixels.len() ==> (#[trigger] raster.pixels[i]).v == bytes[i]
        },
        JpegImageModel::SrgbMono16(raster) => {
            &&& raster.pixels.len() == bytes.len() / 2
            &&& forall|i: int|
                0 <= i < raster.pixels.len() ==> (#[trigger] raster.pixels[i]).v == match order {
                    ByteOrder::Little => bytes[2 * i] + 256 * bytes[2 * i + 1],
                    ByteOrder::Big => 256 * bytes[2 * i] + bytes[2 * i + 1],
                }
        },
        JpegImageModel::Srgb8(raster) => {
            &&& 3 * raster.pixels.len() == bytes.len()
            &&& forall|i: int|
                #![trigger raster.pixels[i]]
                0 <= i < raster.pixels.len() ==> raster.pixels[i].r == bytes[3 * i]
                    && raster.pixels[i].g == bytes[3 * i + 1] && raster.pixels[i].b == bytes[3 * i
                    + 2]
        },
    }
}

/// Bytes of the decoder become an image of the stated dimensions exactly if their
/// number is right for the format, and the image shows them. Four bytes per pixel
/// are an unsupported feature, whatever their number.
pub proof fn law_bytes_become_image(
    bytes: Seq<u8>,
    width: nat,
    height: nat,
    format: JpegPixelFormat,
    order: ByteOrder,
)
    ensures
        match decode::image_of_pixels(bytes, width, height, format, order) {
            Ok((image, depth)) => {
                &&& shows_bytes(image, bytes, order)
                &&& image.width() == width && image.height() == height
                &&& sound(image)
                &&& image is SrgbMono8 <==> format is L8
                &&& image is SrgbMono16 <==> format is L16
                &&& image is Srgb8 <==> format is Rgb24
                &&& depth is Twelve <==> format is L16
            },
            Err(e) => {
                &&& e is UnsupportedFeature <==> format is Cmyk32
                &&& e is DecodeFailed <==> !(format is Cmyk32)
            },
        },
        decode::image_of_pixels(bytes, width, height, format, order) is Ok <==> {
            ||| format is L8 && bytes.len() == width * height
            ||| format is L16 && bytes.len() / 2 == width * height
            ||| format is Rgb24 && bytes.len() == 3 * (width * height)
        },
{
}

/// What the decoder reports of a file comes through: its EXIF data and its
/// profile are those of the metadata, and the image shows the bytes that the
/// decoder made of the image data.
pub proof fn law_decoder_reports_come_through(data: Seq<u8>, d: JpegDecoded)
    requires
        decode::is_decoding(data, Ok(d)),
    ensures
        decode::decoder_verdict(data, usize::BITS) matches decode::DecoderVerdict::Decoded(facts)
            && d@.metadata.raw_exif == facts.exif && d@.metadata.icc_profile == facts.icc,
        exists|bytes: Seq<u8>| #[trigger]
            decode::decoder_may_yield(data, bytes) && shows_bytes(
                d@.image,
                bytes,
                decode::machine_order(),
            ),
{
    let facts = decode::decoder_verdict(data, usize::BITS)->Decoded_0;
    let bytes = choose|bytes: Seq<u8>|
        #![trigger decode::accepted_file(
            facts,
            bytes,
            markers::comments(data),
            markers::density(data),
            decode::machine_order(),
        )]
        decode::decoder_may_yield(data, bytes) && decode::fits_file(data, facts.frame, bytes)
            && decode::agrees(
            Ok(d),
            decode::accepted_file(
                facts,
                bytes,
                markers::comments(data),
                markers::density(data),
                decode::machine_order(),
            ),
        );
    assert(decode::decoder_may_yield(data, bytes));
    let frame = facts.frame->0;
    law_bytes_become_image(
        bytes,
        frame.width as nat,
        frame.height as nat,
        frame.format,
        decode::machine_order(),
    );
}

/// A file that the decoder fails on fails alike: a failure to read is handed on
/// as one, and every other failure is a failure to decode.
pub proof fn law_decoder_failures_come_through(data: Seq<u8>, r: Result<JpegDecoded, IoError>)
    requires
        decode::is_decoding(data, r),
        extent::within_reach(data),
    ensures
        decode::decoder_verdict(data, usize::BITS) is IoFailure ==> r matches Err(IoError::Io(_)),
        r matches Err(IoError::Io(_)) ==> decode::decoder_verdict(data, usize::BITS) is IoFailure,
        decode::decoder_verdict(data, usize::BITS) is CodecFailure ==> r matches Err(
            IoError::DecodeFailed { .. },
        ),
{
}

/// Output of the decoder without a frame is a failure to decode, and with one it
/// becomes what its bytes become, with the metadata of the file.
pub proof fn law_output_needs_a_frame(
    facts: decode::DecoderFacts,
    bytes: Seq<u8>,
    comments: Seq<Seq<char>>,
    density: Option<JpegPixelDensity>,
    order: ByteOrder,
)
    ensures
        match decode::accepted_file(facts, bytes, comments, density, order) {
            Ok(d) => {
                &&& facts.frame matches Some(frame) && d.image.width() == frame.width
                    && d.image.height() == frame.height
                &&& shows_bytes(d.image, bytes, order)
                &&& d.metadata.raw_exif == facts.exif
                &&& d.metadata.icc_profile == facts.icc
                &&& d.metadata.comments == comments
                &&& d.metadata.pixel_density == density
                &&& d.metadata.color_space is IccTagged <==> facts.icc is Some
                &&& facts.exif is None ==> d.metadata.exif is None
                &&& facts.exif matches Some(raw) ==> d.metadata.exif == exif::tiff_exif(raw)
            },
            Err(e) => {
                &&& facts.frame is None ==> e is DecodeFailed
                &&& e is DecodeFailed || e is UnsupportedFeature
            },
        },
{
    if let Some(frame) = facts.frame {
        law_bytes_become_image(
            bytes,
            frame.width as nat,
            frame.height as nat,
            frame.format,
            order,
        );
    }
}

/// 16-bit samples are put together in the byte order of the machine.
pub proof fn law_samples_in_machine_order(bytes: Seq<u8>, width: nat, height: nat, i: int)
    requires
        bytes.len() == 2 * (width * height),
        0 <= i < width * height,
    ensures
        decode::image_of_pixels(
            bytes,
            width,
            height,
            JpegPixelFormat::L16,
            decode::machine_order(),
        ) matches Ok((JpegImageModel::SrgbMono16(raster), _)) && raster.pixels[i].v
            == if vstd::endian::endianness() is Little {
            bytes[2 * i] + 256 * bytes[2 * i + 1]
        } else {
            256 * bytes[2 * i] + bytes[2 * i + 1]
        },
{
}

} // verus!
