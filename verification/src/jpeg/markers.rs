//! Marker segments of a JPEG file: comments and pixel density.

use vstd::prelude::*;
use crate::jpeg::JpegPixelDensity;
use crate::jpeg::tiff;
use crate::jpeg::tiff::ByteOrder;
use crate::text;
use crate::text::decode_text;

verus! {

/// A marker stands at `p`: a byte of all ones followed by one that is not.
pub open spec fn is_marker(data: Seq<u8>, p: int) -> bool {
    p + 1 < data.len() && data[p] == 0xFF && data[p + 1] != 0xFF
}

/// Where the first marker from `pos` on stands.
pub open spec fn next_marker(data: Seq<u8>, pos: int) -> Option<int>
    decreases data.len() - pos,
{
    if pos >= data.len() {
        None
    } else if is_marker(data, pos) {
        Some(pos)
    } else {
        next_marker(data, pos + 1)
    }
}

/// Markers that stand for themselves, without a segment behind them.
pub open spec fn is_standalone(marker: u8) -> bool {
    marker == 0x00 || marker == 0x01 || 0xD0 <= marker <= 0xD7
}

/// The marker after which compressed image data starts.
pub open spec fn is_start_of_scan(marker: u8) -> bool {
    marker == 0xDA
}

/// The length that a segment at `at` states: it counts the two bytes that
/// state it. `None` if the segment does not lie inside the data.
pub open spec fn segment_length(data: Seq<u8>, at: int) -> Option<int> {
    if at + 2 > data.len() {
        None
    } else {
        let length = tiff::number16(ByteOrder::Big, data, at) as int;
        if length < 2 || at + length > data.len() {
            None
        } else {
            Some(length)
        }
    }
}

/// The next segment from `pos` on, before the compressed image data: its
/// marker, where it starts and where it ends. A marker that stands for itself
/// has an empty segment.
pub open spec fn next_segment(data: Seq<u8>, pos: int) -> Option<(u8, int, int)> {
    match next_marker(data, pos) {
        None => None,
        Some(p) => {
            let marker = data[p + 1];
            let at = p + 2;
            if is_start_of_scan(marker) {
                None
            } else if is_standalone(marker) {
                Some((marker, at, at))
            } else {
                match segment_length(data, at) {
                    None => None,
                    Some(length) => Some((marker, at, at + length)),
                }
            }
        },
    }
}

/// A next segment ends beyond where the search for it began.
pub proof fn lemma_next_segment_advances(data: Seq<u8>, pos: int)
    requires
        0 <= pos,
    ensures
        next_segment(data, pos) matches Some((_, start, end)) ==> pos < start <= end <= data.len(),
{
    lemma_next_marker_ahead(data, pos);
}

pub proof fn lemma_next_marker_ahead(data: Seq<u8>, pos: int)
    requires
        0 <= pos,
    ensures
        next_marker(data, pos) matches Some(p) ==> pos <= p && is_marker(data, p),
    decreases data.len() - pos,
{
    if pos < data.len() && !is_marker(data, pos) {
        lemma_next_marker_ahead(data, pos + 1);
    }
}

/// The comments from `pos` on, in file order. The search ends at the compressed
/// image data and at the first segment that does not lie inside the data.
pub open spec fn comments_from(data: Seq<u8>, pos: int) -> Seq<Seq<char>>
    decreases data.len() - pos,
{
    if pos < 0 {
        Seq::empty()
    } else {
        match next_segment(data, pos) {
            None => Seq::empty(),
            Some((marker, start, end)) => {
                proof {
                    lemma_next_segment_advances(data, pos);
                }
                let rest = comments_from(data, end);
                if marker == 0xFE {
                    seq![text::byte_text(data.subrange(start + 2, end))] + rest
                } else {
                    rest
                }
            },
        }
    }
}

/// The file starts as every JPEG file does.
pub open spec fn starts_image(data: Seq<u8>) -> bool {
    data.len() >= 2 && data[0] == 0xFF && data[1] == 0xD8
}

/// The comments of a JPEG file.
pub open spec fn comments(data: Seq<u8>) -> Seq<Seq<char>> {
    if starts_image(data) {
        comments_from(data, 2)
    } else {
        Seq::empty()
    }
}

/// A segment is a JFIF header: it starts with `JFIF` and a zero, and is long
/// enough to hold the pixel density.
pub open spec fn is_jfif(segment: Seq<u8>) -> bool {
    segment.len() >= 12 && segment.take(5) == seq![0x4Au8, 0x46u8, 0x49u8, 0x46u8, 0u8]
}

/// The pixel density of a JFIF header.
pub open spec fn jfif_density(segment: Seq<u8>) -> JpegPixelDensity {
    let x = tiff::number16(ByteOrder::Big, segment, 8);
    let y = tiff::number16(ByteOrder::Big, segment, 10);
    if segment[7] == 1 {
        JpegPixelDensity::Dpi { x, y }
    } else if segment[7] == 2 {
        JpegPixelDensity::Dpcm { x, y }
    } else {
        JpegPixelDensity::AspectRatio { x, y }
    }
}

/// The pixel density of the first JFIF header from `pos` on. The search ends
/// as that for comments does.
pub open spec fn density_from(data: Seq<u8>, pos: int) -> Option<JpegPixelDensity>
    decreases data.len() - pos,
{
    if pos < 0 {
        None
    } else {
        match next_segment(data, pos) {
            None => None,
            Some((marker, start, end)) => {
                proof {
                    lemma_next_segment_advances(data, pos);
                }
                if marker == 0xE0 && is_jfif(data.subrange(start + 2, end)) {
                    Some(jfif_density(data.subrange(start + 2, end)))
                } else {
                    density_from(data, end)
                }
            },
        }
    }
}

/// The pixel density of a JPEG file.
pub open spec fn density(data: Seq<u8>) -> Option<JpegPixelDensity> {
    if starts_image(data) {
        density_from(data, 2)
    } else {
        None
    }
}

/// Texts as mathematical values.
pub open spec fn texts_view(texts: Seq<String>) -> Seq<Seq<char>> {
    texts.map_values(|s: String| s@)
}

/// Finds the first marker from `pos` on.
pub(crate) fn find_marker(data: &[u8], pos: usize) -> (p: Option<usize>)
    ensures
        match next_marker(data@, pos as int) {
            Some(q) => p matches Some(found) && found == q,
            None => p is None,
        },
{
    let mut at: usize = pos;
    while at < data.len()
        invariant
            next_marker(data@, at as int) == next_marker(data@, pos as int),
        decreases data@.len() - at,
    {
        if data.len() - at >= 2 && data[at] == 0xFF && data[at + 1] != 0xFF {
            return Some(at);
        }
        at += 1;
    }
    None
}

/// Finds the next segment from `pos` on, before the compressed image data.
pub(crate) fn find_segment(data: &[u8], pos: usize) -> (s: Option<(u8, usize, usize)>)
    ensures
        match next_segment(data@, pos as int) {
            Some((marker, start, end)) => {
                s matches Some(found) && found.0 == marker && found.1 == start && found.2 == end
            },
            None => s is None,
        },
        s matches Some(found) ==> pos < found.1 <= found.2 <= data@.len() && (found.1 == found.2
            || found.1 + 2 <= found.2),
{
    proof {
        lemma_next_segment_advances(data@, pos as int);
        lemma_next_marker_ahead(data@, pos as int);
    }
    let limit: usize = data.len();
    let p: usize = match find_marker(data, pos) {
        Some(p) => p,
        None => return None,
    };
    let marker: u8 = data[p + 1];
    let start: usize = p + 2;
    if marker == 0xDA {
        return None;
    }
    if marker == 0x00 || marker == 0x01 || (0xD0 <= marker && marker <= 0xD7) {
        return Some((marker, start, start));
    }
    if limit - start < 2 {
        return None;
    }
    let length: usize = data[start + 1] as usize + 0x100 * data[start] as usize;
    if length < 2 || limit - start < length {
        return None;
    }
    Some((marker, start, start + length))
}

/// Scans raw JPEG bytes for comment markers and extracts their text.
///
/// Scanning stops at the compressed image data. Text is decoded as UTF-8 when
/// valid, with a lossless Latin-1 fallback otherwise.
pub fn scan_com_markers(data: &[u8]) -> (found: Vec<String>)
    ensures
        texts_view(found@) == comments(data@),
{
    let mut found: Vec<String> = Vec::new();
    if data.len() < 2 || data[0] != 0xFF || data[1] != 0xD8 {
        assert(texts_view(found@) =~= comments(data@));
        return found;
    }
    let mut pos: usize = 2;
    assert(texts_view(found@) + comments_from(data@, 2) =~= comments(data@));
    loop
        invariant_except_break
            texts_view(found@) + comments_from(data@, pos as int) == comments(data@),
            pos <= data@.len(),
        ensures
            texts_view(found@) == comments(data@),
        decreases data@.len() - pos,
    {
        match find_segment(data, pos) {
            None => {
                assert(texts_view(found@) + comments_from(data@, pos as int) =~= texts_view(
                    found@,
                ));
                break;
            },
            Some((marker, start, end)) => {
                let ghost before = texts_view(found@);
                let ghost rest = comments_from(data@, end as int);
                if marker == 0xFE {
                    let payload: &[u8] = &data[start + 2..end];
                    let comment = decode_text(payload);
                    found.push(comment);
                    proof {
                        let t = text::byte_text(data@.subrange(start + 2, end as int));
                        assert(texts_view(found@) =~= before.push(t));
                        assert(before.push(t) + rest =~= before + (seq![t] + rest));
                    }
                }
                pos = end;
            },
        }
    }
    found
}

/// Scans raw JPEG bytes for the JFIF header and extracts the pixel density.
///
/// Gives `None` if no valid JFIF header is found before the compressed image
/// data.
pub fn scan_jfif_density(data: &[u8]) -> (d: Option<JpegPixelDensity>)
    ensures
        d == density(data@),
{
    if data.len() < 2 || data[0] != 0xFF || data[1] != 0xD8 {
        return None;
    }
    let mut pos: usize = 2;
    loop
        invariant
            starts_image(data@),
            pos <= data@.len(),
            density_from(data@, pos as int) == density(data@),
        decreases data@.len() - pos,
    {
        match find_segment(data, pos) {
            None => {
                return None;
            },
            Some((marker, start, end)) => {
                if marker == 0xE0 {
                    let segment: &[u8] = &data[start + 2..end];
                    if check_jfif(segment) {
                        return Some(read_density(segment));
                    }
                }
                pos = end;
            },
        }
    }
}

fn check_jfif(segment: &[u8]) -> (b: bool)
    ensures
        b == is_jfif(segment@),
{
    if segment.len() < 12 {
        return false;
    }
    let b = segment[0] == 0x4A && segment[1] == 0x46 && segment[2] == 0x49 && segment[3] == 0x46
        && segment[4] == 0;
    proof {
        let id = seq![0x4Au8, 0x46u8, 0x49u8, 0x46u8, 0u8];
        if b {
            assert(segment@.take(5) =~= id);
        } else if segment@.take(5) == id {
            assert(segment@.take(5)[0] == id[0]);
            assert(segment@.take(5)[1] == id[1]);
            assert(segment@.take(5)[2] == id[2]);
            assert(segment@.take(5)[3] == id[3]);
            assert(segment@.take(5)[4] == id[4]);
        }
    }
    b
}

fn read_density(segment: &[u8]) -> (d: JpegPixelDensity)
    requires
        segment@.len() >= 12,
    ensures
        d == jfif_density(segment@),
{
    let x: u16 = segment[9] as u16 + 0x100 * segment[8] as u16;
    let y: u16 = segment[11] as u16 + 0x100 * segment[10] as u16;
    match segment[7] {
        1 => JpegPixelDensity::Dpi { x, y },
        2 => JpegPixelDensity::Dpcm { x, y },
        _ => JpegPixelDensity::AspectRatio { x, y },
    }
}

} // verus!
