//! How large an image the decoder takes.
//!
//! The decoder counts rows and columns of pixels in 16 bits. In a scan of a
//! single component it takes them block by block, and looks one row of blocks
//! ahead where the scan completes the component. Where such a count might not
//! fit, the file is not handed to it. Only images with a side of more than
//! [`LARGEST_SIDE`] pixels are concerned.

use vstd::prelude::*;
use crate::jpeg::decode;
use crate::jpeg::markers;
use crate::jpeg::markers::{find_marker, find_segment};
use crate::jpeg::tiff;
use crate::jpeg::tiff::ByteOrder;

verus! {

/// The longest side of an image that fits whatever the layout of its file.
pub const LARGEST_SIDE: u16 = 65528;

/// Where the first scan header from `pos` on starts. The search ends as that
/// for comments does.
pub open spec fn scan_header_from(data: Seq<u8>, pos: int) -> Option<int>
    decreases data.len() - pos,
{
    if pos < 0 {
        None
    } else {
        match markers::next_segment(data, pos) {
            Some((_, _, end)) => {
                proof {
                    markers::lemma_next_segment_advances(data, pos);
                }
                scan_header_from(data, end)
            },
            None => match markers::next_marker(data, pos) {
                Some(p) => if markers::is_start_of_scan(data[p + 1]) {
                    Some(p + 2)
                } else {
                    None
                },
                None => None,
            },
        }
    }
}

/// The length that the segment at `at` states.
pub open spec fn stated_length(data: Seq<u8>, at: int) -> int {
    tiff::number16(ByteOrder::Big, data, at) as int
}

/// The frame header at `at` has the length that its components ask for.
pub open spec fn is_sized(data: Seq<u8>, at: int) -> bool {
    stated_length(data, at) >= 8 && stated_length(data, at) == 8 + 3 * data[at + 7]
}

/// A component of the frame header at `at` has a horizontal sampling factor of
/// three.
pub open spec fn threefold_columns(data: Seq<u8>, at: int) -> bool {
    exists|i: int| 0 <= i < data[at + 7] && #[trigger] data[at + 9 + 3 * i] / 16 == 3
}

/// A component of the frame header at `at` has a vertical sampling factor of
/// three.
pub open spec fn threefold_rows(data: Seq<u8>, at: int) -> bool {
    exists|i: int| 0 <= i < data[at + 7] && #[trigger] data[at + 9 + 3 * i] % 16 == 3
}

/// The header of a scan of a single component stands at `p`: its marker, its
/// length, and the number of components.
pub open spec fn is_lone_scan(data: Seq<u8>, p: int) -> bool {
    p + 4 < data.len() && data[p] == 0xFF && data[p + 1] == 0xDA && data[p + 4] == 1
}

/// A scan of a single component may follow from `pos` on: the bytes of its
/// header occur there.
pub open spec fn has_lone_scan(data: Seq<u8>, pos: int) -> bool {
    exists|p: int| pos <= p && #[trigger] is_lone_scan(data, p)
}

/// The first scan behind the frame header at `at` completes an image of several
/// components: the image is not progressive, and the scan holds all of them.
pub open spec fn completes_at_once(data: Seq<u8>, marker: u8, at: int) -> bool {
    &&& marker != 0xC2
    &&& data[at + 7] > 1
    &&& scan_header_from(data, at + stated_length(data, at)) matches Some(s) && s + 2 < data.len()
        && data[s + 2] == data[at + 7]
}

/// The decoder can count the rows and columns of the image that a file states:
/// no scan holds a single component, or the sides are short enough. A long side
/// is short enough if no component is sampled threefold along it and, for the
/// height, the first scan completes the image.
pub open spec fn within_reach(data: Seq<u8>) -> bool {
    match decode::frame_header(data) {
        None => true,
        Some((marker, at)) => {
            let frame = decode::frame_at(data, at);
            0xC0 <= marker <= 0xC2 && is_sized(data, at) && has_lone_scan(
                data,
                at + stated_length(data, at),
            ) ==> {
                &&& frame.width <= LARGEST_SIDE || !threefold_columns(data, at)
                &&& frame.height <= LARGEST_SIDE || !threefold_rows(data, at) && completes_at_once(
                    data,
                    marker,
                    at,
                )
            }
        },
    }
}

/// Finds the first frame header of a file: its marker, where it starts and
/// where it ends.
fn find_frame_header(data: &[u8]) -> (f: Option<(u8, usize, usize)>)
    ensures
        match decode::frame_header(data@) {
            Some((marker, at)) => f matches Some(found) && found.0 == marker && found.1 == at
                && found.2 == at + stated_length(data@, at) && at + 2 <= found.2 <= data@.len(),
            None => f is None,
        },
        f matches Some(found) ==> decode::is_frame_marker(found.0),
{
    if data.len() < 2 || data[0] != 0xFF || data[1] != 0xD8 {
        return None;
    }
    let mut pos: usize = 2;
    loop
        invariant
            pos <= data@.len(),
            decode::frame_header(data@) == decode::frame_header_from(data@, pos as int),
        decreases data@.len() - pos,
    {
        match find_segment(data, pos) {
            None => {
                return None;
            },
            Some((marker, start, end)) => {
                if 0xC0 <= marker && marker <= 0xCF && marker != 0xC4 && marker != 0xC8 && marker
                    != 0xCC {
                    return Some((marker, start, end));
                }
                pos = end;
            },
        }
    }
}

/// Finds the first scan header from `pos` on.
fn find_scan_header(data: &[u8], pos: usize) -> (s: Option<usize>)
    requires
        pos <= data@.len(),
    ensures
        match scan_header_from(data@, pos as int) {
            Some(at) => s matches Some(found) && found == at && found <= data@.len(),
            None => s is None,
        },
{
    let limit: usize = data.len();
    let mut at: usize = pos;
    loop
        invariant
            limit == data@.len(),
            at <= limit,
            scan_header_from(data@, at as int) == scan_header_from(data@, pos as int),
        decreases limit - at,
    {
        match find_segment(data, at) {
            Some((_, _, end)) => {
                at = end;
            },
            None => {
                proof {
                    markers::lemma_next_marker_ahead(data@, at as int);
                }
                return match find_marker(data, at) {
                    Some(p) => if data[p + 1] == 0xDA {
                        Some(p + 2)
                    } else {
                        None
                    },
                    None => None,
                };
            },
        }
    }
}

/// Looks for the header of a scan of a single component from `pos` on.
fn find_lone_scan(data: &[u8], pos: usize) -> (found: bool)
    requires
        pos <= data@.len(),
    ensures
        found == has_lone_scan(data@, pos as int),
{
    let limit: usize = data.len();
    let mut p: usize = pos;
    while limit - p > 4
        invariant
            limit == data@.len(),
            pos <= p <= limit,
            forall|q: int| pos <= q < p ==> !#[trigger] is_lone_scan(data@, q),
        decreases limit - p,
    {
        if data[p] == 0xFF && data[p + 1] == 0xDA && data[p + 4] == 1 {
            assert(is_lone_scan(data@, p as int));
            return true;
        }
        p += 1;
    }
    false
}

/// Tells whether the decoder can count the rows and columns of the image that a
/// file states.
pub fn fits_decoder(data: &[u8]) -> (fits: bool)
    ensures
        fits == within_reach(data@),
{
    let limit: usize = data.len();
    let (marker, at, end) = match find_frame_header(data) {
        None => return true,
        Some(found) => found,
    };
    if marker > 0xC2 || end - at < 8 {
        return true;
    }
    let count: usize = data[at + 7] as usize;
    if end - at != 8 + 3 * count {
        return true;
    }
    let height: u16 = data[at + 4] as u16 + 0x100 * data[at + 3] as u16;
    let width: u16 = data[at + 6] as u16 + 0x100 * data[at + 5] as u16;
    if width <= LARGEST_SIDE && height <= LARGEST_SIDE {
        return true;
    }
    if !find_lone_scan(data, end) {
        return true;
    }
    let mut columns = false;
    let mut rows = false;
    let mut i: usize = 0;
    while i < count
        invariant
            limit == data@.len(),
            i <= count,
            count == data@[at + 7],
            at + 8 + 3 * count == end,
            end <= limit,
            columns == exists|k: int| 0 <= k < i && #[trigger] data@[at + 9 + 3 * k] / 16 == 3,
            rows == exists|k: int| 0 <= k < i && #[trigger] data@[at + 9 + 3 * k] % 16 == 3,
        decreases count - i,
    {
        let factors: u8 = data[at + 9 + 3 * i];
        if factors / 16 == 3 {
            assert(data@[at + 9 + 3 * (i as int)] / 16 == 3);
            columns = true;
        }
        if factors % 16 == 3 {
            assert(data@[at + 9 + 3 * (i as int)] % 16 == 3);
            rows = true;
        }
        i += 1;
    }
    assert(columns == threefold_columns(data@, at as int));
    assert(rows == threefold_rows(data@, at as int));
    let complete = match find_scan_header(data, end) {
        None => false,
        Some(s) => marker != 0xC2 && count > 1 && limit - s > 2 && data[s + 2] as usize == count,
    };
    assert(complete == completes_at_once(data@, marker, at as int));
    (width <= LARGEST_SIDE || !columns) && (height <= LARGEST_SIDE || !rows && complete)
}

/// Every image whose sides are both short enough fits.
pub proof fn law_short_sides_fit(data: Seq<u8>)
    requires
        decode::stated_frame(data) matches Some(frame) && frame.width <= LARGEST_SIDE
            && frame.height <= LARGEST_SIDE,
    ensures
        within_reach(data),
{
}

/// A file without a scan of a single component fits, however large its image. So
/// does one that is no higher than the limit, if no component has a horizontal
/// sampling factor of three.
pub proof fn law_long_sides_fit(data: Seq<u8>)
    requires
        decode::frame_header(data) is Some,
        ({
            let (_, at) = decode::frame_header(data)->0;
            let height = 256 * data[at + 3] + data[at + 4];
            ||| forall|p: int|
                #![trigger data[p]]
                at <= p && p + 4 < data.len() ==> !(data[p] == 0xFF && data[p + 1] == 0xDA
                    && data[p + 4] == 1)
            ||| height <= 65528 && forall|i: int|
                0 <= i < data[at + 7] ==> #[trigger] data[at + 9 + 3 * i] / 16 != 3
        }),
    ensures
        within_reach(data),
{
    let (_, at) = decode::frame_header(data)->0;
    if has_lone_scan(data, at + stated_length(data, at)) {
        let p = choose|p: int|
            at + stated_length(data, at) <= p && #[trigger] is_lone_scan(data, p);
        assert(data[p] == 0xFF);
    }
}

/// A file without a frame header fits, and so does one whose first frame header
/// announces anything but blocks with Huffman codes, or has a length that does
/// not go with its number of components: the decoder has nothing to count.
pub proof fn law_uncounted_files_fit(data: Seq<u8>)
    requires
        decode::frame_header(data) matches Some((marker, at)) ==> marker > 0xC2 || 256 * data[at]
            + data[at + 1] != 8 + 3 * data[at + 7],
    ensures
        within_reach(data),
{
}

/// A file of several components, not progressive, whose first scan holds all of
/// them fits, however large its image, if no sampling factor is three.
pub proof fn law_complete_scan_fits(data: Seq<u8>)
    requires
        decode::frame_header(data) matches Some((marker, at)) && {
            &&& marker != 0xC2
            &&& data[at + 7] > 1
            &&& forall|i: int|
                0 <= i < data[at + 7] ==> #[trigger] data[at + 9 + 3 * i] / 16 != 3 && data[at + 9
                    + 3 * i] % 16 != 3
            &&& scan_header_from(data, at + 256 * data[at] + data[at + 1]) matches Some(s) && s + 2
                < data.len() && data[s + 2] == data[at + 7]
        },
    ensures
        within_reach(data),
{
    let (_, at) = decode::frame_header(data)->0;
    assert(at + stated_length(data, at) == at + 256 * data[at] + data[at + 1]);
    if threefold_rows(data, at) {
        let i = choose|i: int|
            0 <= i < data[at + 7] && #[trigger] data[at + 9 + 3 * i] % 16 == 3;
        assert(data[at + 9 + 3 * i] / 16 != 3);
    }
}

} // verus!
