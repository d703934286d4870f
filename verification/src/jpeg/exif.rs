//! EXIF: a curated set of tags, parsed into typed fields.
//!
//! An EXIF payload is a TIFF stream whose main directory may point to two
//! others, one for exposure data and one for positions. Where a directory holds
//! a tag more than once, the last usable entry counts.

use vstd::prelude::*;
use crate::jpeg::tiff;
use crate::jpeg::tiff::{
    read_ifd_ascii, read_ifd_entries, ByteOrder, IfdEntry, TiffReader, TIFF_TYPE_ASCII,
    TIFF_TYPE_BYTE, TIFF_TYPE_RATIONAL, TIFF_TYPE_SHORT,
};

verus! {

/// A latitude or longitude, exactly as the file states it: degrees, minutes and
/// seconds as numerator and denominator, and the side of the equator or of the
/// prime meridian. In decimal degrees it is the sum of degrees, minutes / 60
/// and seconds / 3600, negated if `negative`.
#[derive(Debug, Clone, Copy, PartialEq, Eq)]
pub struct GpsAngle {
    /// South or West.
    pub negative: bool,
    /// Degrees, below 360.
    pub degrees: (u32, u32),
    /// Minutes, below 60.
    pub minutes: (u32, u32),
    /// Seconds, below 60.
    pub seconds: (u32, u32),
}

/// An altitude, exactly as the file states it.
#[derive(Debug, Clone, Copy, PartialEq, Eq)]
pub struct GpsAltitude {
    /// Below sea level.
    pub below_sea_level: bool,
    /// Metres from sea level, as numerator and denominator.
    pub metres: (u32, u32),
}

/// A curated set of EXIF tags parsed into typed fields.
///
/// All fields are optional because any EXIF tag may be absent or malformed.
/// Rationals stay as numerator and denominator, and timestamps stay as text of
/// the form `"YYYY:MM:DD HH:MM:SS"`.
#[derive(Debug, Clone, PartialEq, Eq)]
pub struct JpegExifInfo {
    /// Orientation tag (0x0112), from 1 to 8. Describes how the stored pixel
    /// grid relates to the intended display orientation.
    pub orientation: Option<u8>,
    /// File modification time (tag 0x0132).
    pub datetime: Option<String>,
    /// Original capture time (tag 0x9003).
    pub datetime_original: Option<String>,
    /// Camera manufacturer (tag 0x010F).
    pub camera_make: Option<String>,
    /// Camera model (tag 0x0110).
    pub camera_model: Option<String>,
    /// Software that produced the file (tag 0x0131).
    pub software: Option<String>,
    /// Exposure time in seconds (tag 0x829A). E.g. `(1, 250)` means 1/250 s.
    pub exposure_time: Option<(u32, u32)>,
    /// F-number (tag 0x829D). E.g. `(28, 10)` means f/2.8.
    pub f_number: Option<(u32, u32)>,
    /// ISO speed (tag 0x8827).
    pub iso_speed: Option<u16>,
    /// Focal length in mm (tag 0x920A). E.g. `(50, 1)` means 50 mm.
    pub focal_length: Option<(u32, u32)>,
    /// GPS latitude; negative is South.
    pub gps_latitude: Option<GpsAngle>,
    /// GPS longitude; negative is West.
    pub gps_longitude: Option<GpsAngle>,
    /// GPS altitude.
    pub gps_altitude: Option<GpsAltitude>,
}

/// A [`JpegExifInfo`] as a mathematical value.
pub struct ExifModel {
    /// Orientation tag.
    pub orientation: Option<u8>,
    /// File modification time.
    pub datetime: Option<Seq<char>>,
    /// Original capture time.
    pub datetime_original: Option<Seq<char>>,
    /// Camera manufacturer.
    pub camera_make: Option<Seq<char>>,
    /// Camera model.
    pub camera_model: Option<Seq<char>>,
    /// Software.
    pub software: Option<Seq<char>>,
    /// Exposure time.
    pub exposure_time: Option<(u32, u32)>,
    /// F-number.
    pub f_number: Option<(u32, u32)>,
    /// ISO speed.
    pub iso_speed: Option<u16>,
    /// Focal length.
    pub focal_length: Option<(u32, u32)>,
    /// GPS latitude.
    pub gps_latitude: Option<GpsAngle>,
    /// GPS longitude.
    pub gps_longitude: Option<GpsAngle>,
    /// GPS altitude.
    pub gps_altitude: Option<GpsAltitude>,
}

impl View for JpegExifInfo {
    type V = ExifModel;

    open spec fn view(&self) -> ExifModel {
        ExifModel {
            orientation: self.orientation,
            datetime: tiff::text_view(self.datetime),
            datetime_original: tiff::text_view(self.datetime_original),
            camera_make: tiff::text_view(self.camera_make),
            camera_model: tiff::text_view(self.camera_model),
            software: tiff::text_view(self.software),
            exposure_time: self.exposure_time,
            f_number: self.f_number,
            iso_speed: self.iso_speed,
            focal_length: self.focal_length,
            gps_latitude: self.gps_latitude,
            gps_longitude: self.gps_longitude,
            gps_altitude: self.gps_altitude,
        }
    }
}

/// The value in which every field is absent.
pub open spec fn no_exif() -> ExifModel {
    ExifModel {
        orientation: None,
        datetime: None,
        datetime_original: None,
        camera_make: None,
        camera_model: None,
        software: None,
        exposure_time: None,
        f_number: None,
        iso_speed: None,
        focal_length: None,
        gps_latitude: None,
        gps_longitude: None,
        gps_altitude: None,
    }
}

impl Default for JpegExifInfo {
    fn default() -> (info: Self)
        ensures
            info@ == no_exif(),
    {
        JpegExifInfo {
            orientation: None,
            datetime: None,
            datetime_original: None,
            camera_make: None,
            camera_model: None,
            software: None,
            exposure_time: None,
            f_number: None,
            iso_speed: None,
            focal_length: None,
            gps_latitude: None,
            gps_longitude: None,
            gps_altitude: None,
        }
    }
}

/// A directory of a TIFF stream.
pub struct Ifd {
    /// Byte order of the stream.
    pub order: ByteOrder,
    /// The stream.
    pub data: Seq<u8>,
    /// Where the directory starts.
    pub at: int,
}

/// The value that the last of the entries below `n` gives, of those that give
/// one.
pub open spec fn last_value<T>(n: int, value: spec_fn(int) -> Option<T>) -> Option<T>
    decreases n,
{
    if n <= 0 {
        None
    } else {
        match value(n - 1) {
            Some(v) => Some(v),
            None => last_value(n - 1, value),
        }
    }
}

impl Ifd {
    /// The number of entries.
    pub open spec fn count(self) -> int {
        tiff::entry_count(self.order, self.data, self.at)
    }

    /// Entry number `i`.
    pub open spec fn entry(self, i: int) -> IfdEntry {
        tiff::entry_at(self.order, self.data, self.at + 2 + 12 * i)
    }

    /// Where the value field of entry number `i` starts.
    pub open spec fn value_at(self, i: int) -> int {
        self.at + 2 + 12 * i + 8
    }

    /// Entry number `i` has the given tag and type.
    pub open spec fn holds(self, i: int, tag: u16, tiff_type: u16) -> bool {
        self.entry(i).tag == tag && self.entry(i).tiff_type == tiff_type
    }

    /// Entry number `i` has the given tag and type, and holds `count` values.
    pub open spec fn holds_exactly(self, i: int, tag: u16, tiff_type: u16, count: u32) -> bool {
        self.holds(i, tag, tiff_type) && self.entry(i).count == count
    }

    /// The text that entry number `i` gives under a tag.
    pub open spec fn text_in(self, i: int, tag: u16) -> Option<Seq<char>> {
        if self.holds(i, tag, TIFF_TYPE_ASCII) {
            tiff::ascii_value(
                self.data,
                tiff::ascii_start(
                    self.entry(i).count,
                    self.entry(i).value_or_offset,
                    self.value_at(i),
                ),
                self.entry(i).count as int,
            )
        } else {
            None
        }
    }

    /// The text under a tag, among the first `n` entries.
    pub open spec fn text(self, n: int, tag: u16) -> Option<Seq<char>> {
        last_value(n, |i: int| self.text_in(i, tag))
    }

    /// The number that entry number `i` gives under a tag.
    pub open spec fn short_in(self, i: int, tag: u16) -> Option<u16> {
        if self.holds_exactly(i, tag, TIFF_TYPE_SHORT, 1) {
            tiff::read16(self.order, self.data, self.value_at(i))
        } else {
            None
        }
    }

    /// The number under a tag, among the first `n` entries.
    pub open spec fn short(self, n: int, tag: u16) -> Option<u16> {
        last_value(n, |i: int| self.short_in(i, tag))
    }

    /// The rational that entry number `i` gives under a tag.
    pub open spec fn rational_in(self, i: int, tag: u16) -> Option<(u32, u32)> {
        if self.holds_exactly(i, tag, TIFF_TYPE_RATIONAL, 1) {
            tiff::read_rational(self.order, self.data, self.entry(i).value_or_offset as int)
        } else {
            None
        }
    }

    /// The rational under a tag, among the first `n` entries.
    pub open spec fn rational(self, n: int, tag: u16) -> Option<(u32, u32)> {
        last_value(n, |i: int| self.rational_in(i, tag))
    }

    /// The first byte that entry number `i` gives under a tag, if it holds
    /// `count` values of the given type.
    pub open spec fn byte_in(self, i: int, tag: u16, tiff_type: u16, count: u32) -> Option<u8> {
        if self.holds_exactly(i, tag, tiff_type, count) {
            tiff::read8(self.data, self.value_at(i))
        } else {
            None
        }
    }

    /// The first byte under a tag whose entry holds `count` values of the given
    /// type, among the first `n` entries.
    pub open spec fn byte(self, n: int, tag: u16, tiff_type: u16, count: u32) -> Option<u8> {
        last_value(n, |i: int| self.byte_in(i, tag, tiff_type, count))
    }

    /// The three rationals that entry number `i` gives under a tag, if all of
    /// them lie inside the data.
    pub open spec fn triple_in(self, i: int, tag: u16) -> Option<
        ((u32, u32), (u32, u32), (u32, u32)),
    > {
        let at = self.entry(i).value_or_offset as int;
        if self.holds_exactly(i, tag, TIFF_TYPE_RATIONAL, 3) && at + 24 <= self.data.len() {
            Some(
                (
                    tiff::read_rational(self.order, self.data, at)->0,
                    tiff::read_rational(self.order, self.data, at + 8)->0,
                    tiff::read_rational(self.order, self.data, at + 16)->0,
                ),
            )
        } else {
            None
        }
    }

    /// The three rationals under a tag, among the first `n` entries.
    pub open spec fn triple(self, n: int, tag: u16) -> Option<
        ((u32, u32), (u32, u32), (u32, u32)),
    > {
        last_value(n, |i: int| self.triple_in(i, tag))
    }

    /// The directory that entry number `i` points to under a tag.
    pub open spec fn pointer_in(self, i: int, tag: u16) -> Option<u32> {
        if self.entry(i).tag == tag && self.entry(i).count == 1 {
            Some(self.entry(i).value_or_offset)
        } else {
            None
        }
    }

    /// The directory that a tag points to, among the first `n` entries.
    pub open spec fn pointer(self, n: int, tag: u16) -> Option<u32> {
        last_value(n, |i: int| self.pointer_in(i, tag))
    }

    /// The orientation that entry number `i` gives, if it is a valid one.
    pub open spec fn orientation_in(self, i: int) -> Option<u8> {
        let v = tiff::number16(self.order, self.data, self.value_at(i));
        if self.holds_exactly(i, 0x0112, TIFF_TYPE_SHORT, 1) && 1 <= v <= 8 {
            Some(v as u8)
        } else {
            None
        }
    }

    /// The orientation, among the first `n` entries.
    pub open spec fn orientation(self, n: int) -> Option<u8> {
        last_value(n, |i: int| self.orientation_in(i))
    }
}

/// An angle from its parts and its reference letter: `None` if a denominator
/// is zero, a part is out of range, or the letter is not one of `N`, `S`, `E`
/// and `W`.
pub open spec fn angle(
    degrees: (u32, u32),
    minutes: (u32, u32),
    seconds: (u32, u32),
    ref_char: u8,
) -> Option<GpsAngle> {
    let north_or_east = ref_char == 78 || ref_char == 69;
    let south_or_west = ref_char == 83 || ref_char == 87;
    if degrees.1 == 0 || minutes.1 == 0 || seconds.1 == 0 {
        None
    } else if degrees.0 >= 360 * degrees.1 || minutes.0 >= 60 * minutes.1 || seconds.0 >= 60
        * seconds.1 {
        None
    } else if north_or_east || south_or_west {
        Some(GpsAngle { negative: south_or_west, degrees, minutes, seconds })
    } else {
        None
    }
}

/// Converts GPS degrees, minutes and seconds to an angle.
///
/// Each component is numerator and denominator. `ref_char` is the reference
/// letter: `N` or `S` for latitude, `E` or `W` for longitude.
pub fn dms_to_decimal(
    degrees: (u32, u32),
    minutes: (u32, u32),
    seconds: (u32, u32),
    ref_char: u8,
) -> (a: Option<GpsAngle>)
    ensures
        a == angle(degrees, minutes, seconds, ref_char),
{
    if degrees.1 == 0 || minutes.1 == 0 || seconds.1 == 0 {
        return None;
    }
    if degrees.0 as u64 >= 360 * degrees.1 as u64 || minutes.0 as u64 >= 60 * minutes.1 as u64
        || seconds.0 as u64 >= 60 * seconds.1 as u64 {
        return None;
    }
    match ref_char {
        78 | 69 => Some(GpsAngle { negative: false, degrees, minutes, seconds }),
        83 | 87 => Some(GpsAngle { negative: true, degrees, minutes, seconds }),
        _ => None,
    }
}

/// An angle of a directory from the tags of its letter and of its parts: both
/// have to be there.
pub open spec fn gps_angle(gps: Ifd, ref_tag: u16, value_tag: u16) -> Option<GpsAngle> {
    match (
        gps.byte(gps.count(), ref_tag, TIFF_TYPE_ASCII, 2),
        gps.triple(gps.count(), value_tag),
    ) {
        (Some(ref_char), Some((d, m, s))) => angle(d, m, s, ref_char),
        _ => None,
    }
}

/// The altitude of a directory: above sea level unless the reference says
/// otherwise.
pub open spec fn gps_altitude(gps: Ifd) -> Option<GpsAltitude> {
    match gps.rational(gps.count(), 0x0006) {
        Some((num, den)) => if den == 0 {
            None
        } else {
            Some(
                GpsAltitude {
                    below_sea_level: gps.byte(gps.count(), 0x0005, TIFF_TYPE_BYTE, 1) == Some(1u8),
                    metres: (num, den),
                },
            )
        },
        None => None,
    }
}

/// The byte order that a TIFF stream announces.
pub open spec fn announced_order(data: Seq<u8>) -> Option<ByteOrder> {
    if data[0] == 73 && data[1] == 73 {
        Some(ByteOrder::Little)
    } else if data[0] == 77 && data[1] == 77 {
        Some(ByteOrder::Big)
    } else {
        None
    }
}

/// The fields of the main directory and of those that it points to.
pub open spec fn exif_of_directory(main: Ifd) -> ExifModel {
    let n = main.count();
    let exif = match main.pointer(n, 0x8769) {
        Some(at) => Some(Ifd { order: main.order, data: main.data, at: at as int }),
        None => None,
    };
    let gps = match main.pointer(n, 0x8825) {
        Some(at) => Some(Ifd { order: main.order, data: main.data, at: at as int }),
        None => None,
    };
    ExifModel {
        orientation: main.orientation(n),
        datetime: main.text(n, 0x0132),
        datetime_original: match exif {
            Some(ifd) => ifd.text(ifd.count(), 0x9003),
            None => None,
        },
        camera_make: main.text(n, 0x010F),
        camera_model: main.text(n, 0x0110),
        software: main.text(n, 0x0131),
        exposure_time: match exif {
            Some(ifd) => ifd.rational(ifd.count(), 0x829A),
            None => None,
        },
        f_number: match exif {
            Some(ifd) => ifd.rational(ifd.count(), 0x829D),
            None => None,
        },
        iso_speed: match exif {
            Some(ifd) => ifd.short(ifd.count(), 0x8827),
            None => None,
        },
        focal_length: match exif {
            Some(ifd) => ifd.rational(ifd.count(), 0x920A),
            None => None,
        },
        gps_latitude: match gps {
            Some(ifd) => gps_angle(ifd, 0x0001, 0x0002),
            None => None,
        },
        gps_longitude: match gps {
            Some(ifd) => gps_angle(ifd, 0x0003, 0x0004),
            None => None,
        },
        gps_altitude: match gps {
            Some(ifd) => gps_altitude(ifd),
            None => None,
        },
    }
}

/// What a TIFF stream says as EXIF: `None` unless it starts with a valid TIFF
/// header.
pub open spec fn tiff_exif(data: Seq<u8>) -> Option<ExifModel> {
    if data.len() < 8 {
        None
    } else {
        match announced_order(data) {
            None => None,
            Some(order) => if tiff::number16(order, data, 2) != 42 {
                None
            } else {
                Some(
                    exif_of_directory(
                        Ifd { order, data, at: tiff::number32(order, data, 4) as int },
                    ),
                )
            },
        }
    }
}

/// What the payload of an EXIF segment says: `None` unless it starts with
/// `Exif`, two zeros and a valid TIFF header.
pub open spec fn payload_exif(raw: Seq<u8>) -> Option<ExifModel> {
    if raw.len() < 14 || raw.take(6) != seq![0x45u8, 0x78u8, 0x69u8, 0x66u8, 0u8, 0u8] {
        None
    } else {
        tiff_exif(raw.skip(6))
    }
}

/// What the main directory says, and where the others are.
struct MainFields {
    orientation: Option<u8>,
    datetime: Option<String>,
    camera_make: Option<String>,
    camera_model: Option<String>,
    software: Option<String>,
    exif_offset: Option<u32>,
    gps_offset: Option<u32>,
}

/// What the exposure directory says.
struct ExposureFields {
    datetime_original: Option<String>,
    exposure_time: Option<(u32, u32)>,
    f_number: Option<(u32, u32)>,
    iso_speed: Option<u16>,
    focal_length: Option<(u32, u32)>,
}

/// What the position directory says.
struct GpsFields {
    latitude: Option<GpsAngle>,
    longitude: Option<GpsAngle>,
    altitude: Option<GpsAltitude>,
}

/// Reads the fields of the main directory.
fn read_main_fields(reader: &TiffReader<'_>, at: usize) -> (f: MainFields)
    ensures
        ({
            let ifd = Ifd { order: reader.order, data: reader.data@, at: at as int };
            let n = ifd.count();
            &&& f.orientation == ifd.orientation(n)
            &&& tiff::text_view(f.datetime) == ifd.text(n, 0x0132)
            &&& tiff::text_view(f.camera_make) == ifd.text(n, 0x010F)
            &&& tiff::text_view(f.camera_model) == ifd.text(n, 0x0110)
            &&& tiff::text_view(f.software) == ifd.text(n, 0x0131)
            &&& f.exif_offset == ifd.pointer(n, 0x8769)
            &&& f.gps_offset == ifd.pointer(n, 0x8825)
        }),
{
    let entries = read_ifd_entries(reader, at);
    let ghost ifd = Ifd { order: reader.order, data: reader.data@, at: at as int };
    let limit: usize = reader.data.len();
    let mut f = MainFields {
        orientation: None,
        datetime: None,
        camera_make: None,
        camera_model: None,
        software: None,
        exif_offset: None,
        gps_offset: None,
    };
    let mut i: usize = 0;
    while i < entries.len()
        invariant
            ifd == (Ifd { order: reader.order, data: reader.data@, at: at as int }),
            limit == reader.data@.len(),
            entries@ == tiff::ifd_entries(reader.order, reader.data@, at as int),
            i <= entries@.len(),
            f.orientation == ifd.orientation(i as int),
            tiff::text_view(f.datetime) == ifd.text(i as int, 0x0132),
            tiff::text_view(f.camera_make) == ifd.text(i as int, 0x010F),
            tiff::text_view(f.camera_model) == ifd.text(i as int, 0x0110),
            tiff::text_view(f.software) == ifd.text(i as int, 0x0131),
            f.exif_offset == ifd.pointer(i as int, 0x8769),
            f.gps_offset == ifd.pointer(i as int, 0x8825),
        decreases entries@.len() - i,
    {
        let entry: IfdEntry = entries[i];
        assert(entry == ifd.entry(i as int));
        let value_at: usize = at + 2 + 12 * i + 8;
        match entry.tag {
            0x0112 => {
                if entry.tiff_type == TIFF_TYPE_SHORT && entry.count == 1 {
                    if let Some(v) = reader.u16_at(value_at) {
                        if 1 <= v && v <= 8 {
                            f.orientation = Some(v as u8);
                        }
                    }
                }
            },
            0x010F => {
                if entry.tiff_type == TIFF_TYPE_ASCII {
                    let text = read_ifd_ascii(
                        reader,
                        entry.count,
                        entry.value_or_offset,
                        value_at,
                    );
                    if text.is_some() {
                        f.camera_make = text;
                    }
                }
            },
            0x0110 => {
                if entry.tiff_type == TIFF_TYPE_ASCII {
                    let text = read_ifd_ascii(
                        reader,
                        entry.count,
                        entry.value_or_offset,
                        value_at,
                    );
                    if text.is_some() {
                        f.camera_model = text;
                    }
                }
            },
            0x0131 => {
                if entry.tiff_type == TIFF_TYPE_ASCII {
                    let text = read_ifd_ascii(
                        reader,
                        entry.count,
                        entry.value_or_offset,
                        value_at,
                    );
                    if text.is_some() {
                        f.software = text;
                    }
                }
            },
            0x0132 => {
                if entry.tiff_type == TIFF_TYPE_ASCII {
                    let text = read_ifd_ascii(
                        reader,
                        entry.count,
                        entry.value_or_offset,
                        value_at,
                    );
                    if text.is_some() {
                        f.datetime = text;
                    }
                }
            },
            0x8769 => {
                if entry.count == 1 {
                    f.exif_offset = Some(entry.value_or_offset);
                }
            },
            0x8825 => {
                if entry.count == 1 {
                    f.gps_offset = Some(entry.value_or_offset);
                }
            },
            _ => {},
        }
        i += 1;
    }
    f
}

/// Reads the fields of the exposure directory.
fn read_exposure_fields(reader: &TiffReader<'_>, at: usize) -> (f: ExposureFields)
    ensures
        ({
            let ifd = Ifd { order: reader.order, data: reader.data@, at: at as int };
            let n = ifd.count();
            &&& tiff::text_view(f.datetime_original) == ifd.text(n, 0x9003)
            &&& f.exposure_time == ifd.rational(n, 0x829A)
            &&& f.f_number == ifd.rational(n, 0x829D)
            &&& f.iso_speed == ifd.short(n, 0x8827)
            &&& f.focal_length == ifd.rational(n, 0x920A)
        }),
{
    let entries = read_ifd_entries(reader, at);
    let ghost ifd = Ifd { order: reader.order, data: reader.data@, at: at as int };
    let limit: usize = reader.data.len();
    let mut f = ExposureFields {
        datetime_original: None,
        exposure_time: None,
        f_number: None,
        iso_speed: None,
        focal_length: None,
    };
    let mut i: usize = 0;
    while i < entries.len()
        invariant
            ifd == (Ifd { order: reader.order, data: reader.data@, at: at as int }),
            limit == reader.data@.len(),
            entries@ == tiff::ifd_entries(reader.order, reader.data@, at as int),
            i <= entries@.len(),
            tiff::text_view(f.datetime_original) == ifd.text(i as int, 0x9003),
            f.exposure_time == ifd.rational(i as int, 0x829A),
            f.f_number == ifd.rational(i as int, 0x829D),
            f.iso_speed == ifd.short(i as int, 0x8827),
            f.focal_length == ifd.rational(i as int, 0x920A),
        decreases entries@.len() - i,
    {
        let entry: IfdEntry = entries[i];
        assert(entry == ifd.entry(i as int));
        let value_at: usize = at + 2 + 12 * i + 8;
        match entry.tag {
            0x829A => {
                if entry.tiff_type == TIFF_TYPE_RATIONAL && entry.count == 1 {
                    let value = reader.rational_at(entry.value_or_offset as usize);
                    if value.is_some() {
                        f.exposure_time = value;
                    }
                }
            },
            0x829D => {
                if entry.tiff_type == TIFF_TYPE_RATIONAL && entry.count == 1 {
                    let value = reader.rational_at(entry.value_or_offset as usize);
                    if value.is_some() {
                        f.f_number = value;
                    }
                }
            },
            0x8827 => {
                if entry.tiff_type == TIFF_TYPE_SHORT && entry.count == 1 {
                    let value = reader.u16_at(value_at);
                    if value.is_some() {
                        f.iso_speed = value;
                    }
                }
            },
            0x9003 => {
                if entry.tiff_type == TIFF_TYPE_ASCII {
                    let text = read_ifd_ascii(
                        reader,
                        entry.count,
                        entry.value_or_offset,
                        value_at,
                    );
                    if text.is_some() {
                        f.datetime_original = text;
                    }
                }
            },
            0x920A => {
                if entry.tiff_type == TIFF_TYPE_RATIONAL && entry.count == 1 {
                    let value = reader.rational_at(entry.value_or_offset as usize);
                    if value.is_some() {
                        f.focal_length = value;
                    }
                }
            },
            _ => {},
        }
        i += 1;
    }
    f
}

/// Reads three consecutive rationals, if all of them lie inside the data.
fn read_triple(reader: &TiffReader<'_>, at: u32) -> (t: Option<
    ((u32, u32), (u32, u32), (u32, u32)),
>)
    ensures
        t == if at + 24 <= reader.data@.len() {
            Some(
                (
                    tiff::read_rational(reader.order, reader.data@, at as int)->0,
                    tiff::read_rational(reader.order, reader.data@, at + 8)->0,
                    tiff::read_rational(reader.order, reader.data@, at + 16)->0,
                ),
            )
        } else {
            None
        },
{
    let limit: usize = reader.data.len();
    let start: usize = at as usize;
    if limit < 24 || start > limit - 24 {
        return None;
    }
    Some(
        (
            reader.rational_at(start).unwrap(),
            reader.rational_at(start + 8).unwrap(),
            reader.rational_at(start + 16).unwrap(),
        ),
    )
}

/// Reads the fields of the position directory.
fn read_gps_fields(reader: &TiffReader<'_>, at: usize) -> (f: GpsFields)
    ensures
        ({
            let ifd = Ifd { order: reader.order, data: reader.data@, at: at as int };
            &&& f.latitude == gps_angle(ifd, 0x0001, 0x0002)
            &&& f.longitude == gps_angle(ifd, 0x0003, 0x0004)
            &&& f.altitude == gps_altitude(ifd)
        }),
{
    let entries = read_ifd_entries(reader, at);
    let ghost ifd = Ifd { order: reader.order, data: reader.data@, at: at as int };
    let limit: usize = reader.data.len();
    let mut lat_ref: Option<u8> = None;
    let mut lat_dms: Option<((u32, u32), (u32, u32), (u32, u32))> = None;
    let mut lon_ref: Option<u8> = None;
    let mut lon_dms: Option<((u32, u32), (u32, u32), (u32, u32))> = None;
    let mut alt_ref: Option<u8> = None;
    let mut alt_rational: Option<(u32, u32)> = None;
    let mut i: usize = 0;
    while i < entries.len()
        invariant
            ifd == (Ifd { order: reader.order, data: reader.data@, at: at as int }),
            limit == reader.data@.len(),
            entries@ == tiff::ifd_entries(reader.order, reader.data@, at as int),
            i <= entries@.len(),
            lat_ref == ifd.byte(i as int, 0x0001, TIFF_TYPE_ASCII, 2),
            lat_dms == ifd.triple(i as int, 0x0002),
            lon_ref == ifd.byte(i as int, 0x0003, TIFF_TYPE_ASCII, 2),
            lon_dms == ifd.triple(i as int, 0x0004),
            alt_ref == ifd.byte(i as int, 0x0005, TIFF_TYPE_BYTE, 1),
            alt_rational == ifd.rational(i as int, 0x0006),
        decreases entries@.len() - i,
    {
        let entry: IfdEntry = entries[i];
        assert(entry == ifd.entry(i as int));
        let value_at: usize = at + 2 + 12 * i + 8;
        match entry.tag {
            0x0001 => {
                if entry.tiff_type == TIFF_TYPE_ASCII && entry.count == 2 {
                    let letter = reader.u8_at(value_at);
                    if letter.is_some() {
                        lat_ref = letter;
                    }
                }
            },
            0x0002 => {
                if entry.tiff_type == TIFF_TYPE_RATIONAL && entry.count == 3 {
                    let triple = read_triple(reader, entry.value_or_offset);
                    if triple.is_some() {
                        lat_dms = triple;
                    }
                }
            },
            0x0003 => {
                if entry.tiff_type == TIFF_TYPE_ASCII && entry.count == 2 {
                    let letter = reader.u8_at(value_at);
                    if letter.is_some() {
                        lon_ref = letter;
                    }
                }
            },
            0x0004 => {
                if entry.tiff_type == TIFF_TYPE_RATIONAL && entry.count == 3 {
                    let triple = read_triple(reader, entry.value_or_offset);
                    if triple.is_some() {
                        lon_dms = triple;
                    }
                }
            },
            0x0005 => {
                if entry.tiff_type == TIFF_TYPE_BYTE && entry.count == 1 {
                    let side = reader.u8_at(value_at);
                    if side.is_some() {
                        alt_ref = side;
                    }
                }
            },
            0x0006 => {
                if entry.tiff_type == TIFF_TYPE_RATIONAL && entry.count == 1 {
                    let value = reader.rational_at(entry.value_or_offset as usize);
                    if value.is_some() {
                        alt_rational = value;
                    }
                }
            },
            _ => {},
        }
        i += 1;
    }
    let latitude = match (lat_ref, lat_dms) {
        (Some(ref_char), Some((d, m, s))) => dms_to_decimal(d, m, s, ref_char),
        _ => None,
    };
    let longitude = match (lon_ref, lon_dms) {
        (Some(ref_char), Some((d, m, s))) => dms_to_decimal(d, m, s, ref_char),
        _ => None,
    };
    let altitude = match alt_rational {
        Some((num, den)) => {
            if den != 0 {
                let below_sea_level = match alt_ref {
                    Some(1) => true,
                    _ => false,
                };
                Some(GpsAltitude { below_sea_level, metres: (num, den) })
            } else {
                None
            }
        },
        None => None,
    };
    GpsFields { latitude, longitude, altitude }
}

/// An optional EXIF value as a mathematical value.
pub open spec fn exif_view(info: Option<JpegExifInfo>) -> Option<ExifModel> {
    match info {
        Some(i) => Some(i@),
        None => None,
    }
}

/// Parses the payload of an EXIF segment, which starts with `Exif` and two
/// zeros.
///
/// Gives a value if the TIFF header is valid, even if all fields end up absent.
/// Malformed tags are skipped: a corrupt orientation tag does not prevent GPS
/// data from being read.
pub fn parse_exif(raw: &[u8]) -> (info: Option<JpegExifInfo>)
    ensures
        exif_view(info) == payload_exif(raw@),
{
    if raw.len() < 14 {
        return None;
    }
    let ghost prefix = seq![0x45u8, 0x78u8, 0x69u8, 0x66u8, 0u8, 0u8];
    if raw[0] == 0x45 && raw[1] == 0x78 && raw[2] == 0x69 && raw[3] == 0x66 && raw[4] == 0 && raw[5]
        == 0 {
        assert(raw@.take(6) =~= prefix);
        let tiff: &[u8] = &raw[6..raw.len()];
        assert(tiff@ =~= raw@.skip(6));
        parse_tiff_exif(tiff)
    } else {
        proof {
            if raw@.take(6) == prefix {
                assert(raw@.take(6)[0] == prefix[0]);
                assert(raw@.take(6)[1] == prefix[1]);
                assert(raw@.take(6)[2] == prefix[2]);
                assert(raw@.take(6)[3] == prefix[3]);
                assert(raw@.take(6)[4] == prefix[4]);
                assert(raw@.take(6)[5] == prefix[5]);
            }
        }
        None
    }
}

/// Parses EXIF data from a raw TIFF stream (without the `Exif` prefix).
pub fn parse_tiff_exif(tiff: &[u8]) -> (info: Option<JpegExifInfo>)
    ensures
        exif_view(info) == tiff_exif(tiff@),
{
    if tiff.len() < 8 {
        return None;
    }
    let order = if tiff[0] == 73 && tiff[1] == 73 {
        ByteOrder::Little
    } else if tiff[0] == 77 && tiff[1] == 77 {
        ByteOrder::Big
    } else {
        return None;
    };
    let reader = TiffReader::new(tiff, order);
    let magic: u16 = reader.u16_at(2).unwrap();
    if magic != 42 {
        return None;
    }
    let main_offset: u32 = reader.u32_at(4).unwrap();
    let main = read_main_fields(&reader, main_offset as usize);
    let exposure = match main.exif_offset {
        Some(at) => read_exposure_fields(&reader, at as usize),
        None => ExposureFields {
            datetime_original: None,
            exposure_time: None,
            f_number: None,
            iso_speed: None,
            focal_length: None,
        },
    };
    let gps = match main.gps_offset {
        Some(at) => read_gps_fields(&reader, at as usize),
        None => GpsFields { latitude: None, longitude: None, altitude: None },
    };
    Some(
        JpegExifInfo {
            orientation: main.orientation,
            datetime: main.datetime,
            datetime_original: exposure.datetime_original,
            camera_make: main.camera_make,
            camera_model: main.camera_model,
            software: main.software,
            exposure_time: exposure.exposure_time,
            f_number: exposure.f_number,
            iso_speed: exposure.iso_speed,
            focal_length: exposure.focal_length,
            gps_latitude: gps.latitude,
            gps_longitude: gps.longitude,
            gps_altitude: gps.altitude,
        },
    )
}

} // verus!
