//! What holds of every EXIF stream.

use vstd::prelude::*;
use crate::jpeg::exif;
use crate::jpeg::exif::{ExifModel, GpsAngle, Ifd};
use crate::jpeg::tiff;
use crate::jpeg::tiff::{
    TIFF_TYPE_ASCII, TIFF_TYPE_BYTE, TIFF_TYPE_RATIONAL, TIFF_TYPE_SHORT,
};

verus! {

/// A part of an angle: a denominator that is not zero, and a quotient below the
/// limit.
pub open spec fn below(part: (u32, u32), limit: int) -> bool {
    part.1 != 0 && part.0 < limit * part.1
}

/// An angle whose parts are in range.
pub open spec fn proper(angle: GpsAngle) -> bool {
    below(angle.degrees, 360) && below(angle.minutes, 60) && below(angle.seconds, 60)
}

/// Whether an EXIF stream parses depends on its length and its first four bytes
/// alone: no tag, however malformed, makes it fail.
pub proof fn law_exif_needs_only_a_header(data: Seq<u8>, other: Seq<u8>)
    requires
        data.len() >= 8,
        other.len() >= 8,
        data.take(4) == other.take(4),
    ensures
        exif::tiff_exif(data) is Some <==> exif::tiff_exif(other) is Some,
{
    assert forall|i: int| 0 <= i < 4 implies #[trigger] data[i] == other[i] by {
        assert(data.take(4)[i] == data[i]);
        assert(other.take(4)[i] == other[i]);
    }
    assert(data[0] == other[0] && data[1] == other[1] && data[2] == other[2] && data[3]
        == other[3]);
}

/// Whatever an EXIF stream holds, the fields that come out are in range: the
/// orientation is one of eight, angles are proper, and an altitude has a
/// denominator that is not zero.
pub proof fn law_exif_fields_are_in_range(data: Seq<u8>)
    ensures
        exif::tiff_exif(data) matches Some(e) ==> {
            &&& e.orientation matches Some(o) ==> 1 <= o <= 8
            &&& e.gps_latitude matches Some(a) ==> proper(a)
            &&& e.gps_longitude matches Some(a) ==> proper(a)
            &&& e.gps_altitude matches Some(a) ==> a.metres.1 != 0
        },
{
    if let Some(e) = exif::tiff_exif(data) {
        let order = exif::announced_order(data)->0;
        let main = exif::Ifd { order, data, at: tiff::number32(order, data, 4) as int };
        lemma_last_value(main.count(), |i: int| main.orientation_in(i));
    }
}

proof fn lemma_last_value<T>(n: int, value: spec_fn(int) -> Option<T>)
    ensures
        exif::last_value(n, value) matches Some(v) ==> exists|i: int|
            0 <= i < n && #[trigger] value(i) == Some(v),
    decreases n,
{
    if n > 0 {
        lemma_last_value(n - 1, value);
        assert(value(n - 1) is Some ==> value(n - 1) == Some(value(n - 1)->0));
    }
}

/// The payload of an EXIF segment says what the TIFF stream behind its prefix
/// says.
pub proof fn law_payload_holds_stream(stream: Seq<u8>)
    ensures
        exif::payload_exif(seq![0x45u8, 0x78u8, 0x69u8, 0x66u8, 0u8, 0u8] + stream)
            == exif::tiff_exif(stream),
{
    let prefix = seq![0x45u8, 0x78u8, 0x69u8, 0x66u8, 0u8, 0u8];
    assert((prefix + stream).take(6) =~= prefix);
    assert((prefix + stream).skip(6) =~= stream);
}

/// Tag of the pointer to the exposure directory, or to the position directory.
pub open spec fn is_pointer(tag: u16) -> bool {
    tag == 0x8769 || tag == 0x8825
}

/// Entry number `i` of two directories says the same, each in the byte order of
/// its stream: tag, type, count and, for the types that fields are made of, the
/// value.
pub open spec fn same_entry(a: Ifd, b: Ifd, i: int) -> bool {
    let x = a.entry(i);
    let y = b.entry(i);
    let size = x.count as int;
    let off = x.value_or_offset as int;
    &&& x.tag == y.tag
    &&& x.tiff_type == y.tiff_type
    &&& x.count == y.count
    &&& x.tiff_type == TIFF_TYPE_SHORT && 1 <= size <= 2 ==> tiff::number16(
        a.order,
        a.data,
        a.value_at(i),
    ) == tiff::number16(b.order, b.data, b.value_at(i))
    &&& (x.tiff_type == TIFF_TYPE_BYTE || x.tiff_type == TIFF_TYPE_ASCII) && size <= 4
        ==> a.data.subrange(a.value_at(i), a.value_at(i) + size) == b.data.subrange(
        b.value_at(i),
        b.value_at(i) + size,
    )
    &&& x.tiff_type == TIFF_TYPE_ASCII && size > 4 ==> x.value_or_offset == y.value_or_offset && (
    off + size <= a.data.len() ==> a.data.subrange(off, off + size) == b.data.subrange(
        off,
        off + size,
    ))
    &&& x.tiff_type == TIFF_TYPE_RATIONAL && size > 0 ==> x.value_or_offset == y.value_or_offset && forall|
        k: int,
    |
        0 <= k < size ==> #[trigger] tiff::read_rational(a.order, a.data, off + 8 * k)
            == tiff::read_rational(b.order, b.data, off + 8 * k)
    &&& is_pointer(x.tag) && size == 1 ==> x.value_or_offset == y.value_or_offset
}

/// Two directories lie at the same place of equally long streams and have
/// equally many entries.
pub open spec fn same_shape(a: Ifd, b: Ifd) -> bool {
    &&& a.data.len() == b.data.len()
    &&& a.at == b.at
    &&& 0 <= a.at
    &&& a.count() == b.count()
}

/// Two directories say the same, each in the byte order of its stream.
pub open spec fn same_directory(a: Ifd, b: Ifd) -> bool {
    same_shape(a, b) && forall|i: int| 0 <= i < a.count() ==> #[trigger] same_entry(a, b, i)
}

/// The directory of the same stream at the given place.
pub open spec fn sibling(ifd: Ifd, at: u32) -> Ifd {
    Ifd { order: ifd.order, data: ifd.data, at: at as int }
}

/// The directories that two main directories point to under a tag say the same.
pub open spec fn same_target(a: Ifd, b: Ifd, tag: u16) -> bool {
    a.pointer(a.count(), tag) matches Some(at) ==> same_directory(sibling(a, at), sibling(b, at))
}

/// The main directory of a stream that starts with a byte order mark.
pub open spec fn main_directory(data: Seq<u8>) -> Ifd {
    let order = exif::announced_order(data)->0;
    Ifd { order, data, at: tiff::number32(order, data, 4) as int }
}

/// What two directories say under one tag is the same: each entry says the same
/// in both, or has another tag in both.
spec fn agree_on(a: Ifd, b: Ifd, tag: u16) -> bool {
    same_shape(a, b) && forall|i: int|
        0 <= i < a.count() ==> #[trigger] same_entry(a, b, i) || (a.entry(i).tag != tag && b.entry(
            i,
        ).tag != tag)
}

proof fn lemma_same_last_value<T>(
    n: int,
    f: spec_fn(int) -> Option<T>,
    g: spec_fn(int) -> Option<T>,
)
    requires
        forall|i: int| 0 <= i < n ==> #[trigger] f(i) == g(i),
    ensures
        exif::last_value(n, f) == exif::last_value(n, g),
    decreases n,
{
    if n > 0 {
        assert(f(n - 1) == g(n - 1));
        lemma_same_last_value(n - 1, f, g);
    }
}

proof fn lemma_same_text(a: Ifd, b: Ifd, tag: u16)
    requires
        agree_on(a, b, tag),
    ensures
        a.text(a.count(), tag) == b.text(b.count(), tag),
{
    let f = |i: int| a.text_in(i, tag);
    let g = |i: int| b.text_in(i, tag);
    assert forall|i: int| 0 <= i < a.count() implies #[trigger] f(i) == g(i) by {
        assert(same_entry(a, b, i) || (a.entry(i).tag != tag && b.entry(i).tag != tag));
    }
    lemma_same_last_value(a.count(), f, g);
}

proof fn lemma_same_short(a: Ifd, b: Ifd, tag: u16)
    requires
        agree_on(a, b, tag),
    ensures
        a.short(a.count(), tag) == b.short(b.count(), tag),
{
    let f = |i: int| a.short_in(i, tag);
    let g = |i: int| b.short_in(i, tag);
    assert forall|i: int| 0 <= i < a.count() implies #[trigger] f(i) == g(i) by {
        assert(same_entry(a, b, i) || (a.entry(i).tag != tag && b.entry(i).tag != tag));
    }
    lemma_same_last_value(a.count(), f, g);
}

proof fn lemma_same_orientation(a: Ifd, b: Ifd)
    requires
        agree_on(a, b, 0x0112),
    ensures
        a.orientation(a.count()) == b.orientation(b.count()),
{
    let f = |i: int| a.orientation_in(i);
    let g = |i: int| b.orientation_in(i);
    assert forall|i: int| 0 <= i < a.count() implies #[trigger] f(i) == g(i) by {
        assert(same_entry(a, b, i) || (a.entry(i).tag != 0x0112 && b.entry(i).tag != 0x0112));
    }
    lemma_same_last_value(a.count(), f, g);
}

proof fn lemma_same_rational(a: Ifd, b: Ifd, tag: u16)
    requires
        agree_on(a, b, tag),
    ensures
        a.rational(a.count(), tag) == b.rational(b.count(), tag),
{
    let f = |i: int| a.rational_in(i, tag);
    let g = |i: int| b.rational_in(i, tag);
    assert forall|i: int| 0 <= i < a.count() implies #[trigger] f(i) == g(i) by {
        assert(same_entry(a, b, i) || (a.entry(i).tag != tag && b.entry(i).tag != tag));
        let off = a.entry(i).value_or_offset as int;
        assert(off + 8 * 0 == off);
        assert(same_entry(a, b, i) && a.holds_exactly(i, tag, TIFF_TYPE_RATIONAL, 1)
            ==> tiff::read_rational(a.order, a.data, off + 8 * 0) == tiff::read_rational(
            b.order,
            b.data,
            off + 8 * 0,
        ));
    }
    lemma_same_last_value(a.count(), f, g);
}

proof fn lemma_same_byte(a: Ifd, b: Ifd, tag: u16, tiff_type: u16, count: u32)
    requires
        agree_on(a, b, tag),
        tiff_type == TIFF_TYPE_BYTE || tiff_type == TIFF_TYPE_ASCII,
        1 <= count <= 4,
    ensures
        a.byte(a.count(), tag, tiff_type, count) == b.byte(b.count(), tag, tiff_type, count),
{
    let f = |i: int| a.byte_in(i, tag, tiff_type, count);
    let g = |i: int| b.byte_in(i, tag, tiff_type, count);
    assert forall|i: int| 0 <= i < a.count() implies #[trigger] f(i) == g(i) by {
        assert(same_entry(a, b, i) || (a.entry(i).tag != tag && b.entry(i).tag != tag));
        let at = a.value_at(i);
        assert(at + 4 <= a.data.len());
        assert(a.data.subrange(at, at + count)[0] == a.data[at]);
        assert(b.data.subrange(at, at + count)[0] == b.data[at]);
    }
    lemma_same_last_value(a.count(), f, g);
}

proof fn lemma_same_triple(a: Ifd, b: Ifd, tag: u16)
    requires
        agree_on(a, b, tag),
    ensures
        a.triple(a.count(), tag) == b.triple(b.count(), tag),
{
    let f = |i: int| a.triple_in(i, tag);
    let g = |i: int| b.triple_in(i, tag);
    assert forall|i: int| 0 <= i < a.count() implies #[trigger] f(i) == g(i) by {
        assert(same_entry(a, b, i) || (a.entry(i).tag != tag && b.entry(i).tag != tag));
        let off = a.entry(i).value_or_offset as int;
        if same_entry(a, b, i) && a.holds_exactly(i, tag, TIFF_TYPE_RATIONAL, 3) {
            assert(tiff::read_rational(a.order, a.data, off + 8 * 0) == tiff::read_rational(
                b.order,
                b.data,
                off + 8 * 0,
            ));
            assert(tiff::read_rational(a.order, a.data, off + 8 * 1) == tiff::read_rational(
                b.order,
                b.data,
                off + 8 * 1,
            ));
            assert(tiff::read_rational(a.order, a.data, off + 8 * 2) == tiff::read_rational(
                b.order,
                b.data,
                off + 8 * 2,
            ));
        }
    }
    lemma_same_last_value(a.count(), f, g);
}

proof fn lemma_same_pointer(a: Ifd, b: Ifd, tag: u16)
    requires
        agree_on(a, b, tag),
        is_pointer(tag),
    ensures
        a.pointer(a.count(), tag) == b.pointer(b.count(), tag),
{
    let f = |i: int| a.pointer_in(i, tag);
    let g = |i: int| b.pointer_in(i, tag);
    assert forall|i: int| 0 <= i < a.count() implies #[trigger] f(i) == g(i) by {
        assert(same_entry(a, b, i) || (a.entry(i).tag != tag && b.entry(i).tag != tag));
    }
    lemma_same_last_value(a.count(), f, g);
}

proof fn lemma_same_exposure(a: Ifd, b: Ifd)
    requires
        same_directory(a, b),
    ensures
        a.text(a.count(), 0x9003) == b.text(b.count(), 0x9003),
        a.rational(a.count(), 0x829A) == b.rational(b.count(), 0x829A),
        a.rational(a.count(), 0x829D) == b.rational(b.count(), 0x829D),
        a.short(a.count(), 0x8827) == b.short(b.count(), 0x8827),
        a.rational(a.count(), 0x920A) == b.rational(b.count(), 0x920A),
{
    lemma_same_text(a, b, 0x9003);
    lemma_same_rational(a, b, 0x829A);
    lemma_same_rational(a, b, 0x829D);
    lemma_same_short(a, b, 0x8827);
    lemma_same_rational(a, b, 0x920A);
}

proof fn lemma_same_position(a: Ifd, b: Ifd)
    requires
        same_directory(a, b),
    ensures
        exif::gps_angle(a, 0x0001, 0x0002) == exif::gps_angle(b, 0x0001, 0x0002),
        exif::gps_angle(a, 0x0003, 0x0004) == exif::gps_angle(b, 0x0003, 0x0004),
        exif::gps_altitude(a) == exif::gps_altitude(b),
{
    lemma_same_byte(a, b, 0x0001, TIFF_TYPE_ASCII, 2);
    lemma_same_triple(a, b, 0x0002);
    lemma_same_byte(a, b, 0x0003, TIFF_TYPE_ASCII, 2);
    lemma_same_triple(a, b, 0x0004);
    lemma_same_byte(a, b, 0x0005, TIFF_TYPE_BYTE, 1);
    lemma_same_rational(a, b, 0x0006);
}

/// What the directories behind two main directories say is the same, if both
/// main directories point to the same places and the same is found there.
proof fn lemma_same_targets(a: Ifd, b: Ifd)
    requires
        agree_on(a, b, 0x8769),
        agree_on(a, b, 0x8825),
        same_target(a, b, 0x8769),
        same_target(a, b, 0x8825),
    ensures
        ({
            let x = exif::exif_of_directory(a);
            let y = exif::exif_of_directory(b);
            &&& x.datetime_original == y.datetime_original
            &&& x.exposure_time == y.exposure_time
            &&& x.f_number == y.f_number
            &&& x.iso_speed == y.iso_speed
            &&& x.focal_length == y.focal_length
            &&& x.gps_latitude == y.gps_latitude
            &&& x.gps_longitude == y.gps_longitude
            &&& x.gps_altitude == y.gps_altitude
        }),
{
    lemma_same_pointer(a, b, 0x8769);
    lemma_same_pointer(a, b, 0x8825);
    if let Some(at) = a.pointer(a.count(), 0x8769) {
        lemma_same_exposure(sibling(a, at), sibling(b, at));
    }
    if let Some(at) = a.pointer(a.count(), 0x8825) {
        lemma_same_position(sibling(a, at), sibling(b, at));
    }
}

/// The byte order does not matter: two streams that say the same, one of them
/// little-endian and the other big-endian, parse to the same fields.
pub proof fn law_byte_order_does_not_matter(a: Seq<u8>, b: Seq<u8>)
    requires
        8 <= a.len(),
        exif::announced_order(a) is Some,
        exif::announced_order(b) is Some,
        tiff::number16(exif::announced_order(a)->0, a, 2) == 42,
        tiff::number16(exif::announced_order(b)->0, b, 2) == 42,
        same_directory(main_directory(a), main_directory(b)),
        same_target(main_directory(a), main_directory(b), 0x8769),
        same_target(main_directory(a), main_directory(b), 0x8825),
    ensures
        exif::tiff_exif(a) is Some,
        exif::tiff_exif(a) == exif::tiff_exif(b),
{
    let x = main_directory(a);
    let y = main_directory(b);
    lemma_same_targets(x, y);
    lemma_same_orientation(x, y);
    lemma_same_text(x, y, 0x0132);
    lemma_same_text(x, y, 0x010F);
    lemma_same_text(x, y, 0x0110);
    lemma_same_text(x, y, 0x0131);
}

/// The type that a tag of the main directory has to have to give its field.
pub open spec fn field_type(tag: u16) -> Option<u16> {
    if tag == 0x0112 {
        Some(TIFF_TYPE_SHORT)
    } else if tag == 0x010F || tag == 0x0110 || tag == 0x0131 || tag == 0x0132 {
        Some(TIFF_TYPE_ASCII)
    } else {
        None
    }
}

/// EXIF fields without the one that a tag of the main directory gives.
pub open spec fn without(e: ExifModel, tag: u16) -> ExifModel {
    if tag == 0x0112 {
        ExifModel { orientation: None, ..e }
    } else if tag == 0x010F {
        ExifModel { camera_make: None, ..e }
    } else if tag == 0x0110 {
        ExifModel { camera_model: None, ..e }
    } else if tag == 0x0131 {
        ExifModel { software: None, ..e }
    } else if tag == 0x0132 {
        ExifModel { datetime: None, ..e }
    } else {
        e
    }
}

/// A malformed entry of the main directory spoils no field but its own: two
/// streams that differ in what one entry says, whatever that is, parse to the
/// same fields but for the one that the tag of the entry gives. The tag is not
/// that of a pointer to another directory.
pub proof fn law_malformed_tag_spoils_only_its_field(a: Seq<u8>, b: Seq<u8>, k: int)
    requires
        8 <= a.len(),
        exif::announced_order(a) is Some,
        exif::announced_order(b) is Some,
        tiff::number16(exif::announced_order(a)->0, a, 2) == 42,
        tiff::number16(exif::announced_order(b)->0, b, 2) == 42,
        same_shape(main_directory(a), main_directory(b)),
        0 <= k < main_directory(a).count(),
        main_directory(a).entry(k).tag == main_directory(b).entry(k).tag,
        !is_pointer(main_directory(a).entry(k).tag),
        forall|i: int|
            0 <= i < main_directory(a).count() && i != k ==> #[trigger] same_entry(
                main_directory(a),
                main_directory(b),
                i,
            ),
        same_target(main_directory(a), main_directory(b), 0x8769),
        same_target(main_directory(a), main_directory(b), 0x8825),
    ensures
        exif::tiff_exif(a) is Some,
        exif::tiff_exif(b) is Some,
        ({
            let tag = main_directory(a).entry(k).tag;
            without(exif::tiff_exif(a)->0, tag) == without(exif::tiff_exif(b)->0, tag)
        }),
{
    let x = main_directory(a);
    let y = main_directory(b);
    let tag = x.entry(k).tag;
    lemma_same_targets(x, y);
    if tag != 0x0112 {
        lemma_same_orientation(x, y);
    }
    if tag != 0x0132 {
        lemma_same_text(x, y, 0x0132);
    }
    if tag != 0x010F {
        lemma_same_text(x, y, 0x010F);
    }
    if tag != 0x0110 {
        lemma_same_text(x, y, 0x0110);
    }
    if tag != 0x0131 {
        lemma_same_text(x, y, 0x0131);
    }
}

/// Entry number `i` of a main directory gives the field of its tag a value.
pub open spec fn gives_value(main: Ifd, i: int) -> bool {
    let tag = main.entry(i).tag;
    if tag == 0x0112 {
        main.orientation_in(i) is Some
    } else {
        field_type(tag) is Some && main.text_in(i, tag) is Some
    }
}

/// An entry of the main directory that gives no value is skipped: two streams
/// that differ in one such entry parse to the same fields, that of its tag
/// among them, so that a value from another entry stays. The tag is not that of
/// a pointer to another directory.
pub proof fn law_unusable_entry_is_skipped(a: Seq<u8>, b: Seq<u8>, k: int)
    requires
        8 <= a.len(),
        exif::announced_order(a) is Some,
        exif::announced_order(b) is Some,
        tiff::number16(exif::announced_order(a)->0, a, 2) == 42,
        tiff::number16(exif::announced_order(b)->0, b, 2) == 42,
        same_shape(main_directory(a), main_directory(b)),
        0 <= k < main_directory(a).count(),
        main_directory(a).entry(k).tag == main_directory(b).entry(k).tag,
        !is_pointer(main_directory(a).entry(k).tag),
        !gives_value(main_directory(a), k),
        !gives_value(main_directory(b), k),
        forall|i: int|
            0 <= i < main_directory(a).count() && i != k ==> #[trigger] same_entry(
                main_directory(a),
                main_directory(b),
                i,
            ),
        same_target(main_directory(a), main_directory(b), 0x8769),
        same_target(main_directory(a), main_directory(b), 0x8825),
    ensures
        exif::tiff_exif(a) is Some,
        exif::tiff_exif(a) == exif::tiff_exif(b),
{
    law_malformed_tag_spoils_only_its_field(a, b, k);
    let x = main_directory(a);
    let y = main_directory(b);
    let tag = x.entry(k).tag;
    if tag == 0x0112 {
        let f = |i: int| x.orientation_in(i);
        let g = |i: int| y.orientation_in(i);
        assert forall|i: int| 0 <= i < x.count() implies #[trigger] f(i) == g(i) by {
            assert(i == k || same_entry(x, y, i));
        }
        lemma_same_last_value(x.count(), f, g);
    } else if field_type(tag) is Some {
        let f = |i: int| x.text_in(i, tag);
        let g = |i: int| y.text_in(i, tag);
        assert forall|i: int| 0 <= i < x.count() implies #[trigger] f(i) == g(i) by {
            assert(i == k || same_entry(x, y, i));
        }
        lemma_same_last_value(x.count(), f, g);
    }
}

/// A field of the main directory is absent if no entry has its tag together
/// with the type that the field takes.
pub proof fn law_wrong_type_gives_no_field(data: Seq<u8>, tag: u16)
    requires
        exif::tiff_exif(data) is Some,
        field_type(tag) is Some,
        forall|i: int|
            0 <= i < main_directory(data).count() && #[trigger] main_directory(data).entry(i).tag
                == tag ==> main_directory(data).entry(i).tiff_type != field_type(tag)->0,
    ensures
        exif::tiff_exif(data) == Some(without(exif::tiff_exif(data)->0, tag)),
{
    let main = main_directory(data);
    if tag == 0x0112 {
        lemma_last_value(main.count(), |i: int| main.orientation_in(i));
    } else {
        lemma_last_value(main.count(), |i: int| main.text_in(i, tag));
    }
}

/// A stream with the two bytes at `at` replaced.
pub open spec fn with_bytes(data: Seq<u8>, at: int, x: u8, y: u8) -> Seq<u8> {
    data.update(at, x).update(at + 1, y)
}

/// What entry number `i` refers to elsewhere in the stream lies apart from the
/// two bytes at `at`.
pub open spec fn refers_apart(ifd: Ifd, i: int, at: int) -> bool {
    let e = ifd.entry(i);
    let off = e.value_or_offset as int;
    let size = if e.tiff_type == TIFF_TYPE_ASCII && e.count > 4 {
        e.count as int
    } else if e.tiff_type == TIFF_TYPE_RATIONAL {
        8 * e.count as int
    } else {
        0
    };
    size == 0 || off + size <= at || at + 2 <= off
}

/// A directory, and what it refers to, lies apart from the two bytes at `at`.
pub open spec fn lies_apart(ifd: Ifd, at: int) -> bool {
    &&& ifd.at + 2 + 12 * ifd.count() <= at || at + 2 <= ifd.at
    &&& forall|i: int| 0 <= i < ifd.count() ==> #[trigger] refers_apart(ifd, i, at)
}

proof fn lemma_untouched_entry(a: Ifd, b: Ifd, i: int, at: int, x: u8, y: u8)
    requires
        a.order == b.order,
        a.at == b.at,
        0 <= a.at,
        b.data == with_bytes(a.data, at, x, y),
        0 <= at,
        at + 2 <= a.data.len(),
        0 <= i < a.count(),
        a.at + 2 + 12 * i + 12 <= at || at + 2 <= a.at + 2 + 12 * i,
        refers_apart(a, i, at),
    ensures
        same_entry(a, b, i),
{
    let e = a.entry(i);
    let off = e.value_or_offset as int;
    let size = e.count as int;
    assert(a.value_at(i) + 4 <= a.data.len());
    assert(forall|j: int|
        0 <= j < a.data.len() && j != at && j != at + 1 ==> a.data[j] == b.data[j]);
    assert(b.entry(i) == e);
    if size <= 4 {
        assert(a.data.subrange(a.value_at(i), a.value_at(i) + size) =~= b.data.subrange(
            b.value_at(i),
            b.value_at(i) + size,
        ));
    } else if e.tiff_type == TIFF_TYPE_ASCII && off + size <= a.data.len() {
        assert(a.data.subrange(off, off + size) =~= b.data.subrange(off, off + size));
    }
    if e.tiff_type == TIFF_TYPE_RATIONAL {
        assert forall|k: int| 0 <= k < size implies #[trigger] tiff::read_rational(
            a.order,
            a.data,
            off + 8 * k,
        ) == tiff::read_rational(b.order, b.data, off + 8 * k) by {
            assert(off + 8 * k + 8 <= at || at + 2 <= off + 8 * k);
        }
    }
}

proof fn lemma_untouched_directory(a: Ifd, b: Ifd, at: int, x: u8, y: u8)
    requires
        a.order == b.order,
        a.at == b.at,
        0 <= a.at,
        b.data == with_bytes(a.data, at, x, y),
        0 <= at,
        at + 2 <= a.data.len(),
        lies_apart(a, at),
    ensures
        same_directory(a, b),
{
    assert forall|i: int| 0 <= i < a.count() implies #[trigger] same_entry(a, b, i) by {
        assert(refers_apart(a, i, at));
        lemma_untouched_entry(a, b, i, at, x, y);
    }
}

/// A wrong type spoils no field but its own: replacing the type of an entry of
/// the main directory by any other leaves every field as it was but for the one
/// that the tag of the entry gives. That one is absent if the new type is wrong
/// and no other entry has the tag. The tag is not that of a pointer, and nothing
/// else of the stream is read from the two bytes of the type.
pub proof fn law_retyped_entry_spoils_only_its_field(data: Seq<u8>, k: int, x: u8, y: u8)
    requires
        exif::tiff_exif(data) is Some,
        ({
            let main = main_directory(data);
            let at = main.at + 2 + 12 * k + 2;
            &&& 8 <= at
            &&& 0 <= k < main.count()
            &&& !is_pointer(main.entry(k).tag)
            &&& forall|i: int|
                0 <= i < main.count() && i != k ==> #[trigger] refers_apart(main, i, at)
            &&& main.pointer(main.count(), 0x8769) matches Some(p) ==> lies_apart(
                sibling(main, p),
                at,
            )
            &&& main.pointer(main.count(), 0x8825) matches Some(p) ==> lies_apart(
                sibling(main, p),
                at,
            )
        }),
    ensures
        ({
            let main = main_directory(data);
            let other = with_bytes(data, main.at + 2 + 12 * k + 2, x, y);
            let tag = main.entry(k).tag;
            &&& exif::tiff_exif(other) is Some
            &&& without(exif::tiff_exif(other)->0, tag) == without(exif::tiff_exif(data)->0, tag)
            &&& field_type(tag) is Some && main_directory(other).entry(k).tiff_type != field_type(
                tag,
            )->0 && (forall|i: int|
                0 <= i < main.count() && i != k ==> (#[trigger] main.entry(i)).tag != tag)
                ==> exif::tiff_exif(other) == Some(without(exif::tiff_exif(other)->0, tag))
        }),
{
    let main = main_directory(data);
    let at = main.at + 2 + 12 * k + 2;
    let other = with_bytes(data, at, x, y);
    let changed = main_directory(other);
    assert(at + 10 <= data.len());
    assert(forall|j: int| 0 <= j < data.len() && j != at && j != at + 1 ==> data[j] == other[j]);
    assert forall|i: int| 0 <= i < main.count() && i != k implies #[trigger] same_entry(
        main,
        changed,
        i,
    ) by {
        assert(refers_apart(main, i, at));
        lemma_untouched_entry(main, changed, i, at, x, y);
    }
    if let Some(p) = main.pointer(main.count(), 0x8769) {
        lemma_untouched_directory(sibling(main, p), sibling(changed, p), at, x, y);
    }
    if let Some(p) = main.pointer(main.count(), 0x8825) {
        lemma_untouched_directory(sibling(main, p), sibling(changed, p), at, x, y);
    }
    law_malformed_tag_spoils_only_its_field(data, other, k);
    let tag = main.entry(k).tag;
    if field_type(tag) is Some && changed.entry(k).tiff_type != field_type(tag)->0 && (forall|
        i: int,
    |
        0 <= i < main.count() && i != k ==> (#[trigger] main.entry(i)).tag != tag) {
        assert forall|i: int|
            0 <= i < changed.count() && #[trigger] changed.entry(i).tag
                == tag implies changed.entry(i).tiff_type != field_type(tag)->0 by {
            if i != k {
                assert(same_entry(main, changed, i));
                assert(main.entry(i).tag != tag);
            }
        }
        law_wrong_type_gives_no_field(other, tag);
    }
}

} // verus!
