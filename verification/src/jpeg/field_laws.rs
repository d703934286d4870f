//! What the bytes of an EXIF stream say, and which fields come of them.
//!
//! The laws here speak of numbers at fixed places of a stream, as TIFF defines
//! them, in the byte order that the stream announces.

use vstd::prelude::*;
use crate::jpeg::exif;
use crate::jpeg::exif::Ifd;
use crate::jpeg::tiff;
use crate::jpeg::tiff::ByteOrder;
use crate::text;

verus! {

/// The number that `n` bytes from `at` on hold in the given byte order.
pub open spec fn number(order: ByteOrder, data: Seq<u8>, at: int, n: nat) -> int
    decreases n,
{
    if n == 0 {
        0
    } else {
        match order {
            ByteOrder::Little => data[at] + 256 * number(order, data, at + 1, (n - 1) as nat),
            ByteOrder::Big => 256 * number(order, data, at, (n - 1) as nat) + data[at + n - 1],
        }
    }
}

proof fn lemma_number(order: ByteOrder, data: Seq<u8>, at: int)
    ensures
        number(order, data, at, 2) == tiff::number16(order, data, at),
        number(order, data, at, 4) == tiff::number32(order, data, at),
{
    reveal_with_fuel(number, 5);
    assert(data[at + 1 + 1] == data[at + 2]);
    assert(data[at + 1 + 1 + 1] == data[at + 3]);
}

/// The byte order that a stream announces.
pub open spec fn stream_order(data: Seq<u8>) -> ByteOrder {
    if data[0] == 0x49 {
        ByteOrder::Little
    } else {
        ByteOrder::Big
    }
}

/// A stream has a header: the same letter twice, `I` or `M`, and the number 42.
pub open spec fn has_tiff_header(data: Seq<u8>) -> bool {
    &&& data.len() >= 8
    &&& data[0] == data[1]
    &&& data[0] == 0x49 || data[0] == 0x4D
    &&& number(stream_order(data), data, 2, 2) == 42
}

/// A stream parses exactly if it has a header.
pub proof fn law_header_is_enough(data: Seq<u8>)
    ensures
        exif::tiff_exif(data) is Some <==> has_tiff_header(data),
{
    lemma_number(stream_order(data), data, 2);
}

/// The number of entries of the directory at `at`: as many as it states, at most
/// a thousand, and no more than lie inside the stream.
pub open spec fn entries_at(data: Seq<u8>, at: int) -> int {
    if at + 2 > data.len() {
        0
    } else {
        let stated = number(stream_order(data), data, at, 2);
        let room = (data.len() - at - 2) / 12;
        if stated <= 1000 && stated <= room {
            stated
        } else if room <= 1000 {
            room
        } else {
            1000
        }
    }
}

/// Where entry number `i` of the directory at `at` starts.
pub open spec fn entry_place(at: int, i: int) -> int {
    at + 2 + 12 * i
}

/// The tag of entry number `i` of the directory at `at`.
pub open spec fn tag_of(data: Seq<u8>, at: int, i: int) -> int {
    number(stream_order(data), data, entry_place(at, i), 2)
}

/// The type of the values of that entry.
pub open spec fn type_of(data: Seq<u8>, at: int, i: int) -> int {
    number(stream_order(data), data, entry_place(at, i) + 2, 2)
}

/// The number of its values.
pub open spec fn count_of(data: Seq<u8>, at: int, i: int) -> int {
    number(stream_order(data), data, entry_place(at, i) + 4, 4)
}

/// Where its value field starts.
pub open spec fn value_place(at: int, i: int) -> int {
    entry_place(at, i) + 8
}

/// The number in its value field.
pub open spec fn value_of(data: Seq<u8>, at: int, i: int) -> int {
    number(stream_order(data), data, value_place(at, i), 4)
}

/// No entry of the directory at `at` has the tag.
pub open spec fn is_absent(data: Seq<u8>, at: int, tag: int) -> bool {
    forall|j: int| 0 <= j < entries_at(data, at) ==> #[trigger] tag_of(data, at, j) != tag
}

/// Where the main directory of a stream starts.
pub open spec fn main_place(data: Seq<u8>) -> int {
    number(stream_order(data), data, 4, 4)
}

/// The directory at `at` of a stream.
spec fn directory(data: Seq<u8>, at: int) -> Ifd {
    Ifd { order: stream_order(data), data, at }
}

proof fn lemma_entry(data: Seq<u8>, at: int, i: int)
    requires
        0 <= at,
    ensures
        directory(data, at).count() == entries_at(data, at),
        directory(data, at).entry(i).tag == tag_of(data, at, i),
        directory(data, at).entry(i).tiff_type == type_of(data, at, i),
        directory(data, at).entry(i).count == count_of(data, at, i),
        directory(data, at).entry(i).value_or_offset == value_of(data, at, i),
        directory(data, at).value_at(i) == value_place(at, i),
        0 <= i < entries_at(data, at) ==> value_place(at, i) + 4 <= data.len(),
{
    let order = stream_order(data);
    let base = entry_place(at, i);
    lemma_number(order, data, at);
    lemma_number(order, data, base);
    lemma_number(order, data, base + 2);
    lemma_number(order, data, base + 4);
    lemma_number(order, data, base + 8);
}

proof fn lemma_last<T>(n: int, i: int, value: spec_fn(int) -> Option<T>)
    requires
        0 <= i < n,
        forall|j: int| i < j < n ==> #[trigger] value(j) is None,
    ensures
        value(i) is Some ==> exif::last_value(n, value) == value(i),
    decreases n,
{
    if n - 1 > i {
        assert(value(n - 1) is None);
        lemma_last(n - 1, i, value);
    }
}

proof fn lemma_none<T>(n: int, value: spec_fn(int) -> Option<T>)
    requires
        forall|j: int| 0 <= j < n ==> #[trigger] value(j) is None,
    ensures
        exif::last_value(n, value) is None,
    decreases n,
{
    if n > 0 {
        assert(value(n - 1) is None);
        lemma_none(n - 1, value);
    }
}

/// The bytes of the text of entry number `i`: in its value field if there are up
/// to four of them, and otherwise at the place that the field names.
pub open spec fn text_place(data: Seq<u8>, at: int, i: int) -> int {
    if count_of(data, at, i) <= 4 {
        value_place(at, i)
    } else {
        value_of(data, at, i)
    }
}

/// Entry number `i` of the directory at `at` holds a text: bytes that do not end
/// in a zero, and zeros behind them.
pub open spec fn holds_text(data: Seq<u8>, at: int, i: int, bytes: Seq<u8>) -> bool {
    let place = text_place(data, at, i);
    &&& type_of(data, at, i) == 2
    &&& 1 <= bytes.len() <= count_of(data, at, i)
    &&& bytes.last() != 0
    &&& place + count_of(data, at, i) <= data.len()
    &&& data.subrange(place, place + bytes.len()) == bytes
    &&& forall|k: int|
        place + bytes.len() <= k < place + count_of(data, at, i) ==> #[trigger] data[k] == 0
}

proof fn lemma_trim(s: Seq<u8>, bytes: Seq<u8>)
    requires
        bytes.len() <= s.len(),
        s.take(bytes.len() as int) == bytes,
        forall|k: int| bytes.len() <= k < s.len() ==> #[trigger] s[k] == 0,
        bytes.len() == 0 || bytes.last() != 0,
    ensures
        tiff::trim_nuls(s) == bytes,
    decreases s.len(),
{
    if s.len() > bytes.len() {
        assert(s.last() == 0);
        let t = s.drop_last();
        assert(t.take(bytes.len() as int) =~= bytes) by {
            assert(s.take(bytes.len() as int) =~= t.take(bytes.len() as int));
        }
        lemma_trim(t, bytes);
    } else {
        assert(s =~= bytes) by {
            assert(s.take(s.len() as int) =~= s);
        }
    }
}

/// Entry number `i` holds no text: it has another type, its bytes do not lie
/// inside the stream, or all of them are zero.
pub open spec fn holds_no_text(data: Seq<u8>, at: int, i: int) -> bool {
    let place = text_place(data, at, i);
    ||| type_of(data, at, i) != 2
    ||| place + count_of(data, at, i) > data.len()
    ||| forall|k: int| place <= k < place + count_of(data, at, i) ==> #[trigger] data[k] == 0
}

/// Entry number `i` of the directory at `at` is the last one with the tag that
/// holds a text.
pub open spec fn is_last_text(data: Seq<u8>, at: int, i: int, tag: int) -> bool {
    &&& 0 <= at
    &&& 0 <= i < entries_at(data, at)
    &&& tag_of(data, at, i) == tag
    &&& forall|j: int|
        i < j < entries_at(data, at) && #[trigger] tag_of(data, at, j) == tag ==> holds_no_text(
            data,
            at,
            j,
        )
}

/// Entry number `i` of the directory at `at` is the last one with the tag, the
/// type and the number of values.
pub open spec fn is_last_of(
    data: Seq<u8>,
    at: int,
    i: int,
    tag: int,
    kind: int,
    count: int,
) -> bool {
    &&& 0 <= at
    &&& 0 <= i < entries_at(data, at)
    &&& tag_of(data, at, i) == tag
    &&& type_of(data, at, i) == kind
    &&& count_of(data, at, i) == count
    &&& forall|j: int|
        i < j < entries_at(data, at) && #[trigger] tag_of(data, at, j) == tag ==> type_of(
            data,
            at,
            j,
        ) != kind || count_of(data, at, j) != count
}

/// Entry number `i` of the directory at `at` is the last one with the tag whose
/// rationals, as many as stated, lie inside the stream.
pub open spec fn is_last_rationals(data: Seq<u8>, at: int, i: int, tag: int, count: int) -> bool {
    &&& 0 <= at
    &&& 0 <= i < entries_at(data, at)
    &&& tag_of(data, at, i) == tag
    &&& type_of(data, at, i) == 5
    &&& count_of(data, at, i) == count
    &&& value_of(data, at, i) + 8 * count <= data.len()
    &&& forall|j: int|
        i < j < entries_at(data, at) && #[trigger] tag_of(data, at, j) == tag ==> type_of(
            data,
            at,
            j,
        ) != 5 || count_of(data, at, j) != count || value_of(data, at, j) + 8 * count > data.len()
}

proof fn lemma_text_none(data: Seq<u8>, at: int, i: int, tag: u16)
    requires
        0 <= at,
        0 <= i < entries_at(data, at),
        tag_of(data, at, i) == tag ==> holds_no_text(data, at, i),
    ensures
        directory(data, at).text_in(i, tag) is None,
{
    lemma_entry(data, at, i);
    let place = text_place(data, at, i);
    let count = count_of(data, at, i);
    if type_of(data, at, i) == 2 && tag_of(data, at, i) == tag && place + count <= data.len() {
        let s = data.subrange(place, place + count);
        assert forall|k: int| 0 <= k < s.len() implies #[trigger] s[k] == 0 by {
            assert(s[k] == data[place + k]);
        }
        assert(s.take(0) =~= Seq::empty());
        lemma_trim(s, Seq::empty());
    }
}

proof fn lemma_text(data: Seq<u8>, at: int, i: int, tag: u16, bytes: Seq<u8>)
    requires
        is_last_text(data, at, i, tag as int),
        holds_text(data, at, i, bytes),
    ensures
        directory(data, at).text(entries_at(data, at), tag) == Some(text::byte_text(bytes)),
{
    let ifd = directory(data, at);
    let n = entries_at(data, at);
    lemma_entry(data, at, i);
    let place = text_place(data, at, i);
    let count = count_of(data, at, i);
    let s = data.subrange(place, place + count);
    assert(s.take(bytes.len() as int) =~= data.subrange(place, place + bytes.len()));
    assert forall|k: int| bytes.len() <= k < s.len() implies #[trigger] s[k] == 0 by {
        assert(s[k] == data[place + k]);
    }
    lemma_trim(s, bytes);
    assert(ifd.text_in(i, tag) == Some(text::byte_text(bytes)));
    let value = |j: int| ifd.text_in(j, tag);
    assert forall|j: int| i < j < n implies #[trigger] value(j) is None by {
        assert(tag_of(data, at, j) == tag ==> holds_no_text(data, at, j));
        lemma_text_none(data, at, j, tag);
    }
    lemma_last(n, i, value);
}

proof fn lemma_no_text(data: Seq<u8>, at: int, tag: u16)
    requires
        0 <= at,
        is_absent(data, at, tag as int),
    ensures
        directory(data, at).text(entries_at(data, at), tag) is None,
{
    let ifd = directory(data, at);
    let value = |j: int| ifd.text_in(j, tag);
    assert forall|j: int| 0 <= j < entries_at(data, at) implies #[trigger] value(j) is None by {
        lemma_entry(data, at, j);
        assert(tag_of(data, at, j) != tag);
    }
    lemma_none(entries_at(data, at), value);
}

proof fn lemma_main(data: Seq<u8>)
    requires
        has_tiff_header(data),
    ensures
        exif::tiff_exif(data) == Some(
            exif::exif_of_directory(directory(data, main_place(data))),
        ),
        0 <= main_place(data),
        directory(data, main_place(data)).count() == entries_at(data, main_place(data)),
{
    law_header_is_enough(data);
    lemma_number(stream_order(data), data, 4);
    lemma_entry(data, main_place(data), 0);
}

/// A text in the main directory becomes the field of its tag: camera make, model,
/// software, or time.
pub proof fn law_text_becomes_field(data: Seq<u8>, i: int, tag: u16, bytes: Seq<u8>)
    requires
        has_tiff_header(data),
        is_last_text(data, main_place(data), i, tag as int),
        holds_text(data, main_place(data), i, bytes),
    ensures
        exif::tiff_exif(data) matches Some(e) && {
            let found = Some(text::byte_text(bytes));
            &&& tag == 0x010F ==> e.camera_make == found
            &&& tag == 0x0110 ==> e.camera_model == found
            &&& tag == 0x0131 ==> e.software == found
            &&& tag == 0x0132 ==> e.datetime == found
        },
{
    lemma_main(data);
    lemma_text(data, main_place(data), i, tag, bytes);
}

/// Entry number `i` of the directory at `at` holds an orientation: a single
/// number from 1 to 8.
pub open spec fn holds_orientation(data: Seq<u8>, at: int, i: int) -> bool {
    &&& type_of(data, at, i) == 3
    &&& count_of(data, at, i) == 1
    &&& 1 <= number(stream_order(data), data, value_place(at, i), 2) <= 8
}

/// Entry number `i` of the directory at `at` is the last one that holds an
/// orientation under its tag.
pub open spec fn is_last_orientation(data: Seq<u8>, at: int, i: int) -> bool {
    &&& 0 <= at
    &&& 0 <= i < entries_at(data, at)
    &&& tag_of(data, at, i) == 0x0112
    &&& holds_orientation(data, at, i)
    &&& forall|j: int|
        i < j < entries_at(data, at) && #[trigger] tag_of(data, at, j) == 0x0112
            ==> !holds_orientation(data, at, j)
}

/// The orientation is the last number from 1 to 8 under its tag.
pub proof fn law_orientation_becomes_field(data: Seq<u8>, i: int)
    requires
        has_tiff_header(data),
        is_last_orientation(data, main_place(data), i),
    ensures
        exif::tiff_exif(data) matches Some(e) && (e.orientation matches Some(o) && o == number(
            stream_order(data),
            data,
            value_place(main_place(data), i),
            2,
        )),
{
    lemma_main(data);
    let at = main_place(data);
    let ifd = directory(data, at);
    let n = entries_at(data, at);
    lemma_entry(data, at, i);
    lemma_number(ifd.order, data, value_place(at, i));
    let value = |j: int| ifd.orientation_in(j);
    assert forall|j: int| i < j < n implies #[trigger] value(j) is None by {
        lemma_entry(data, at, j);
        lemma_number(ifd.order, data, value_place(at, j));
        assert(tag_of(data, at, j) == 0x0112 ==> !holds_orientation(data, at, j));
    }
    lemma_last(n, i, value);
    assert(value(i) is Some);
}

/// A field without an entry for its tag is absent.
pub proof fn law_no_entry_no_field(data: Seq<u8>)
    requires
        has_tiff_header(data),
    ensures
        exif::tiff_exif(data) matches Some(e) && {
            let at = main_place(data);
            &&& is_absent(data, at, 0x0112) ==> e.orientation is None
            &&& is_absent(data, at, 0x010F) ==> e.camera_make is None
            &&& is_absent(data, at, 0x0110) ==> e.camera_model is None
            &&& is_absent(data, at, 0x0131) ==> e.software is None
            &&& is_absent(data, at, 0x0132) ==> e.datetime is None
            &&& is_absent(data, at, 0x8769) ==> e.datetime_original is None && e.exposure_time
                is None && e.f_number is None && e.iso_speed is None && e.focal_length is None
            &&& is_absent(data, at, 0x8825) ==> e.gps_latitude is None && e.gps_longitude is None
                && e.gps_altitude is None
        },
{
    lemma_main(data);
    let at = main_place(data);
    let ifd = directory(data, at);
    let n = entries_at(data, at);
    if is_absent(data, at, 0x010F) {
        lemma_no_text(data, at, 0x010F);
    }
    if is_absent(data, at, 0x0110) {
        lemma_no_text(data, at, 0x0110);
    }
    if is_absent(data, at, 0x0131) {
        lemma_no_text(data, at, 0x0131);
    }
    if is_absent(data, at, 0x0132) {
        lemma_no_text(data, at, 0x0132);
    }
    if is_absent(data, at, 0x0112) {
        let value = |j: int| ifd.orientation_in(j);
        assert forall|j: int| 0 <= j < n implies #[trigger] value(j) is None by {
            lemma_entry(data, at, j);
            assert(tag_of(data, at, j) != 0x0112);
        }
        lemma_none(n, value);
    }
    if is_absent(data, at, 0x8769) {
        lemma_no_pointer(data, at, 0x8769);
    }
    if is_absent(data, at, 0x8825) {
        lemma_no_pointer(data, at, 0x8825);
    }
}

proof fn lemma_no_pointer(data: Seq<u8>, at: int, tag: u16)
    requires
        0 <= at,
        is_absent(data, at, tag as int),
    ensures
        directory(data, at).pointer(entries_at(data, at), tag) is None,
{
    let ifd = directory(data, at);
    let value = |j: int| ifd.pointer_in(j, tag);
    assert forall|j: int| 0 <= j < entries_at(data, at) implies #[trigger] value(j) is None by {
        lemma_entry(data, at, j);
        assert(tag_of(data, at, j) != tag);
    }
    lemma_none(entries_at(data, at), value);
}

/// The main directory points to the directory at `at` by entry number `i`, the
/// last one with the tag and a single value.
pub open spec fn points_to(data: Seq<u8>, i: int, tag: int, at: int) -> bool {
    let main = main_place(data);
    &&& 0 <= i < entries_at(data, main)
    &&& tag_of(data, main, i) == tag
    &&& count_of(data, main, i) == 1
    &&& value_of(data, main, i) == at
    &&& forall|j: int|
        i < j < entries_at(data, main) && #[trigger] tag_of(data, main, j) == tag ==> count_of(
            data,
            main,
            j,
        ) != 1
}

proof fn lemma_pointer(data: Seq<u8>, i: int, tag: u16, at: int)
    requires
        has_tiff_header(data),
        points_to(data, i, tag as int, at),
    ensures
        directory(data, main_place(data)).pointer(entries_at(data, main_place(data)), tag) == Some(
            at as u32,
        ),
        0 <= at <= u32::MAX,
        directory(data, at).count() == entries_at(data, at),
{
    let main = main_place(data);
    let ifd = directory(data, main);
    let n = entries_at(data, main);
    lemma_main(data);
    lemma_entry(data, main, i);
    lemma_entry(data, at, 0);
    let value = |j: int| ifd.pointer_in(j, tag);
    assert forall|j: int| i < j < n implies #[trigger] value(j) is None by {
        lemma_entry(data, main, j);
        assert(tag_of(data, main, j) == tag ==> count_of(data, main, j) != 1);
    }
    lemma_last(n, i, value);
}

/// The two numbers at `at`, numerator and denominator.
pub open spec fn rational_number(data: Seq<u8>, at: int) -> (int, int) {
    (number(stream_order(data), data, at, 4), number(stream_order(data), data, at + 4, 4))
}

/// A pair of machine numbers is a pair of numbers.
pub open spec fn is_pair(found: Option<(u32, u32)>, pair: (int, int)) -> bool {
    found matches Some(r) && r.0 == pair.0 && r.1 == pair.1
}

proof fn lemma_rational(data: Seq<u8>, at: int, i: int, tag: u16)
    requires
        is_last_rationals(data, at, i, tag as int, 1),
    ensures
        is_pair(
            directory(data, at).rational(entries_at(data, at), tag),
            rational_number(data, value_of(data, at, i)),
        ),
{
    let ifd = directory(data, at);
    let n = entries_at(data, at);
    lemma_entry(data, at, i);
    lemma_number(ifd.order, data, value_of(data, at, i));
    lemma_number(ifd.order, data, value_of(data, at, i) + 4);
    let value = |j: int| ifd.rational_in(j, tag);
    assert forall|j: int| i < j < n implies #[trigger] value(j) is None by {
        lemma_entry(data, at, j);
        assert(tag_of(data, at, j) == tag ==> type_of(data, at, j) != 5 || count_of(data, at, j)
            != 1 || value_of(data, at, j) + 8 > data.len());
    }
    lemma_last(n, i, value);
    assert(value(i) is Some);
}

/// A rational in the exposure directory becomes the field of its tag: exposure
/// time, f-number, or focal length.
pub proof fn law_rational_becomes_field(data: Seq<u8>, i: int, at: int, j: int, tag: u16)
    requires
        has_tiff_header(data),
        points_to(data, i, 0x8769, at),
        is_last_rationals(data, at, j, tag as int, 1),
    ensures
        exif::tiff_exif(data) matches Some(e) && {
            let pair = rational_number(data, value_of(data, at, j));
            &&& tag == 0x829A ==> is_pair(e.exposure_time, pair)
            &&& tag == 0x829D ==> is_pair(e.f_number, pair)
            &&& tag == 0x920A ==> is_pair(e.focal_length, pair)
        },
{
    lemma_main(data);
    lemma_pointer(data, i, 0x8769, at);
    lemma_rational(data, at, j, tag);
}

/// The sensitivity is the number under its tag in the exposure directory.
pub proof fn law_sensitivity_becomes_field(data: Seq<u8>, i: int, at: int, j: int)
    requires
        has_tiff_header(data),
        points_to(data, i, 0x8769, at),
        is_last_of(data, at, j, 0x8827, 3, 1),
    ensures
        exif::tiff_exif(data) matches Some(e) && (e.iso_speed matches Some(v) && v == number(
            stream_order(data),
            data,
            value_place(at, j),
            2,
        )),
{
    lemma_main(data);
    lemma_pointer(data, i, 0x8769, at);
    let ifd = directory(data, at);
    let n = entries_at(data, at);
    lemma_entry(data, at, j);
    lemma_number(ifd.order, data, value_place(at, j));
    let value = |k: int| ifd.short_in(k, 0x8827);
    assert forall|k: int| j < k < n implies #[trigger] value(k) is None by {
        lemma_entry(data, at, k);
        assert(tag_of(data, at, k) == 0x8827 ==> type_of(data, at, k) != 3 || count_of(data, at, k)
            != 1);
    }
    lemma_last(n, j, value);
    assert(value(j) is Some);
}

/// The time of capture is the text under its tag in the exposure directory.
pub proof fn law_capture_time_becomes_field(
    data: Seq<u8>,
    i: int,
    at: int,
    j: int,
    bytes: Seq<u8>,
)
    requires
        has_tiff_header(data),
        points_to(data, i, 0x8769, at),
        is_last_text(data, at, j, 0x9003),
        holds_text(data, at, j, bytes),
    ensures
        exif::tiff_exif(data) matches Some(e) && e.datetime_original == Some(
            text::byte_text(bytes),
        ),
{
    lemma_main(data);
    lemma_pointer(data, i, 0x8769, at);
    lemma_text(data, at, j, 0x9003, bytes);
}

proof fn lemma_byte(data: Seq<u8>, at: int, i: int, tag: u16, kind: u16, count: u32)
    requires
        is_last_of(data, at, i, tag as int, kind as int, count as int),
    ensures
        directory(data, at).byte(entries_at(data, at), tag, kind, count) == Some(
            data[value_place(at, i)],
        ),
{
    let ifd = directory(data, at);
    let n = entries_at(data, at);
    lemma_entry(data, at, i);
    let value = |j: int| ifd.byte_in(j, tag, kind, count);
    assert forall|j: int| i < j < n implies #[trigger] value(j) is None by {
        lemma_entry(data, at, j);
        assert(tag_of(data, at, j) == tag ==> type_of(data, at, j) != kind || count_of(data, at, j)
            != count);
    }
    lemma_last(n, i, value);
    assert(value(i) is Some);
}

/// A position is stated in the directory at `at`: entry number `i` holds its
/// letter, and entry number `j` the place of its three rationals.
pub open spec fn states_angle(data: Seq<u8>, at: int, i: int, tag: int, j: int) -> bool {
    &&& is_last_of(data, at, i, tag, 2, 2)
    &&& is_last_rationals(data, at, j, tag + 1, 3)
}

/// An angle is the one of three rationals and a letter: the rationals as they
/// are, and negative for South and West.
pub open spec fn is_angle(
    found: Option<exif::GpsAngle>,
    degrees: (int, int),
    minutes: (int, int),
    seconds: (int, int),
    letter: u8,
) -> bool {
    let known = letter == 0x4E || letter == 0x53 || letter == 0x45 || letter == 0x57;
    let proper = degrees.1 != 0 && minutes.1 != 0 && seconds.1 != 0 && degrees.0 / degrees.1 < 360
        && minutes.0 / minutes.1 < 60 && seconds.0 / seconds.1 < 60;
    match found {
        Some(a) => {
            &&& known && proper
            &&& a.degrees.0 == degrees.0 && a.degrees.1 == degrees.1
            &&& a.minutes.0 == minutes.0 && a.minutes.1 == minutes.1
            &&& a.seconds.0 == seconds.0 && a.seconds.1 == seconds.1
            &&& a.negative <==> letter == 0x53 || letter == 0x57
        },
        None => !(known && proper),
    }
}

proof fn lemma_quotient(part: (u32, u32), limit: int)
    requires
        part.1 != 0,
        limit > 0,
    ensures
        part.0 as int / part.1 as int >= limit <==> part.0 >= limit * part.1,
{
    let (n, d) = (part.0 as int, part.1 as int);
    assert(n / d >= limit <==> n >= limit * d) by (nonlinear_arith)
        requires
            n >= 0,
            d > 0,
            limit > 0,
    ;
}

/// Degrees, minutes and seconds make an angle exactly if no denominator is zero,
/// the quotients are below 360, 60 and 60, and the letter is one of `N`, `S`, `E`
/// and `W`. The angle keeps the parts, and is negative for `S` and `W`.
pub proof fn law_angle_of_parts(
    degrees: (u32, u32),
    minutes: (u32, u32),
    seconds: (u32, u32),
    letter: u8,
)
    ensures
        is_angle(
            exif::angle(degrees, minutes, seconds, letter),
            (degrees.0 as int, degrees.1 as int),
            (minutes.0 as int, minutes.1 as int),
            (seconds.0 as int, seconds.1 as int),
            letter,
        ),
{
    if degrees.1 != 0 && minutes.1 != 0 && seconds.1 != 0 {
        lemma_quotient(degrees, 360);
        lemma_quotient(minutes, 60);
        lemma_quotient(seconds, 60);
    }
}

/// Two rationals are equal as numbers.
pub open spec fn same_quotient(a: (u32, u32), b: (u32, u32)) -> bool {
    a.1 != 0 && b.1 != 0 && a.0 * b.1 == b.0 * a.1
}

proof fn lemma_same_quotient(a: (u32, u32), b: (u32, u32), limit: int)
    requires
        same_quotient(a, b),
        limit > 0,
    ensures
        a.0 >= limit * a.1 <==> b.0 >= limit * b.1,
{
    let (n, d, m, e) = (a.0 as int, a.1 as int, b.0 as int, b.1 as int);
    assert(n >= limit * d <==> m >= limit * e) by (nonlinear_arith)
        requires
            n * e == m * d,
            d > 0,
            e > 0,
            n >= 0,
            m >= 0,
            limit > 0,
    ;
}

/// An angle does not depend on how its parts are written: parts that are equal as
/// numbers make an angle of the same sign, or none.
pub proof fn law_angle_of_equal_parts(
    degrees: (u32, u32),
    minutes: (u32, u32),
    seconds: (u32, u32),
    other_degrees: (u32, u32),
    other_minutes: (u32, u32),
    other_seconds: (u32, u32),
    letter: u8,
)
    requires
        same_quotient(degrees, other_degrees),
        same_quotient(minutes, other_minutes),
        same_quotient(seconds, other_seconds),
    ensures
        ({
            let a = exif::angle(degrees, minutes, seconds, letter);
            let b = exif::angle(other_degrees, other_minutes, other_seconds, letter);
            &&& a is Some <==> b is Some
            &&& a matches Some(x) ==> b matches Some(y) ==> x.negative == y.negative
        }),
{
    lemma_same_quotient(degrees, other_degrees, 360);
    lemma_same_quotient(minutes, other_minutes, 60);
    lemma_same_quotient(seconds, other_seconds, 60);
}

proof fn lemma_angle(data: Seq<u8>, at: int, i: int, tag: u16, j: int)
    requires
        tag < 0xFFFF,
        states_angle(data, at, i, tag as int, j),
    ensures
        ({
            let off = value_of(data, at, j);
            is_angle(
                exif::gps_angle(directory(data, at), tag, (tag + 1) as u16),
                rational_number(data, off),
                rational_number(data, off + 8),
                rational_number(data, off + 16),
                data[value_place(at, i)],
            )
        }),
{
    let ifd = directory(data, at);
    let n = entries_at(data, at);
    let parts = (tag + 1) as u16;
    let off = value_of(data, at, j);
    lemma_byte(data, at, i, tag, 2, 2);
    lemma_entry(data, at, i);
    lemma_entry(data, at, j);
    lemma_number(ifd.order, data, off);
    lemma_number(ifd.order, data, off + 4);
    lemma_number(ifd.order, data, off + 8);
    lemma_number(ifd.order, data, off + 12);
    lemma_number(ifd.order, data, off + 16);
    lemma_number(ifd.order, data, off + 20);
    let value = |k: int| ifd.triple_in(k, parts);
    assert forall|k: int| j < k < n implies #[trigger] value(k) is None by {
        lemma_entry(data, at, k);
        assert(tag_of(data, at, k) == tag + 1 ==> type_of(data, at, k) != 5 || count_of(data, at, k)
            != 3 || value_of(data, at, k) + 24 > data.len());
    }
    lemma_last(n, j, value);
    assert(value(j) is Some);
    let (d, m, s) = value(j)->0;
    law_angle_of_parts(d, m, s, data[value_place(at, i)]);
    assert(off + 8 + 4 == off + 12 && off + 16 + 4 == off + 20);
}

/// Latitude and longitude are the angles that the position directory states, the
/// latitude under the first two tags and the longitude under the next two.
pub proof fn law_angles_become_fields(data: Seq<u8>, p: int, at: int, i: int, j: int)
    requires
        has_tiff_header(data),
        points_to(data, p, 0x8825, at),
    ensures
        exif::tiff_exif(data) matches Some(e) && {
            let off = value_of(data, at, j);
            let letter = data[value_place(at, i)];
            &&& states_angle(data, at, i, 1, j) ==> is_angle(
                e.gps_latitude,
                rational_number(data, off),
                rational_number(data, off + 8),
                rational_number(data, off + 16),
                letter,
            )
            &&& states_angle(data, at, i, 3, j) ==> is_angle(
                e.gps_longitude,
                rational_number(data, off),
                rational_number(data, off + 8),
                rational_number(data, off + 16),
                letter,
            )
        },
{
    lemma_main(data);
    lemma_pointer(data, p, 0x8825, at);
    if states_angle(data, at, i, 1, j) {
        lemma_angle(data, at, i, 1, j);
    }
    if states_angle(data, at, i, 3, j) {
        lemma_angle(data, at, i, 3, j);
    }
}

/// The altitude is the rational that the position directory states, unless its
/// denominator is zero. It is below sea level exactly if the entry for its side
/// holds the byte 1.
pub proof fn law_altitude_becomes_field(data: Seq<u8>, p: int, at: int, i: int, j: int)
    requires
        has_tiff_header(data),
        points_to(data, p, 0x8825, at),
        is_last_rationals(data, at, j, 6, 1),
    ensures
        exif::tiff_exif(data) matches Some(e) && {
            let pair = rational_number(data, value_of(data, at, j));
            &&& e.gps_altitude is Some <==> pair.1 != 0
            &&& e.gps_altitude matches Some(a) ==> {
                &&& a.metres.0 == pair.0 && a.metres.1 == pair.1
                &&& is_absent(data, at, 5) ==> !a.below_sea_level
                &&& is_last_of(data, at, i, 5, 1, 1) ==> (a.below_sea_level <==> data[value_place(
                    at,
                    i,
                )] == 1)
            }
        },
{
    lemma_main(data);
    lemma_pointer(data, p, 0x8825, at);
    lemma_rational(data, at, j, 6);
    let ifd = directory(data, at);
    if is_absent(data, at, 5) {
        let value = |k: int| ifd.byte_in(k, 5, 1, 1);
        assert forall|k: int| 0 <= k < entries_at(data, at) implies #[trigger] value(k) is None by {
            lemma_entry(data, at, k);
            assert(tag_of(data, at, k) != 5);
        }
        lemma_none(entries_at(data, at), value);
    }
    if is_last_of(data, at, i, 5, 1, 1) {
        lemma_byte(data, at, i, 5, 1, 1);
    }
}

/// Entry number `i` of the directory at `at` is the only one with the tag.
pub open spec fn is_only(data: Seq<u8>, at: int, i: int, tag: int) -> bool {
    &&& 0 <= at
    &&& 0 <= i < entries_at(data, at)
    &&& tag_of(data, at, i) == tag
    &&& forall|j: int|
        0 <= j < entries_at(data, at) && j != i ==> #[trigger] tag_of(data, at, j) != tag
}

proof fn lemma_unusable_text(data: Seq<u8>, at: int, i: int, tag: u16)
    requires
        is_only(data, at, i, tag as int),
        holds_no_text(data, at, i),
    ensures
        directory(data, at).text(entries_at(data, at), tag) is None,
{
    let ifd = directory(data, at);
    let n = entries_at(data, at);
    let value = |j: int| ifd.text_in(j, tag);
    assert forall|j: int| 0 <= j < n implies #[trigger] value(j) is None by {
        assert(j != i ==> tag_of(data, at, j) != tag);
        lemma_text_none(data, at, j, tag);
    }
    lemma_none(n, value);
}

/// An entry that cannot be used gives its field nothing: a text of another type,
/// outside the stream or empty, and an orientation of another type or number of
/// values, or out of range. A pointer with a number of values other than one
/// leads nowhere.
pub proof fn law_unusable_main_entry(data: Seq<u8>, i: int, tag: u16)
    requires
        has_tiff_header(data),
        is_only(data, main_place(data), i, tag as int),
    ensures
        exif::tiff_exif(data) matches Some(e) && {
            let at = main_place(data);
            let v = number(stream_order(data), data, value_place(at, i), 2);
            &&& holds_no_text(data, at, i) ==> {
                &&& tag == 0x010F ==> e.camera_make is None
                &&& tag == 0x0110 ==> e.camera_model is None
                &&& tag == 0x0131 ==> e.software is None
                &&& tag == 0x0132 ==> e.datetime is None
            }
            &&& tag == 0x0112 && (type_of(data, at, i) != 3 || count_of(data, at, i) != 1 || v < 1
                || v > 8) ==> e.orientation is None
            &&& tag == 0x8769 && count_of(data, at, i) != 1 ==> e.exposure_time is None
                && e.f_number is None && e.iso_speed is None && e.focal_length is None
                && e.datetime_original is None
            &&& tag == 0x8825 && count_of(data, at, i) != 1 ==> e.gps_latitude is None
                && e.gps_longitude is None && e.gps_altitude is None
        },
{
    lemma_main(data);
    let at = main_place(data);
    let ifd = directory(data, at);
    let n = entries_at(data, at);
    lemma_entry(data, at, i);
    lemma_number(ifd.order, data, value_place(at, i));
    if holds_no_text(data, at, i) {
        lemma_unusable_text(data, at, i, tag);
    }
    let v = number(ifd.order, data, value_place(at, i), 2);
    if tag == 0x0112 && (type_of(data, at, i) != 3 || count_of(data, at, i) != 1 || v < 1 || v
        > 8) {
        let value = |j: int| ifd.orientation_in(j);
        assert forall|j: int| 0 <= j < n implies #[trigger] value(j) is None by {
            lemma_entry(data, at, j);
            assert(j != i ==> tag_of(data, at, j) != 0x0112);
        }
        lemma_none(n, value);
    }
    if count_of(data, at, i) != 1 {
        let value = |j: int| ifd.pointer_in(j, tag);
        assert forall|j: int| 0 <= j < n implies #[trigger] value(j) is None by {
            lemma_entry(data, at, j);
            assert(j != i ==> tag_of(data, at, j) != tag);
        }
        lemma_none(n, value);
    }
}

/// A tag gives nothing in the directory at `at`: it is absent, or the only entry
/// with it has another type or number of values.
pub open spec fn gives_nothing(data: Seq<u8>, at: int, i: int, tag: int, kind: int, count: int) -> bool {
    ||| is_absent(data, at, tag)
    ||| is_only(data, at, i, tag) && (type_of(data, at, i) != kind || count_of(data, at, i)
        != count)
}

/// A tag gives no rationals in the directory at `at`: it gives nothing, or they
/// do not lie inside the stream.
pub open spec fn gives_no_rationals(data: Seq<u8>, at: int, i: int, tag: int, count: int) -> bool {
    ||| gives_nothing(data, at, i, tag, 5, count)
    ||| is_only(data, at, i, tag) && value_of(data, at, i) + 8 * count > data.len()
}

proof fn lemma_no_rational(data: Seq<u8>, at: int, i: int, tag: u16)
    requires
        0 <= at,
        gives_no_rationals(data, at, i, tag as int, 1),
    ensures
        directory(data, at).rational(entries_at(data, at), tag) is None,
{
    let ifd = directory(data, at);
    let n = entries_at(data, at);
    let value = |j: int| ifd.rational_in(j, tag);
    assert forall|j: int| 0 <= j < n implies #[trigger] value(j) is None by {
        lemma_entry(data, at, j);
        assert(j != i || is_absent(data, at, tag as int) ==> tag_of(data, at, j) != tag);
    }
    lemma_none(n, value);
}

/// What the exposure directory does not hold, or holds in another type or number
/// or outside the stream, is absent.
pub proof fn law_unusable_exposure_entry(data: Seq<u8>, p: int, at: int, i: int)
    requires
        has_tiff_header(data),
        points_to(data, p, 0x8769, at),
    ensures
        exif::tiff_exif(data) matches Some(e) && {
            &&& gives_no_rationals(data, at, i, 0x829A, 1) ==> e.exposure_time is None
            &&& gives_no_rationals(data, at, i, 0x829D, 1) ==> e.f_number is None
            &&& gives_no_rationals(data, at, i, 0x920A, 1) ==> e.focal_length is None
            &&& gives_nothing(data, at, i, 0x8827, 3, 1) ==> e.iso_speed is None
            &&& is_absent(data, at, 0x9003) || (is_only(data, at, i, 0x9003) && holds_no_text(
                data,
                at,
                i,
            )) ==> e.datetime_original is None
        },
{
    lemma_main(data);
    lemma_pointer(data, p, 0x8769, at);
    let ifd = directory(data, at);
    let n = entries_at(data, at);
    if gives_no_rationals(data, at, i, 0x829A, 1) {
        lemma_no_rational(data, at, i, 0x829A);
    }
    if gives_no_rationals(data, at, i, 0x829D, 1) {
        lemma_no_rational(data, at, i, 0x829D);
    }
    if gives_no_rationals(data, at, i, 0x920A, 1) {
        lemma_no_rational(data, at, i, 0x920A);
    }
    if gives_nothing(data, at, i, 0x8827, 3, 1) {
        let value = |j: int| ifd.short_in(j, 0x8827);
        assert forall|j: int| 0 <= j < n implies #[trigger] value(j) is None by {
            lemma_entry(data, at, j);
            assert(j != i || is_absent(data, at, 0x8827) ==> tag_of(data, at, j) != 0x8827);
        }
        lemma_none(n, value);
    }
    if is_absent(data, at, 0x9003) {
        lemma_no_text(data, at, 0x9003);
    } else if is_only(data, at, i, 0x9003) && holds_no_text(data, at, i) {
        lemma_unusable_text(data, at, i, 0x9003);
    }
}

proof fn lemma_no_byte(data: Seq<u8>, at: int, i: int, tag: u16, kind: u16, count: u32)
    requires
        0 <= at,
        gives_nothing(data, at, i, tag as int, kind as int, count as int),
    ensures
        directory(data, at).byte(entries_at(data, at), tag, kind, count) is None,
{
    let ifd = directory(data, at);
    let n = entries_at(data, at);
    let value = |j: int| ifd.byte_in(j, tag, kind, count);
    assert forall|j: int| 0 <= j < n implies #[trigger] value(j) is None by {
        lemma_entry(data, at, j);
        assert(j != i || is_absent(data, at, tag as int) ==> tag_of(data, at, j) != tag);
    }
    lemma_none(n, value);
}

proof fn lemma_no_triple(data: Seq<u8>, at: int, i: int, tag: u16)
    requires
        0 <= at,
        gives_no_rationals(data, at, i, tag as int, 3),
    ensures
        directory(data, at).triple(entries_at(data, at), tag) is None,
{
    let ifd = directory(data, at);
    let n = entries_at(data, at);
    let value = |j: int| ifd.triple_in(j, tag);
    assert forall|j: int| 0 <= j < n implies #[trigger] value(j) is None by {
        lemma_entry(data, at, j);
        assert(j != i || is_absent(data, at, tag as int) ==> tag_of(data, at, j) != tag);
    }
    lemma_none(n, value);
}

/// A position is absent without its letter or without its three rationals, and
/// an altitude without its rational. A side that is of another type or number
/// counts as above sea level.
pub proof fn law_unusable_position_entry(data: Seq<u8>, p: int, at: int, i: int)
    requires
        has_tiff_header(data),
        points_to(data, p, 0x8825, at),
    ensures
        exif::tiff_exif(data) matches Some(e) && {
            &&& gives_nothing(data, at, i, 1, 2, 2) || gives_no_rationals(data, at, i, 2, 3)
                ==> e.gps_latitude is None
            &&& gives_nothing(data, at, i, 3, 2, 2) || gives_no_rationals(data, at, i, 4, 3)
                ==> e.gps_longitude is None
            &&& gives_no_rationals(data, at, i, 6, 1) ==> e.gps_altitude is None
            &&& gives_nothing(data, at, i, 5, 1, 1) ==> (e.gps_altitude matches Some(a)
                ==> !a.below_sea_level)
        },
{
    lemma_main(data);
    lemma_pointer(data, p, 0x8825, at);
    if gives_nothing(data, at, i, 1, 2, 2) {
        lemma_no_byte(data, at, i, 1, 2, 2);
    }
    if gives_no_rationals(data, at, i, 2, 3) {
        lemma_no_triple(data, at, i, 2);
    }
    if gives_nothing(data, at, i, 3, 2, 2) {
        lemma_no_byte(data, at, i, 3, 2, 2);
    }
    if gives_no_rationals(data, at, i, 4, 3) {
        lemma_no_triple(data, at, i, 4);
    }
    if gives_no_rationals(data, at, i, 6, 1) {
        lemma_no_rational(data, at, i, 6);
    }
    if gives_nothing(data, at, i, 5, 1, 1) {
        lemma_no_byte(data, at, i, 5, 1, 1);
    }
}

} // verus!
