//! TIFF streams: byte order, numbers, directories of tagged values, text.

use vstd::prelude::*;
use crate::text;
use crate::text::decode_text;

verus! {

/// Byte order of a TIFF stream.
#[derive(Debug, Clone, Copy, PartialEq, Eq, Structural)]
pub enum ByteOrder {
    /// Little-endian (`II`, Intel).
    Little,
    /// Big-endian (`MM`, Motorola).
    Big,
}

/// TIFF type of a byte.
pub const TIFF_TYPE_BYTE: u16 = 1;

/// TIFF type of a text.
pub const TIFF_TYPE_ASCII: u16 = 2;

/// TIFF type of a 16-bit number.
pub const TIFF_TYPE_SHORT: u16 = 3;

/// TIFF type of a 32-bit number.
pub const TIFF_TYPE_LONG: u16 = 4;

/// TIFF type of a pair of 32-bit numbers, numerator and denominator.
pub const TIFF_TYPE_RATIONAL: u16 = 5;

/// The largest number of entries that is read of a directory, whatever the
/// directory claims to hold.
pub const MAX_IFD_ENTRIES: u16 = 1000;

/// The 16-bit number at `at`.
pub open spec fn number16(order: ByteOrder, data: Seq<u8>, at: int) -> u16 {
    match order {
        ByteOrder::Little => (data[at] + 0x100 * data[at + 1]) as u16,
        ByteOrder::Big => (data[at + 1] + 0x100 * data[at]) as u16,
    }
}

/// The 32-bit number at `at`.
pub open spec fn number32(order: ByteOrder, data: Seq<u8>, at: int) -> u32 {
    match order {
        ByteOrder::Little => (data[at] + 0x100 * data[at + 1] + 0x1_0000 * data[at + 2]
            + 0x100_0000 * data[at + 3]) as u32,
        ByteOrder::Big => (data[at + 3] + 0x100 * data[at + 2] + 0x1_0000 * data[at + 1]
            + 0x100_0000 * data[at]) as u32,
    }
}

/// The byte at `at`, if the data reaches that far.
pub open spec fn read8(data: Seq<u8>, at: int) -> Option<u8> {
    if at < data.len() {
        Some(data[at])
    } else {
        None
    }
}

/// The 16-bit number at `at`, if the data reaches that far.
pub open spec fn read16(order: ByteOrder, data: Seq<u8>, at: int) -> Option<u16> {
    if at + 2 <= data.len() {
        Some(number16(order, data, at))
    } else {
        None
    }
}

/// The 32-bit number at `at`, if the data reaches that far.
pub open spec fn read32(order: ByteOrder, data: Seq<u8>, at: int) -> Option<u32> {
    if at + 4 <= data.len() {
        Some(number32(order, data, at))
    } else {
        None
    }
}

/// The numerator and denominator at `at`, if the data reaches that far.
pub open spec fn read_rational(order: ByteOrder, data: Seq<u8>, at: int) -> Option<(u32, u32)> {
    if at + 8 <= data.len() {
        Some((number32(order, data, at), number32(order, data, at + 4)))
    } else {
        None
    }
}

/// Bounds-checked reader over a TIFF byte stream with a fixed byte order.
///
/// All offset-based accessors return `Option`: out-of-bounds reads produce
/// `None`.
pub struct TiffReader<'a> {
    /// The stream.
    pub data: &'a [u8],
    /// Its byte order.
    pub order: ByteOrder,
}

impl<'a> TiffReader<'a> {
    /// Creates a new reader over `data` with the given byte order.
    pub fn new(data: &'a [u8], order: ByteOrder) -> (reader: Self)
        ensures
            reader.data == data,
            reader.order == order,
    {
        TiffReader { data, order }
    }

    /// Total length of the underlying data.
    pub fn len(&self) -> (n: usize)
        ensures
            n == self.data@.len(),
    {
        self.data.len()
    }

    /// Reads a single byte at `offset`.
    pub fn u8_at(&self, offset: usize) -> (v: Option<u8>)
        ensures
            v == read8(self.data@, offset as int),
    {
        if offset < self.data.len() {
            Some(self.data[offset])
        } else {
            None
        }
    }

    /// Reads a 16-bit unsigned integer at `offset`, respecting byte order.
    pub fn u16_at(&self, offset: usize) -> (v: Option<u16>)
        ensures
            v == read16(self.order, self.data@, offset as int),
    {
        let n: usize = self.data.len();
        if n < 2 || offset > n - 2 {
            return None;
        }
        let b0: u16 = self.data[offset] as u16;
        let b1: u16 = self.data[offset + 1] as u16;
        Some(
            match self.order {
                ByteOrder::Little => b0 + 0x100 * b1,
                ByteOrder::Big => b1 + 0x100 * b0,
            },
        )
    }

    /// Reads a 32-bit unsigned integer at `offset`, respecting byte order.
    pub fn u32_at(&self, offset: usize) -> (v: Option<u32>)
        ensures
            v == read32(self.order, self.data@, offset as int),
    {
        let n: usize = self.data.len();
        if n < 4 || offset > n - 4 {
            return None;
        }
        let b0: u32 = self.data[offset] as u32;
        let b1: u32 = self.data[offset + 1] as u32;
        let b2: u32 = self.data[offset + 2] as u32;
        let b3: u32 = self.data[offset + 3] as u32;
        Some(
            match self.order {
                ByteOrder::Little => b0 + 0x100 * b1 + 0x1_0000 * b2 + 0x100_0000 * b3,
                ByteOrder::Big => b3 + 0x100 * b2 + 0x1_0000 * b1 + 0x100_0000 * b0,
            },
        )
    }

    /// Reads a TIFF RATIONAL (two consecutive 32-bit numbers: numerator,
    /// denominator) at `offset`, respecting byte order.
    pub fn rational_at(&self, offset: usize) -> (v: Option<(u32, u32)>)
        ensures
            v == read_rational(self.order, self.data@, offset as int),
    {
        let n: usize = self.data.len();
        if n < 8 || offset > n - 8 {
            return None;
        }
        let num: u32 = self.u32_at(offset).unwrap();
        let den: u32 = self.u32_at(offset + 4).unwrap();
        Some((num, den))
    }
}

/// A raw directory entry parsed from a TIFF stream.
///
/// If the value fits in 4 bytes (based on type and count), `value_or_offset`
/// holds the value directly (left-aligned in the 4-byte field). Otherwise it is
/// a byte offset into the TIFF stream where the value is stored.
#[derive(Debug, Clone, Copy, PartialEq, Eq, Structural)]
pub struct IfdEntry {
    /// Tag number (e.g. 0x0112 = Orientation).
    pub tag: u16,
    /// TIFF data type.
    pub tiff_type: u16,
    /// Number of values of the given type.
    pub count: u32,
    /// The value itself (if it fits in 4 bytes) or an offset to the value.
    pub value_or_offset: u32,
}

/// The directory entry at `at`.
pub open spec fn entry_at(order: ByteOrder, data: Seq<u8>, at: int) -> IfdEntry {
    IfdEntry {
        tag: number16(order, data, at),
        tiff_type: number16(order, data, at + 2),
        count: number32(order, data, at + 4),
        value_or_offset: number32(order, data, at + 8),
    }
}

/// The number of entries that are read of the directory at `at`: as many as it
/// claims to hold, but no more than the limit, and no more than lie inside the
/// data.
pub open spec fn entry_count(order: ByteOrder, data: Seq<u8>, at: int) -> int {
    if at + 2 > data.len() {
        0
    } else {
        let claimed = number16(order, data, at) as int;
        let wanted = if claimed <= MAX_IFD_ENTRIES {
            claimed
        } else {
            MAX_IFD_ENTRIES as int
        };
        let room = (data.len() - at - 2) / 12;
        if wanted <= room {
            wanted
        } else {
            room
        }
    }
}

/// The entries of the directory at `at`.
pub open spec fn ifd_entries(order: ByteOrder, data: Seq<u8>, at: int) -> Seq<IfdEntry> {
    Seq::new(
        entry_count(order, data, at) as nat,
        |i: int| entry_at(order, data, at + 2 + 12 * i),
    )
}

/// Reads all entries of the directory at `ifd_offset`.
///
/// Gives none if the offset is out of bounds, caps the entry count at
/// [`MAX_IFD_ENTRIES`], and stops at the first entry that lies partly outside
/// the data.
pub fn read_ifd_entries(reader: &TiffReader<'_>, ifd_offset: usize) -> (entries: Vec<IfdEntry>)
    ensures
        entries@ == ifd_entries(reader.order, reader.data@, ifd_offset as int),
{
    let mut entries: Vec<IfdEntry> = Vec::new();
    let n: usize = reader.data.len();
    let claimed: u16 = match reader.u16_at(ifd_offset) {
        Some(c) => c,
        None => {
            assert(entries@ =~= ifd_entries(reader.order, reader.data@, ifd_offset as int));
            return entries;
        },
    };
    let wanted: u16 = if claimed <= MAX_IFD_ENTRIES {
        claimed
    } else {
        MAX_IFD_ENTRIES
    };
    let mut i: u16 = 0;
    let mut base: usize = ifd_offset + 2;
    while i < wanted && n - base >= 12
        invariant
            n == reader.data@.len(),
            ifd_offset + 2 <= n,
            claimed == number16(reader.order, reader.data@, ifd_offset as int),
            wanted == if claimed <= MAX_IFD_ENTRIES {
                claimed
            } else {
                MAX_IFD_ENTRIES
            },
            i <= wanted,
            base == ifd_offset + 2 + 12 * i,
            base <= n,
            entries@ == Seq::new(
                i as nat,
                |k: int| entry_at(reader.order, reader.data@, ifd_offset + 2 + 12 * k),
            ),
        decreases wanted - i,
    {
        let entry = IfdEntry {
            tag: reader.u16_at(base).unwrap(),
            tiff_type: reader.u16_at(base + 2).unwrap(),
            count: reader.u32_at(base + 4).unwrap(),
            value_or_offset: reader.u32_at(base + 8).unwrap(),
        };
        entries.push(entry);
        i += 1;
        base += 12;
        assert(entries@ =~= Seq::new(
            i as nat,
            |k: int| entry_at(reader.order, reader.data@, ifd_offset + 2 + 12 * k),
        ));
    }
    assert(i == entry_count(reader.order, reader.data@, ifd_offset as int));
    entries
}

/// A directory never yields more entries than the limit, nor more than the
/// data has room for.
pub proof fn law_entries_are_bounded(order: ByteOrder, data: Seq<u8>, at: nat)
    ensures
        ifd_entries(order, data, at as int).len() <= MAX_IFD_ENTRIES,
        12 * ifd_entries(order, data, at as int).len() <= data.len(),
{
}

/// A byte string without the zero bytes at its end.
pub open spec fn trim_nuls(s: Seq<u8>) -> Seq<u8>
    decreases s.len(),
{
    if s.len() > 0 && s.last() == 0 {
        trim_nuls(s.drop_last())
    } else {
        s
    }
}

/// The text of `count` bytes at `at`: `None` if they do not lie inside the
/// data, or hold nothing but zeros.
pub open spec fn ascii_value(data: Seq<u8>, at: int, count: int) -> Option<Seq<char>> {
    if count == 0 || at + count > data.len() {
        None
    } else {
        let trimmed = trim_nuls(data.subrange(at, at + count));
        if trimmed.len() == 0 {
            None
        } else {
            Some(text::byte_text(trimmed))
        }
    }
}

/// An optional text as a mathematical value.
pub open spec fn text_view(t: Option<String>) -> Option<Seq<char>> {
    match t {
        Some(s) => Some(s@),
        None => None,
    }
}

/// Reads a text from the TIFF stream.
///
/// `offset` is the byte offset where the text starts, and `count` its length
/// including the trailing zero. Trailing zeros are trimmed. Valid UTF-8 is
/// taken as it is, and anything else as Latin-1, which real cameras write.
///
/// Gives `None` if the range is out of bounds or the result is empty after
/// trimming.
pub fn read_ascii(reader: &TiffReader<'_>, offset: usize, count: u32) -> (t: Option<String>)
    ensures
        text_view(t) == ascii_value(reader.data@, offset as int, count as int),
{
    let n: usize = reader.data.len();
    let size: usize = count as usize;
    if size == 0 || size > n || offset > n - size {
        return None;
    }
    let ghost whole = reader.data@.subrange(offset as int, offset + size);
    let mut end: usize = offset + size;
    assert(reader.data@.subrange(offset as int, end as int) == whole);
    while end > offset && reader.data[end - 1] == 0
        invariant
            n == reader.data@.len(),
            offset <= end <= n,
            trim_nuls(reader.data@.subrange(offset as int, end as int)) == trim_nuls(whole),
        decreases end - offset,
    {
        proof {
            let s = reader.data@.subrange(offset as int, end as int);
            assert(s.last() == reader.data@[end - 1]);
            assert(s.drop_last() =~= reader.data@.subrange(offset as int, end - 1));
        }
        end -= 1;
    }
    let trimmed: &[u8] = &reader.data[offset..end];
    proof {
        if end > offset {
            assert(trimmed@.last() == reader.data@[end - 1]);
        }
        assert(trim_nuls(trimmed@) == trimmed@);
    }
    if end == offset {
        return None;
    }
    Some(decode_text(trimmed))
}

/// Where the text of a directory entry starts: in the entry itself if it fits
/// there, and otherwise at the offset that the entry names.
pub open spec fn ascii_start(count: u32, value_or_offset: u32, entry_value_offset: int) -> int {
    if count <= 4 {
        entry_value_offset
    } else {
        value_or_offset as int
    }
}

/// Reads a text from a directory entry, whether the entry holds it (up to 4
/// bytes) or refers to it. `entry_value_offset` is where the entry's own value
/// field starts.
pub fn read_ifd_ascii(
    reader: &TiffReader<'_>,
    count: u32,
    value_or_offset: u32,
    entry_value_offset: usize,
) -> (t: Option<String>)
    ensures
        text_view(t) == ascii_value(
            reader.data@,
            ascii_start(count, value_or_offset, entry_value_offset as int),
            count as int,
        ),
{
    if count <= 4 {
        read_ascii(reader, entry_value_offset, count)
    } else {
        read_ascii(reader, value_or_offset as usize, count)
    }
}

/// The two byte orders read the same number from mirrored bytes.
pub proof fn law_byte_orders_mirror(b0: u8, b1: u8, b2: u8, b3: u8)
    ensures
        number16(ByteOrder::Little, seq![b0, b1], 0) == number16(ByteOrder::Big, seq![b1, b0], 0),
        number32(ByteOrder::Little, seq![b0, b1, b2, b3], 0) == number32(
            ByteOrder::Big,
            seq![b3, b2, b1, b0],
            0,
        ),
{
}

} // verus!
