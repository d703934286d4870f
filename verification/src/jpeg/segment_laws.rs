//! What the marker segments of a file say.
//!
//! The part of a file before the compressed image data is a series of pieces:
//! segments, and gaps between them that mean nothing. The laws say what is found
//! in every such series.

use vstd::prelude::*;
use crate::jpeg::markers;
use crate::jpeg::JpegPixelDensity;
use crate::text;

verus! {

/// A segment, and the gap in front of it.
pub struct Piece {
    /// Bytes in front of the segment that mean nothing.
    pub gap: Seq<u8>,
    /// The marker of the segment.
    pub marker: u8,
    /// What the segment holds.
    pub payload: Seq<u8>,
}

/// Markers that are followed by a length: all but the ones that stand for
/// themselves, the one after which compressed data starts, and the byte that
/// only fills.
pub open spec fn has_length(marker: u8) -> bool {
    &&& marker != 0x00 && marker != 0x01
    &&& !(0xD0 <= marker <= 0xD7)
    &&& marker != 0xDA
    &&& marker != 0xFF
}

/// Bytes between segments that mean nothing: anything but the start of a marker,
/// markers that stand for themselves, and filling bytes in front of a marker.
pub open spec fn is_gap(gap: Seq<u8>) -> bool
    decreases gap.len(),
{
    if gap.len() == 0 {
        true
    } else if gap[0] != 0xFF || gap.len() == 1 || gap[1] == 0xFF {
        is_gap(gap.drop_first())
    } else {
        (gap[1] == 0x00 || gap[1] == 0x01 || 0xD0 <= gap[1] <= 0xD7) && is_gap(
            gap.drop_first().drop_first(),
        )
    }
}

/// A piece that can stand in a file.
pub open spec fn is_piece(piece: Piece) -> bool {
    is_gap(piece.gap) && has_length(piece.marker) && piece.payload.len() <= 0xFFFD
}

/// All pieces can stand in a file.
pub open spec fn are_pieces(pieces: Seq<Piece>) -> bool {
    forall|i: int| 0 <= i < pieces.len() ==> is_piece(#[trigger] pieces[i])
}

/// The bytes of a segment: its marker, the length of the rest, and what it holds.
pub open spec fn segment_bytes(marker: u8, payload: Seq<u8>) -> Seq<u8> {
    let length = payload.len() + 2;
    seq![0xFFu8, marker, (length / 256) as u8, (length % 256) as u8] + payload
}

/// The bytes of a series of pieces, and of what follows.
pub open spec fn chain(pieces: Seq<Piece>, rest: Seq<u8>) -> Seq<u8>
    decreases pieces.len(),
{
    if pieces.len() == 0 {
        rest
    } else {
        pieces[0].gap + (segment_bytes(pieces[0].marker, pieces[0].payload) + chain(
            pieces.drop_first(),
            rest,
        ))
    }
}

/// The search for segments ends here: nothing follows, or compressed image data,
/// or a segment that does not lie inside the file.
pub open spec fn is_end(rest: Seq<u8>) -> bool {
    ||| rest.len() == 0
    ||| rest.len() >= 2 && rest[0] == 0xFF && rest[1] == 0xDA
    ||| rest.len() >= 2 && rest[0] == 0xFF && has_length(rest[1]) && (rest.len() < 4 || rest[2] * 256
        + rest[3] < 2 || 2 + rest[2] * 256 + rest[3] > rest.len())
}

/// The texts of the comments among pieces, in their order.
pub open spec fn comment_texts(pieces: Seq<Piece>) -> Seq<Seq<char>>
    decreases pieces.len(),
{
    if pieces.len() == 0 {
        Seq::empty()
    } else if pieces[0].marker == 0xFE {
        seq![text::byte_text(pieces[0].payload)] + comment_texts(pieces.drop_first())
    } else {
        comment_texts(pieces.drop_first())
    }
}

/// A piece is a JFIF header: five letters, and enough bytes for a density.
pub open spec fn is_jfif_header(piece: Piece) -> bool {
    let p = piece.payload;
    &&& piece.marker == 0xE0
    &&& p.len() >= 12
    &&& p[0] == 0x4A && p[1] == 0x46 && p[2] == 0x49 && p[3] == 0x46 && p[4] == 0
}

/// The density is the one that a JFIF header states: the unit, and two numbers,
/// each with its high byte first.
pub open spec fn states_density(p: Seq<u8>, density: JpegPixelDensity) -> bool {
    match density {
        JpegPixelDensity::Dpi { x, y } => p[7] == 1 && x == 256 * p[8] + p[9] && y == 256 * p[10]
            + p[11],
        JpegPixelDensity::Dpcm { x, y } => p[7] == 2 && x == 256 * p[8] + p[9] && y == 256 * p[10]
            + p[11],
        JpegPixelDensity::AspectRatio { x, y } => p[7] != 1 && p[7] != 2 && x == 256 * p[8] + p[9]
            && y == 256 * p[10] + p[11],
    }
}

proof fn lemma_gap(data: Seq<u8>, pos: int, gap: Seq<u8>, more: Seq<u8>)
    requires
        0 <= pos <= data.len(),
        data.skip(pos) == gap + more,
        is_gap(gap),
        more.len() == 0 || more[0] == 0xFF,
    ensures
        markers::comments_from(data, pos) == markers::comments_from(data, pos + gap.len()),
        markers::density_from(data, pos) == markers::density_from(data, pos + gap.len()),
    decreases gap.len(),
{
    if gap.len() > 0 {
        let s = data.skip(pos);
        assert(s.len() == data.len() - pos);
        assert(s[0] == gap[0] && s[0] == data[pos]);
        let one = gap.drop_first();
        assert(data.skip(pos + 1) =~= s.drop_first());
        assert(s.drop_first() =~= one + more);
        if gap[0] != 0xFF || gap.len() == 1 || gap[1] == 0xFF {
            assert(!markers::is_marker(data, pos)) by {
                if gap.len() > 1 {
                    assert(s[1] == gap[1] && s[1] == data[pos + 1]);
                } else if more.len() > 0 {
                    assert(s[1] == more[0] && s[1] == data[pos + 1]);
                }
            }
            assert(markers::next_segment(data, pos) == markers::next_segment(data, pos + 1));
            lemma_gap(data, pos + 1, one, more);
        } else {
            assert(s[1] == gap[1] && s[1] == data[pos + 1]);
            assert(markers::is_marker(data, pos));
            assert(markers::next_segment(data, pos) == Some((gap[1], pos + 2, pos + 2)));
            let two = one.drop_first();
            assert(data.skip(pos + 2) =~= s.drop_first().drop_first());
            assert(s.drop_first().drop_first() =~= two + more);
            lemma_gap(data, pos + 2, two, more);
        }
    }
}

proof fn lemma_segment(data: Seq<u8>, pos: int, marker: u8, payload: Seq<u8>, more: Seq<u8>)
    requires
        0 <= pos <= data.len(),
        data.skip(pos) == segment_bytes(marker, payload) + more,
        has_length(marker),
        payload.len() <= 0xFFFD,
    ensures
        ({
            let end = pos + 4 + payload.len();
            &&& markers::next_segment(data, pos) == Some((marker, pos + 2, end))
            &&& data.subrange(pos + 4, end) == payload
            &&& end <= data.len()
            &&& data.skip(end) == more
        }),
{
    let s = data.skip(pos);
    let length = payload.len() + 2;
    let end = pos + 4 + payload.len();
    assert(s.len() == 4 + payload.len() + more.len());
    assert(s[0] == 0xFF && s[1] == marker);
    assert(s[2] == (length / 256) as u8 && s[3] == (length % 256) as u8);
    assert(data[pos] == s[0] && data[pos + 1] == s[1]);
    assert(data[pos + 2] == s[2] && data[pos + 3] == s[3]);
    assert(markers::is_marker(data, pos));
    assert(markers::segment_length(data, pos + 2) == Some(length as int));
    assert(data.subrange(pos + 4, end) =~= s.subrange(4, 4 + payload.len() as int));
    assert(s.subrange(4, 4 + payload.len() as int) =~= payload);
    assert(data.skip(end) =~= s.skip(4 + payload.len() as int));
    assert(s.skip(4 + payload.len() as int) =~= more);
}

proof fn lemma_end(data: Seq<u8>, pos: int, rest: Seq<u8>)
    requires
        0 <= pos <= data.len(),
        data.skip(pos) == rest,
        is_end(rest),
    ensures
        markers::next_segment(data, pos) is None,
{
    assert(rest.len() == data.len() - pos);
    if rest.len() >= 2 {
        assert(rest[0] == data[pos] && rest[1] == data[pos + 1]);
        assert(markers::is_marker(data, pos));
        if rest.len() >= 4 {
            assert(rest[2] == data[pos + 2] && rest[3] == data[pos + 3]);
        }
    }
}

proof fn lemma_chain(data: Seq<u8>, pos: int, pieces: Seq<Piece>, gap: Seq<u8>, rest: Seq<u8>)
    requires
        0 <= pos <= data.len(),
        data.skip(pos) == chain(pieces, gap + rest),
        are_pieces(pieces),
        is_gap(gap),
        is_end(rest),
    ensures
        markers::comments_from(data, pos) == comment_texts(pieces),
        match markers::density_from(data, pos) {
            Some(d) => exists|i: int|
                #![trigger pieces[i]]
                0 <= i < pieces.len() && is_jfif_header(pieces[i]) && states_density(
                    pieces[i].payload,
                    d,
                ) && forall|k: int| 0 <= k < i ==> !is_jfif_header(#[trigger] pieces[k]),
            None => forall|k: int|
                0 <= k < pieces.len() ==> !is_jfif_header(#[trigger] pieces[k]),
        },
    decreases pieces.len(),
{
    if pieces.len() == 0 {
        lemma_gap(data, pos, gap, rest);
        assert(data.skip(pos).len() == gap.len() + rest.len());
        let at = pos + gap.len() as int;
        assert(data.skip(at) =~= data.skip(pos).skip(gap.len() as int));
        assert((gap + rest).skip(gap.len() as int) =~= rest);
        lemma_end(data, at, rest);
    } else {
        let p = pieces[0];
        let tail = pieces.drop_first();
        let more = chain(tail, gap + rest);
        let bytes = segment_bytes(p.marker, p.payload);
        assert(is_piece(p));
        assert((bytes + more)[0] == 0xFF);
        lemma_gap(data, pos, p.gap, bytes + more);
        assert(data.skip(pos).len() == p.gap.len() + (bytes + more).len());
        let at = pos + p.gap.len() as int;
        assert(data.skip(at) =~= data.skip(pos).skip(p.gap.len() as int));
        assert((p.gap + (bytes + more)).skip(p.gap.len() as int) =~= bytes + more);
        lemma_segment(data, at, p.marker, p.payload, more);
        let end = at + 4 + p.payload.len() as int;
        assert(are_pieces(tail)) by {
            assert forall|i: int| 0 <= i < tail.len() implies is_piece(#[trigger] tail[i]) by {
                assert(tail[i] == pieces[i + 1]);
            }
        }
        lemma_chain(data, end, tail, gap, rest);
        lemma_jfif(p.payload);
        if is_jfif_header(p) {
            assert(markers::density_from(data, pos) == Some(markers::jfif_density(p.payload)));
            assert(pieces[0] == p);
        } else {
            assert(markers::density_from(data, pos) == markers::density_from(data, end));
            if let Some(d) = markers::density_from(data, end) {
                let i = choose|i: int|
                    #![trigger tail[i]]
                    0 <= i < tail.len() && is_jfif_header(tail[i]) && states_density(
                        tail[i].payload,
                        d,
                    ) && forall|k: int| 0 <= k < i ==> !is_jfif_header(#[trigger] tail[k]);
                assert(tail[i] == pieces[i + 1]);
                assert forall|k: int| 0 <= k < i + 1 implies !is_jfif_header(
                    #[trigger] pieces[k],
                ) by {
                    if k > 0 {
                        assert(tail[k - 1] == pieces[k]);
                    }
                }
            } else {
                assert forall|k: int| 0 <= k < pieces.len() implies !is_jfif_header(
                    #[trigger] pieces[k],
                ) by {
                    if k > 0 {
                        assert(tail[k - 1] == pieces[k]);
                    }
                }
            }
        }
    }
}

proof fn lemma_jfif(p: Seq<u8>)
    ensures
        markers::is_jfif(p) <==> is_jfif_header(
            Piece { gap: Seq::empty(), marker: 0xE0, payload: p },
        ),
        markers::is_jfif(p) ==> states_density(p, markers::jfif_density(p)),
{
    let letters = seq![0x4Au8, 0x46u8, 0x49u8, 0x46u8, 0u8];
    if p.len() >= 12 {
        if p.take(5) == letters {
            assert(p.take(5)[0] == p[0] && p.take(5)[1] == p[1] && p.take(5)[2] == p[2]);
            assert(p.take(5)[3] == p[3] && p.take(5)[4] == p[4]);
        }
        if p[0] == 0x4A && p[1] == 0x46 && p[2] == 0x49 && p[3] == 0x46 && p[4] == 0 {
            assert(p.take(5) =~= letters);
        }
    }
}

/// The comments of a file are the texts of all its comment segments before the
/// compressed image data, in their order, whatever segments and gaps stand
/// between them. The search ends at a segment that does not lie inside the file.
pub proof fn law_comments_are_collected(pieces: Seq<Piece>, gap: Seq<u8>, rest: Seq<u8>)
    requires
        are_pieces(pieces),
        is_gap(gap),
        is_end(rest),
    ensures
        markers::comments(seq![0xFFu8, 0xD8u8] + chain(pieces, gap + rest)) == comment_texts(
            pieces,
        ),
{
    let data = seq![0xFFu8, 0xD8u8] + chain(pieces, gap + rest);
    assert(data[0] == 0xFF && data[1] == 0xD8);
    assert(data.skip(2) =~= chain(pieces, gap + rest));
    lemma_chain(data, 2, pieces, gap, rest);
}

/// The density of a file is what its first JFIF header states, whatever segments
/// and gaps stand around it, and there is none without such a header.
pub proof fn law_first_header_states_density(pieces: Seq<Piece>, gap: Seq<u8>, rest: Seq<u8>)
    requires
        are_pieces(pieces),
        is_gap(gap),
        is_end(rest),
    ensures
        match markers::density(seq![0xFFu8, 0xD8u8] + chain(pieces, gap + rest)) {
            Some(d) => exists|i: int|
                #![trigger pieces[i]]
                0 <= i < pieces.len() && is_jfif_header(pieces[i]) && states_density(
                    pieces[i].payload,
                    d,
                ) && forall|k: int| 0 <= k < i ==> !is_jfif_header(#[trigger] pieces[k]),
            None => forall|k: int|
                0 <= k < pieces.len() ==> !is_jfif_header(#[trigger] pieces[k]),
        },
{
    let data = seq![0xFFu8, 0xD8u8] + chain(pieces, gap + rest);
    assert(data[0] == 0xFF && data[1] == 0xD8);
    assert(data.skip(2) =~= chain(pieces, gap + rest));
    lemma_chain(data, 2, pieces, gap, rest);
}

/// A file that does not start as every JPEG file does has no comments and no
/// density.
pub proof fn law_nothing_in_other_files(data: Seq<u8>)
    requires
        data.len() < 2 || data[0] != 0xFF || data[1] != 0xD8,
    ensures
        markers::comments(data) == Seq::<Seq<char>>::empty(),
        markers::density(data) is None,
{
}

} // verus!
