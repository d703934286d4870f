use vstd::prelude::*;
use crate::text::display_io_error;

verus! {

/// `std::io::Error`, carried through as an opaque value.
#[verifier::external_type_specification]
#[verifier::external_body]
pub struct ExStdIoError(std::io::Error);

/// `jpeg_decoder::Error`, carried through as an opaque value.
#[verifier::external_type_specification]
#[verifier::external_body]
pub struct ExJpegDecoderError(jpeg_decoder::Error);

/// `jpeg_encoder::EncodingError`, carried through as an opaque value.
#[verifier::external_type_specification]
#[verifier::external_body]
pub struct ExJpegEncodingError(jpeg_encoder::EncodingError);

/// What made a decode fail.
#[derive(Debug)]
pub enum DecodeSource {
    /// This library found the data inconsistent.
    Message(&'static str),
    /// The JPEG decoder reported an error.
    Jpeg(jpeg_decoder::Error),
}

/// What made an encode fail.
#[derive(Debug)]
pub enum EncodeSource {
    /// This library refused the request.
    Message(&'static str),
    /// The output could not be written.
    Io(std::io::Error),
    /// The JPEG encoder reported an error.
    Jpeg(jpeg_encoder::EncodingError),
}

/// Crate-level I/O error.
///
/// Each variant classifies *what went wrong*. Variants that stem from a codec
/// carry the codec's own error as their source.
#[derive(Debug)]
#[allow(inconsistent_fields)]
pub enum IoError {
    /// The input bytes do not match the expected format signature.
    InvalidFormat {
        /// A short, static description of why the format is invalid.
        reason: &'static str,
    },
    /// The file is structurally valid but contains data that cannot be decoded
    /// (e.g. unsupported bit depth, compression method, colour type).
    UnsupportedFeature {
        /// A short, static description of the unsupported feature.
        reason: &'static str,
    },
    /// A corruption or constraint violation was met during decoding.
    DecodeFailed {
        /// The underlying error.
        source: DecodeSource,
    },
    /// An encoding operation failed.
    EncodeFailed {
        /// The underlying error.
        source: EncodeSource,
    },
    /// A standard I/O error (read/write/seek failure).
    Io(std::io::Error),
}

/// The text of an error, for the variants whose text this library fixes.
/// An [`IoError::Io`] shows the text of the wrapped error instead.
pub open spec fn error_text(e: IoError) -> Option<Seq<char>> {
    match e {
        IoError::InvalidFormat { reason } => Some("invalid format: "@ + reason@),
        IoError::UnsupportedFeature { reason } => Some("unsupported feature: "@ + reason@),
        IoError::DecodeFailed { .. } => Some("decode failed"@),
        IoError::EncodeFailed { .. } => Some("encode failed"@),
        IoError::Io(_) => None,
    }
}

impl IoError {
    /// The text shown for this error: the category, followed by the reason
    /// where the variant has one. An [`IoError::Io`] is transparent: its text
    /// is that of the wrapped error.
    pub fn to_string(&self) -> (text: String)
        ensures
            error_text(*self) matches Some(t) ==> text@ == t,
    {
        match self {
            IoError::InvalidFormat { reason } => "invalid format: ".to_owned().concat(reason),
            IoError::UnsupportedFeature { reason } => {
                "unsupported feature: ".to_owned().concat(reason)
            },
            IoError::DecodeFailed { .. } => "decode failed".to_owned(),
            IoError::EncodeFailed { .. } => "encode failed".to_owned(),
            IoError::Io(e) => display_io_error(e),
        }
    }
}

/// The error for pixel data that is inconsistent, described by `msg`.
pub open spec fn decode_failure(msg: &'static str) -> IoError {
    IoError::DecodeFailed { source: DecodeSource::Message(msg) }
}

/// The error for an encode request that is refused, described by `msg`.
pub open spec fn encode_failure(msg: &'static str) -> IoError {
    IoError::EncodeFailed { source: EncodeSource::Message(msg) }
}

/// The text of an error ends with its reason where it has one, and starts with
/// what went wrong: errors of different kinds never have the same text, unless
/// one of them is that of the operating system.
pub proof fn law_text_tells_kind_and_reason(e: IoError, other: IoError)
    ensures
        e matches IoError::InvalidFormat { reason } ==> (error_text(e) matches Some(t) && t.skip(
            t.len() - reason@.len(),
        ) == reason@),
        e matches IoError::UnsupportedFeature { reason } ==> (error_text(e) matches Some(t)
            && t.skip(t.len() - reason@.len()) == reason@),
        error_text(e) is None <==> e is Io,
        error_text(e) is Some && error_text(e) == error_text(other) ==> {
            &&& e is InvalidFormat <==> other is InvalidFormat
            &&& e is UnsupportedFeature <==> other is UnsupportedFeature
            &&& e is DecodeFailed <==> other is DecodeFailed
            &&& e is EncodeFailed <==> other is EncodeFailed
        },
{
    reveal_strlit("invalid format: ");
    reveal_strlit("unsupported feature: ");
    reveal_strlit("decode failed");
    reveal_strlit("encode failed");
    lemma_text_start(e);
    lemma_text_start(other);
}

/// The first letter of the text of an error.
proof fn lemma_text_start(e: IoError)
    ensures
        e matches IoError::InvalidFormat { reason } ==> error_text(e)->0[0] == 'i'
            && error_text(e)->0.skip(error_text(e)->0.len() - reason@.len()) == reason@,
        e matches IoError::UnsupportedFeature { reason } ==> error_text(e)->0[0] == 'u'
            && error_text(e)->0.skip(error_text(e)->0.len() - reason@.len()) == reason@,
        e is DecodeFailed ==> error_text(e)->0[0] == 'd',
        e is EncodeFailed ==> error_text(e)->0[0] == 'e',
{
    reveal_strlit("invalid format: ");
    reveal_strlit("unsupported feature: ");
    reveal_strlit("decode failed");
    reveal_strlit("encode failed");
    if let IoError::InvalidFormat { reason } = e {
        let t = "invalid format: "@ + reason@;
        assert(t.skip(t.len() - reason@.len()) =~= reason@);
    }
    if let IoError::UnsupportedFeature { reason } = e {
        let t = "unsupported feature: "@ + reason@;
        assert(t.skip(t.len() - reason@.len()) =~= reason@);
    }
}

} // verus!
