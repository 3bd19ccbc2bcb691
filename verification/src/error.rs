//! Errors of the library and their stable identifiers.
//!
//! [`ErrorKind`] names every failure the tool can report, whether the
//! verified core or the application around it detects it; its
//! [`ErrorKind::code`] is the stable identifier shown to non-Rust callers and
//! [`ErrorKind::exit_code`] the process status the command line exits with.
//! [`Error`] is the error value of the verified functions themselves.

use vstd::prelude::*;

verus! {

/// Every failure the tool reports, without its details.
#[derive(Debug, Clone, Copy, PartialEq, Eq, Structural)]
pub enum ErrorKind {
    FfmpegMissing,
    FfmpegFailed,
    VideoNotFound,
    InvalidFormat,
    InvalidThreshold,
    InvalidCrop,
    TimestampOutOfRange,
    NoFramesExtracted,
    StreamingUnsupportedWithMaxFrames,
    StreamingUnsupportedWithOutput,
    InvalidArgument,
    Parse,
    ImageDecode,
    Io,
    Serde,
}

impl ErrorKind {
    /// The stable short identifier of the kind.
    pub open spec fn code_text(self) -> Seq<char> {
        match self {
            ErrorKind::FfmpegMissing => "ffmpeg_not_found"@,
            ErrorKind::FfmpegFailed => "ffmpeg_failed"@,
            ErrorKind::VideoNotFound => "video_not_found"@,
            ErrorKind::InvalidFormat => "invalid_format"@,
            ErrorKind::InvalidThreshold => "invalid_threshold"@,
            ErrorKind::InvalidCrop => "invalid_crop"@,
            ErrorKind::TimestampOutOfRange => "timestamp_out_of_range"@,
            ErrorKind::NoFramesExtracted => "no_frames_extracted"@,
            ErrorKind::StreamingUnsupportedWithMaxFrames => "streaming_unsupported_with_max_frames"@,
            ErrorKind::StreamingUnsupportedWithOutput => "streaming_unsupported_with_output"@,
            ErrorKind::InvalidArgument => "invalid_argument"@,
            ErrorKind::Parse => "parse_error"@,
            ErrorKind::ImageDecode => "image_decode_error"@,
            ErrorKind::Io => "io_error"@,
            ErrorKind::Serde => "serialization_error"@,
        }
    }

    /// A stable short identifier for this error, suitable for machine-readable
    /// surfaces (MCP `error_code`, CLI log tags).
    pub fn code(self) -> (r: &'static str)
        ensures
            r@ == self.code_text(),
    {
        match self {
            ErrorKind::FfmpegMissing => "ffmpeg_not_found",
            ErrorKind::FfmpegFailed => "ffmpeg_failed",
            ErrorKind::VideoNotFound => "video_not_found",
            ErrorKind::InvalidFormat => "invalid_format",
            ErrorKind::InvalidThreshold => "invalid_threshold",
            ErrorKind::InvalidCrop => "invalid_crop",
            ErrorKind::TimestampOutOfRange => "timestamp_out_of_range",
            ErrorKind::NoFramesExtracted => "no_frames_extracted",
            ErrorKind::StreamingUnsupportedWithMaxFrames => "streaming_unsupported_with_max_frames",
            ErrorKind::StreamingUnsupportedWithOutput => "streaming_unsupported_with_output",
            ErrorKind::InvalidArgument => "invalid_argument",
            ErrorKind::Parse => "parse_error",
            ErrorKind::ImageDecode => "image_decode_error",
            ErrorKind::Io => "io_error",
            ErrorKind::Serde => "serialization_error",
        }
    }

    /// Whether the kind reports a bad argument or option of the caller.
    pub open spec fn is_usage_error(self) -> bool {
        ||| self == ErrorKind::InvalidThreshold
        ||| self == ErrorKind::InvalidFormat
        ||| self == ErrorKind::InvalidCrop
        ||| self == ErrorKind::InvalidArgument
        ||| self == ErrorKind::TimestampOutOfRange
        ||| self == ErrorKind::StreamingUnsupportedWithMaxFrames
        ||| self == ErrorKind::StreamingUnsupportedWithOutput
    }

    /// Whether the kind reports a missing or unusable input or a failed
    /// input/output operation.
    pub open spec fn is_input_error(self) -> bool {
        ||| self == ErrorKind::VideoNotFound
        ||| self == ErrorKind::NoFramesExtracted
        ||| self == ErrorKind::FfmpegFailed
        ||| self == ErrorKind::ImageDecode
        ||| self == ErrorKind::Io
    }

    /// The status the command line exits with when it fails with this kind:
    /// 2 for usage errors, 3 when ffmpeg is missing, 4 for input and I/O
    /// failures, 1 for parse and serialization failures.
    pub fn exit_code(self) -> (r: u8)
        ensures
            self.is_usage_error() ==> r == 2,
            self == ErrorKind::FfmpegMissing ==> r == 3,
            self.is_input_error() ==> r == 4,
            (self == ErrorKind::Parse || self == ErrorKind::Serde) ==> r == 1,
    {
        match self {
            ErrorKind::InvalidThreshold
            | ErrorKind::InvalidFormat
            | ErrorKind::InvalidCrop
            | ErrorKind::InvalidArgument
            | ErrorKind::TimestampOutOfRange
            | ErrorKind::StreamingUnsupportedWithMaxFrames
            | ErrorKind::StreamingUnsupportedWithOutput => 2,
            ErrorKind::FfmpegMissing => 3,
            ErrorKind::VideoNotFound
            | ErrorKind::NoFramesExtracted
            | ErrorKind::FfmpegFailed
            | ErrorKind::ImageDecode
            | ErrorKind::Io => 4,
            ErrorKind::Parse | ErrorKind::Serde => 1,
        }
    }
}

/// Every kind falls in exactly one exit-status class, and no two kinds share
/// an identifier.
#[verifier::rlimit(50)]
pub proof fn lemma_error_kinds_classified(a: ErrorKind, b: ErrorKind)
    ensures
        a.code_text() == b.code_text() ==> a == b,
        !(a.is_usage_error() && a.is_input_error()),
        a.is_usage_error() || a.is_input_error() || a == ErrorKind::FfmpegMissing || a
            == ErrorKind::Parse || a == ErrorKind::Serde,
{
    reveal_strlit("ffmpeg_not_found");
    reveal_strlit("ffmpeg_failed");
    reveal_strlit("video_not_found");
    reveal_strlit("invalid_format");
    reveal_strlit("invalid_threshold");
    reveal_strlit("invalid_crop");
    reveal_strlit("timestamp_out_of_range");
    reveal_strlit("no_frames_extracted");
    reveal_strlit("streaming_unsupported_with_max_frames");
    reveal_strlit("streaming_unsupported_with_output");
    reveal_strlit("invalid_argument");
    reveal_strlit("parse_error");
    reveal_strlit("image_decode_error");
    reveal_strlit("io_error");
    reveal_strlit("serialization_error");
    if a.code_text() == b.code_text() {
        let t = a.code_text();
        assert(t.len() == b.code_text().len());
        assert(t[0] == b.code_text()[0]);
        assert(t[t.len() - 1] == b.code_text()[t.len() - 1]);
        assert(t[4] == b.code_text()[4]);
        assert(t[t.len() - 5] == b.code_text()[t.len() - 5]);
    }
}

/// The errors that the verified functions return.
#[derive(Debug)]
pub enum Error {
    /// An image format name other than `png`, `jpg` or `jpeg` (lower-cased).
    InvalidFormat(String),
    /// A crop specification that cannot be read, with the reason.
    InvalidCrop(String),
    /// A missing or malformed argument, with the reason.
    InvalidArgument(String),
    /// The extraction produced no frame.
    NoFramesExtracted,
    /// Streaming was asked for together with a frame cap.
    StreamingUnsupportedWithMaxFrames,
}

impl Error {
    /// The kind of the error.
    pub open spec fn kind_of(&self) -> ErrorKind {
        match self {
            Error::InvalidFormat(_) => ErrorKind::InvalidFormat,
            Error::InvalidCrop(_) => ErrorKind::InvalidCrop,
            Error::InvalidArgument(_) => ErrorKind::InvalidArgument,
            Error::NoFramesExtracted => ErrorKind::NoFramesExtracted,
            Error::StreamingUnsupportedWithMaxFrames => ErrorKind::StreamingUnsupportedWithMaxFrames,
        }
    }

    /// The kind of the error.
    pub fn kind(&self) -> (r: ErrorKind)
        ensures
            r == self.kind_of(),
    {
        match self {
            Error::InvalidFormat(_) => ErrorKind::InvalidFormat,
            Error::InvalidCrop(_) => ErrorKind::InvalidCrop,
            Error::InvalidArgument(_) => ErrorKind::InvalidArgument,
            Error::NoFramesExtracted => ErrorKind::NoFramesExtracted,
            Error::StreamingUnsupportedWithMaxFrames => ErrorKind::StreamingUnsupportedWithMaxFrames,
        }
    }

    /// A stable short identifier for this error.
    pub fn code(&self) -> (r: &'static str)
        ensures
            r@ == self.kind_of().code_text(),
    {
        self.kind().code()
    }
}

} // verus!
