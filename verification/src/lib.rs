//! tomegane: picks the frames of a screen recording that matter.
//!
//! The verified core holds the decisions of the tool: which sampled frames
//! are kept, how they are labelled, how crop specifications are read, how
//! frame differences are measured and grouped into suspicious windows, how
//! the MCP requests are routed, and how the setup helper decides what to do.
//! Decoding images, running `ffmpeg` and every floating-point computation
//! happen in the application around this crate.

pub mod analysis;
pub mod error;
pub mod extract;
pub mod frame_files;
pub mod json;
pub mod mcp;
pub mod setup;
pub mod text;
pub mod toml_doc;
pub mod tools;

use vstd::prelude::*;
use vstd::string::*;

use crate::error::Error;
use crate::extract::diff::KeyFrame;
use crate::text::{ascii_lowercase, decimal, push_decimal, str_equal, to_ascii_lowercase};

verus! {

/// Image format produced when extracting frames.
#[derive(Debug, Clone, Copy, PartialEq, Eq, Structural)]
pub enum ImageFormat {
    Png,
    Jpg,
}

impl ImageFormat {
    /// The file extension of the format.
    pub open spec fn extension_text(self) -> Seq<char> {
        match self {
            ImageFormat::Png => "png"@,
            ImageFormat::Jpg => "jpg"@,
        }
    }

    /// File extension used by ffmpeg and on-disk frame files.
    pub fn extension(self) -> (r: &'static str)
        ensures
            r@ == self.extension_text(),
    {
        match self {
            ImageFormat::Png => "png",
            ImageFormat::Jpg => "jpg",
        }
    }

    /// The MIME type of the format.
    pub open spec fn mime_type_text(self) -> Seq<char> {
        match self {
            ImageFormat::Png => "image/png"@,
            ImageFormat::Jpg => "image/jpeg"@,
        }
    }

    /// MIME type for HTTP / MCP image content blocks.
    pub fn mime_type(self) -> (r: &'static str)
        ensures
            r@ == self.mime_type_text(),
    {
        match self {
            ImageFormat::Png => "image/png",
            ImageFormat::Jpg => "image/jpeg",
        }
    }

    /// The format that a name denotes, ignoring ASCII case: `png`, or `jpg`
    /// and `jpeg`.
    pub open spec fn named(name: Seq<char>) -> Option<ImageFormat> {
        let lower = to_ascii_lowercase(name);
        if lower == "png"@ {
            Some(ImageFormat::Png)
        } else if lower == "jpg"@ || lower == "jpeg"@ {
            Some(ImageFormat::Jpg)
        } else {
            None
        }
    }

    /// Reads a format name, ignoring ASCII case; any other name is refused
    /// with the lower-cased name.
    pub fn from_name(name: &str) -> (r: Result<ImageFormat, Error>)
        ensures
            match r {
                Ok(f) => ImageFormat::named(name@) == Some(f),
                Err(Error::InvalidFormat(n)) => ImageFormat::named(name@) is None && n@
                    == to_ascii_lowercase(name@),
                Err(_) => false,
            },
    {
        let lower = ascii_lowercase(name);
        if str_equal(lower.as_str(), "png") {
            Ok(ImageFormat::Png)
        } else if str_equal(lower.as_str(), "jpg") || str_equal(lower.as_str(), "jpeg") {
            Ok(ImageFormat::Jpg)
        } else {
            Err(Error::InvalidFormat(lower))
        }
    }
}

/// `png` names PNG, and `jpg` and `jpeg` name JPG, in any ASCII case;
/// `bmp` names no format.
pub proof fn lemma_format_names(name: Seq<char>)
    ensures
        ImageFormat::named(name) == ImageFormat::named(to_ascii_lowercase(name)),
        ImageFormat::named("png"@) == Some(ImageFormat::Png),
        ImageFormat::named("PNG"@) == Some(ImageFormat::Png),
        ImageFormat::named("jpg"@) == Some(ImageFormat::Jpg),
        ImageFormat::named("jpeg"@) == Some(ImageFormat::Jpg),
        ImageFormat::named("JPEG"@) == Some(ImageFormat::Jpg),
        ImageFormat::named("bmp"@) is None,
{
    crate::text::lemma_lowercase_idempotent(name);
    reveal_strlit("png");
    reveal_strlit("PNG");
    reveal_strlit("jpg");
    reveal_strlit("jpeg");
    reveal_strlit("JPEG");
    reveal_strlit("bmp");
    assert(to_ascii_lowercase("png"@) =~= "png"@);
    assert(to_ascii_lowercase("PNG"@) =~= "png"@);
    assert(to_ascii_lowercase("jpg"@) =~= "jpg"@);
    assert(to_ascii_lowercase("jpeg"@) =~= "jpeg"@);
    assert(to_ascii_lowercase("JPEG"@) =~= "jpeg"@);
    assert(to_ascii_lowercase("bmp"@) =~= "bmp"@);
    assert("jpg"@[0] != "png"@[0]);
    assert("jpeg"@[0] != "png"@[0]);
    assert("bmp"@[0] != "png"@[0] && "bmp"@[0] != "jpg"@[0] && "bmp"@[0] != "jpeg"@[0]);
}

/// A format's extension names that format again.
pub proof fn lemma_extension_names_format(f: ImageFormat)
    ensures
        ImageFormat::named(f.extension_text()) == Some(f),
{
    reveal_strlit("png");
    reveal_strlit("jpg");
    reveal_strlit("jpeg");
    let e = f.extension_text();
    assert(to_ascii_lowercase(e) =~= e);
    assert("png"@[0] != "jpg"@[0]);
}

impl Default for ImageFormat {
    /// PNG, the format used unless another is asked for.
    fn default() -> (r: ImageFormat)
        ensures
            r == ImageFormat::Png,
    {
        ImageFormat::Png
    }
}

impl std::str::FromStr for ImageFormat {
    type Err = Error;

    /// Reads a format name as [`ImageFormat::from_name`] does.
    fn from_str(s: &str) -> (r: Result<ImageFormat, Error>)
        ensures
            match r {
                Ok(f) => ImageFormat::named(s@) == Some(f),
                Err(Error::InvalidFormat(n)) => ImageFormat::named(s@) is None && n@
                    == to_ascii_lowercase(s@),
                Err(_) => false,
            },
    {
        ImageFormat::from_name(s)
    }
}

/// The label of a frame: `initial_state` for the first frame, then by the
/// change score `distance / 64`: `major_change` from 0.5, `moderate_change`
/// from 0.2, `minor_change` above 0, and `frame_<index>` for no change.
pub open spec fn description_text(index: nat, distance: nat) -> Seq<char> {
    if index == 0 {
        "initial_state"@
    } else if distance >= 32 {
        "major_change"@
    } else if distance >= 13 {
        "moderate_change"@
    } else if distance > 0 {
        "minor_change"@
    } else {
        "frame_"@ + decimal(index)
    }
}

/// A later frame's label follows its change score `distance / 64`: a major
/// change from a score of 0.5, a moderate one from 0.2, a minor one above 0,
/// and the frame's number for no change; the first frame is the initial
/// state whatever its distance.
pub proof fn lemma_description_follows_score(index: nat, distance: nat)
    ensures
        description_text(0, distance) == "initial_state"@,
        index > 0 && 2 * distance >= 64 ==> description_text(index, distance) == "major_change"@,
        index > 0 && 2 * distance < 64 && 5 * distance >= 64 ==> description_text(index, distance)
            == "moderate_change"@,
        index > 0 && 5 * distance < 64 && distance > 0 ==> description_text(index, distance)
            == "minor_change"@,
        index > 0 && distance == 0 ==> description_text(index, distance) == "frame_"@ + decimal(
            index,
        ),
{
}

/// Labels a frame from its position and the number of bits in which it
/// differs from the previously kept frame.
pub fn describe_frame(index: usize, distance: u32) -> (r: String)
    ensures
        r@ == description_text(index as nat, distance as nat),
{
    let mut r = String::new();
    if index == 0 {
        r.append("initial_state");
    } else if distance >= 32 {
        r.append("major_change");
    } else if distance >= 13 {
        r.append("moderate_change");
    } else if distance > 0 {
        r.append("minor_change");
    } else {
        r.append("frame_");
        push_decimal(&mut r, index as u64);
    }
    r
}

/// The digit of the standard Base64 alphabet for a six-bit value: `A`-`Z`,
/// `a`-`z`, `0`-`9`, `+`, `/`.
pub open spec fn base64_digit(v: int) -> char {
    if v < 26 {
        (65 + v) as char
    } else if v < 52 {
        (97 + (v - 26)) as char
    } else if v < 62 {
        (48 + (v - 52)) as char
    } else if v == 62 {
        '+'
    } else {
        '/'
    }
}

/// The standard Base64 encoding of bytes (RFC 4648, with `=` padding): each
/// group of three bytes becomes four digits of six bits each; a last group
/// of one or two bytes is padded with zero bits and completed with `=`.
pub open spec fn base64_standard(d: Seq<u8>) -> Seq<char>
    decreases d.len(),
{
    if d.len() == 0 {
        Seq::empty()
    } else if d.len() == 1 {
        seq![base64_digit(d[0] as int / 4), base64_digit((d[0] as int % 4) * 16), '=', '=']
    } else if d.len() == 2 {
        seq![
            base64_digit(d[0] as int / 4),
            base64_digit((d[0] as int % 4) * 16 + d[1] as int / 16),
            base64_digit((d[1] as int % 16) * 4),
            '=',
        ]
    } else {
        seq![
            base64_digit(d[0] as int / 4),
            base64_digit((d[0] as int % 4) * 16 + d[1] as int / 16),
            base64_digit((d[1] as int % 16) * 4 + d[2] as int / 64),
            base64_digit(d[2] as int % 64),
        ] + base64_standard(d.subrange(3, d.len() as int))
    }
}

/// The digits of Base64 are, in order of value, the upper-case letters,
/// the lower-case letters, the decimal digits, `+` and `/`; no digit is the
/// padding `=`.
pub proof fn lemma_base64_alphabet(v: int)
    requires
        0 <= v < 64,
    ensures
        base64_digit(v) == "ABCDEFGHIJKLMNOPQRSTUVWXYZabcdefghijklmnopqrstuvwxyz0123456789+/"@[v],
        base64_digit(v) != '=',
{
    reveal_strlit("ABCDEFGHIJKLMNOPQRSTUVWXYZabcdefghijklmnopqrstuvwxyz0123456789+/");
}

/// Base64 writes each group of three bytes, read as a 24-bit number, as four
/// digits of six bits each, most significant first; it continues with the
/// rest of the bytes.
pub proof fn lemma_base64_groups(d: Seq<u8>)
    requires
        d.len() >= 3,
    ensures
        exists|v0: int, v1: int, v2: int, v3: int|
            0 <= v0 < 64 && 0 <= v1 < 64 && 0 <= v2 < 64 && 0 <= v3 < 64 && v0 * 262144 + v1
                * 4096 + v2 * 64 + v3 == d[0] as int * 65536 + d[1] as int * 256 + d[2] as int
                && base64_standard(d) == seq![
                base64_digit(v0),
                base64_digit(v1),
                base64_digit(v2),
                base64_digit(v3),
            ] + base64_standard(d.subrange(3, d.len() as int)),
{
    let (a, b, c) = (d[0] as int, d[1] as int, d[2] as int);
    let v0 = a / 4;
    let v1 = (a % 4) * 16 + b / 16;
    let v2 = (b % 16) * 4 + c / 64;
    let v3 = c % 64;
    assert(v0 * 262144 + v1 * 4096 + v2 * 64 + v3 == a * 65536 + b * 256 + c) by (nonlinear_arith)
        requires
            v0 == a / 4,
            v1 == (a % 4) * 16 + b / 16,
            v2 == (b % 16) * 4 + c / 64,
            v3 == c % 64,
            0 <= a < 256,
            0 <= b < 256,
            0 <= c < 256,
    ;
    assert(0 <= v1 < 64 && 0 <= v2 < 64) by (nonlinear_arith)
        requires
            v1 == (a % 4) * 16 + b / 16,
            v2 == (b % 16) * 4 + c / 64,
            0 <= a < 256,
            0 <= b < 256,
            0 <= c < 256,
    ;
    assert(base64_standard(d) == seq![
        base64_digit(v0),
        base64_digit(v1),
        base64_digit(v2),
        base64_digit(v3),
    ] + base64_standard(d.subrange(3, d.len() as int)));
}

/// A last group of one byte is that byte followed by four zero bits, as two
/// digits, then `==`; one of two bytes is those bytes followed by two zero
/// bits, as three digits, then `=`.
pub proof fn lemma_base64_padding(d: Seq<u8>)
    requires
        1 <= d.len() <= 2,
    ensures
        d.len() == 1 ==> exists|v0: int, v1: int|
            0 <= v0 < 64 && 0 <= v1 < 64 && v0 * 64 + v1 == d[0] as int * 16 && base64_standard(d)
                == seq![base64_digit(v0), base64_digit(v1), '=', '='],
        d.len() == 2 ==> exists|v0: int, v1: int, v2: int|
            0 <= v0 < 64 && 0 <= v1 < 64 && 0 <= v2 < 64 && v0 * 4096 + v1 * 64 + v2 == (d[0]
                as int * 256 + d[1] as int) * 4 && base64_standard(d) == seq![
                base64_digit(v0),
                base64_digit(v1),
                base64_digit(v2),
                '=',
            ],
{
    let a = d[0] as int;
    if d.len() == 1 {
        let (v0, v1) = (a / 4, (a % 4) * 16);
        assert(v0 * 64 + v1 == a * 16) by (nonlinear_arith)
            requires
                v0 == a / 4,
                v1 == (a % 4) * 16,
        ;
        assert(0 <= v1 < 64);
        assert(base64_standard(d) == seq![base64_digit(v0), base64_digit(v1), '=', '=']);
    } else {
        let b = d[1] as int;
        let (v0, v1, v2) = (a / 4, (a % 4) * 16 + b / 16, (b % 16) * 4);
        assert(v0 * 4096 + v1 * 64 + v2 == (a * 256 + b) * 4) by (nonlinear_arith)
            requires
                v0 == a / 4,
                v1 == (a % 4) * 16 + b / 16,
                v2 == (b % 16) * 4,
        ;
        assert(0 <= v1 < 64) by (nonlinear_arith)
            requires
                v1 == (a % 4) * 16 + b / 16,
                0 <= a < 256,
                0 <= b < 256,
        ;
        assert(base64_standard(d) == seq![
            base64_digit(v0),
            base64_digit(v1),
            base64_digit(v2),
            '=',
        ]);
    }
}

/// Base64 text has four characters for each started group of three bytes.
pub proof fn lemma_base64_len(d: Seq<u8>)
    ensures
        base64_standard(d).len() == 4 * ((d.len() + 2) / 3),
    decreases d.len(),
{
    if d.len() >= 3 {
        lemma_base64_len(d.subrange(3, d.len() as int));
    }
}

/// `base64::engine::general_purpose::STANDARD.encode`: the standard Base64
/// encoding of the bytes, with `=` padding. The call panics when the length
/// of the text, four characters for each started group of three bytes,
/// overflows `usize`, which `requires` rules out.
#[verifier::external_body]
fn encode_base64(data: &[u8]) -> (r: String)
    requires
        4 * ((data@.len() + 2) / 3) <= usize::MAX,
    ensures
        r@ == base64_standard(data@),
{
    base64::Engine::encode(&base64::engine::general_purpose::STANDARD, data)
}

/// The Base64 text of an image, as embedded in results and MCP replies.
pub fn image_base64(data: &[u8]) -> (r: String)
    requires
        4 * ((data@.len() + 2) / 3) <= usize::MAX,
    ensures
        r@ == base64_standard(data@),
        r@.len() == 4 * ((data@.len() + 2) / 3),
{
    proof {
        lemma_base64_len(data@);
    }
    encode_base64(data)
}

/// What the library states about one returned frame; the application adds
/// the timestamp `index * interval` and the change score `distance / 64`.
pub struct FrameInfo {
    pub index: usize,
    pub image_path: String,
    pub image_base64: Option<String>,
    pub distance: u32,
    pub description: String,
}

/// Builds the description of a selected frame from its position, the path of
/// its image, the image's bytes when they are to be embedded, and its
/// distance to the previously kept frame.
pub fn build_frame(image_path: String, index: usize, image: Option<Vec<u8>>, distance: u32) -> (r:
    FrameInfo)
    requires
        image matches Some(data) ==> 4 * ((data@.len() + 2) / 3) <= usize::MAX,
    ensures
        r.index == index,
        r.image_path@ == image_path@,
        r.distance == distance,
        r.description@ == description_text(index as nat, distance as nat),
        match image {
            Some(data) => r.image_base64 matches Some(b) && b@ == base64_standard(data@),
            None => r.image_base64 is None,
        },
{
    let image_base64 = match image {
        Some(data) => Some(image_base64(data.as_slice())),
        None => None,
    };
    FrameInfo { index, image_path, image_base64, distance, description: describe_frame(index, distance) }
}

/// The check of a streaming request: streaming does not support a frame cap.
pub fn check_stream_options(max_frames: Option<usize>) -> (r: Result<(), Error>)
    ensures
        max_frames is Some <==> r matches Err(Error::StreamingUnsupportedWithMaxFrames),
        max_frames is None <==> r is Ok,
{
    if max_frames.is_some() {
        Err(Error::StreamingUnsupportedWithMaxFrames)
    } else {
        Ok(())
    }
}

/// The check after extraction: an extraction that produced no frame fails.
pub fn check_extracted(total_extracted: usize) -> (r: Result<(), Error>)
    ensures
        total_extracted == 0 <==> r matches Err(Error::NoFramesExtracted),
        total_extracted > 0 <==> r is Ok,
{
    if total_extracted == 0 {
        Err(Error::NoFramesExtracted)
    } else {
        Ok(())
    }
}

} // verus!
