//! The parameters handed to `ffmpeg`: the crop region and the video filter.
//!
//! Running `ffmpeg` and `ffprobe` is the application's part; what is decided
//! here is how a crop specification given by a user is read and how the
//! filter expression is written.

use vstd::prelude::*;
use vstd::string::*;

use crate::error::Error;
use crate::text::{
    chars_of, decimal, is_digit, lemma_decimal_reads_back, lemma_split_join, lemma_split_nonempty,
    lemma_split_without_separator, parse_u32, parse_u32_range, push_decimal, split, split_bounds,
    trim, trim_bounds, trim_end, trim_start, unsigned_digits,
};

verus! {

/// A region of interest, in pixels.
#[derive(Debug, Clone, Copy, PartialEq, Eq, Structural)]
pub struct CropRect {
    pub x: u32,
    pub y: u32,
    pub width: u32,
    pub height: u32,
}

/// The message for a specification that is not four comma-separated fields.
pub open spec fn crop_shape_message(spec: Seq<char>) -> Seq<char> {
    "Invalid crop '"@ + spec + "'. Expected format: x,y,w,h"@
}

/// The message for a field that is not an unsigned 32-bit number.
pub open spec fn crop_field_message(field: Seq<char>, spec: Seq<char>) -> Seq<char> {
    "Invalid crop "@ + field + " value in '"@ + spec + "'"@
}

/// The message for a zero width or height.
pub open spec fn crop_size_message(spec: Seq<char>) -> Seq<char> {
    "Invalid crop '"@ + spec + "'. Width and height must be greater than zero"@
}

/// The outcome of reading a crop specification `x,y,w,h`: the region, or the
/// message of the first problem found. Each field may be surrounded by
/// whitespace and is read as `u32::from_str` reads it; the fields are checked
/// in the order x, y, width, height; width and height must not be zero.
pub open spec fn crop_outcome(spec: Seq<char>) -> Result<CropRect, Seq<char>> {
    let parts = split(spec, ',');
    if parts.len() != 4 {
        Err(crop_shape_message(spec))
    } else {
        let x = parse_u32(trim(parts[0]));
        let y = parse_u32(trim(parts[1]));
        let w = parse_u32(trim(parts[2]));
        let h = parse_u32(trim(parts[3]));
        if x is None {
            Err(crop_field_message("x"@, spec))
        } else if y is None {
            Err(crop_field_message("y"@, spec))
        } else if w is None {
            Err(crop_field_message("width"@, spec))
        } else if h is None {
            Err(crop_field_message("height"@, spec))
        } else if w->0 == 0 || h->0 == 0 {
            Err(crop_size_message(spec))
        } else {
            Ok(CropRect { x: x->0, y: y->0, width: w->0, height: h->0 })
        }
    }
}

/// A number written in decimal is read back by the field reader of crop
/// specifications, white space trimming leaving it as it is.
proof fn lemma_decimal_field(n: u32)
    ensures
        trim(decimal(n as nat)) == decimal(n as nat),
        parse_u32(trim(decimal(n as nat))) == Some(n),
        forall|i: int| 0 <= i < decimal(n as nat).len() ==> decimal(n as nat)[i] != ',',
{
    let d = decimal(n as nat);
    lemma_decimal_reads_back(n as nat);
    assert(is_digit(d[0]) && is_digit(d.last()));
    assert(trim_start(d) == d);
    assert(trim_end(d) == d);
    assert(unsigned_digits(d) == d);
    assert forall|i: int| 0 <= i < d.len() implies d[i] != ',' by {
        assert(is_digit(d[i]));
    }
}

/// Writing a region as `x,y,w,h` in decimal and reading it back gives the
/// region, whenever its width and height are not zero.
pub proof fn lemma_crop_round_trip(r: CropRect)
    requires
        r.width > 0,
        r.height > 0,
    ensures
        crop_outcome(
            decimal(r.x as nat) + ","@ + decimal(r.y as nat) + ","@ + decimal(r.width as nat) + ","@
                + decimal(r.height as nat),
        ) == Ok::<CropRect, Seq<char>>(r),
{
    reveal_strlit(",");
    let (dx, dy, dw, dh) = (
        decimal(r.x as nat),
        decimal(r.y as nat),
        decimal(r.width as nat),
        decimal(r.height as nat),
    );
    lemma_decimal_field(r.x);
    lemma_decimal_field(r.y);
    lemma_decimal_field(r.width);
    lemma_decimal_field(r.height);
    assert(","@ =~= seq![',']);
    let a = dx + seq![','] + dy;
    let b = a + seq![','] + dw;
    let spec = b + seq![','] + dh;
    assert(spec =~= dx + ","@ + dy + ","@ + dw + ","@ + dh);
    lemma_split_without_separator(dx, ',');
    lemma_split_without_separator(dy, ',');
    lemma_split_without_separator(dw, ',');
    lemma_split_without_separator(dh, ',');
    lemma_split_join(dx, dy, ',');
    lemma_split_join(a, dw, ',');
    lemma_split_join(b, dh, ',');
    assert(split(spec, ',') =~= seq![dx, dy, dw, dh]);
}

/// `a + b + c` as a new string.
fn concat3(a: &str, b: &str, c: &str) -> (r: String)
    ensures
        r@ == a@ + b@ + c@,
{
    let mut r = String::new();
    r.append(a);
    r.append(b);
    r.append(c);
    r
}

/// The crop error for the field named `field`.
fn field_error(field: &str, spec: &str) -> (r: Error)
    ensures
        r matches Error::InvalidCrop(m) && m@ == crop_field_message(field@, spec@),
{
    let mut m = concat3("Invalid crop ", field, " value in '");
    m.append(spec);
    m.append("'");
    Error::InvalidCrop(m)
}

impl CropRect {
    /// Reads a crop specification of the form `x,y,w,h`.
    pub fn parse(spec: &str) -> (r: Result<CropRect, Error>)
        ensures
            match r {
                Ok(c) => crop_outcome(spec@) == Ok::<CropRect, Seq<char>>(c),
                Err(Error::InvalidCrop(m)) => crop_outcome(spec@) == Err::<CropRect, Seq<char>>(
                    m@,
                ),
                Err(_) => false,
            },
    {
        let v = chars_of(spec);
        let parts = split_bounds(&v, ',');
        proof {
            lemma_split_nonempty(spec@, ',');
        }
        if parts.len() != 4 {
            return Err(Error::InvalidCrop(concat3("Invalid crop '", spec, "'. Expected format: x,y,w,h")));
        }
        let ghost pieces = split(spec@, ',');
        let (a0, b0) = trim_bounds(&v, parts[0].0, parts[0].1);
        let (a1, b1) = trim_bounds(&v, parts[1].0, parts[1].1);
        let (a2, b2) = trim_bounds(&v, parts[2].0, parts[2].1);
        let (a3, b3) = trim_bounds(&v, parts[3].0, parts[3].1);
        assert(pieces[0] == v@.subrange(parts@[0].0 as int, parts@[0].1 as int));
        assert(pieces[1] == v@.subrange(parts@[1].0 as int, parts@[1].1 as int));
        assert(pieces[2] == v@.subrange(parts@[2].0 as int, parts@[2].1 as int));
        assert(pieces[3] == v@.subrange(parts@[3].0 as int, parts@[3].1 as int));
        let x = parse_u32_range(&v, a0, b0);
        let y = parse_u32_range(&v, a1, b1);
        let w = parse_u32_range(&v, a2, b2);
        let h = parse_u32_range(&v, a3, b3);
        match (x, y, w, h) {
            (None, _, _, _) => Err(field_error("x", spec)),
            (_, None, _, _) => Err(field_error("y", spec)),
            (_, _, None, _) => Err(field_error("width", spec)),
            (_, _, _, None) => Err(field_error("height", spec)),
            (Some(x), Some(y), Some(width), Some(height)) => {
                if width == 0 || height == 0 {
                    let mut m = concat3("Invalid crop '", spec, "'. Width and height must be greater than zero");
                    Err(Error::InvalidCrop(m))
                } else {
                    Ok(CropRect { x, y, width, height })
                }
            },
        }
    }

    /// The ffmpeg filter `crop=w:h:x:y`.
    pub open spec fn filter_text(self) -> Seq<char> {
        "crop="@ + decimal(self.width as nat) + ":"@ + decimal(self.height as nat) + ":"@
            + decimal(self.x as nat) + ":"@ + decimal(self.y as nat)
    }

    /// The ffmpeg filter expression that applies this crop.
    pub fn filter_expr(&self) -> (r: String)
        ensures
            r@ == self.filter_text(),
    {
        let mut r = String::new();
        r.append("crop=");
        push_decimal(&mut r, self.width as u64);
        r.append(":");
        push_decimal(&mut r, self.height as u64);
        r.append(":");
        push_decimal(&mut r, self.x as u64);
        r.append(":");
        push_decimal(&mut r, self.y as u64);
        r
    }
}

/// The video filter chain: the crop, when there is one, then `fps=<rate>`,
/// joined by commas.
pub open spec fn video_filter_text(fps_text: Seq<char>, crop: Option<CropRect>) -> Seq<char> {
    match crop {
        Some(c) => c.filter_text() + ","@ + "fps="@ + fps_text,
        None => "fps="@ + fps_text,
    }
}

/// Builds the video filter chain from the frame rate, already written as
/// text, and the optional crop.
pub fn build_video_filter(fps_text: &str, crop: Option<CropRect>) -> (r: String)
    ensures
        r@ == video_filter_text(fps_text@, crop),
{
    let mut r = String::new();
    if let Some(c) = crop {
        r = c.filter_expr();
        r.append(",");
    }
    r.append("fps=");
    r.append(fps_text);
    r
}

} // verus!
