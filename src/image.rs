//! The image commands: formats, resize modes and filters, the background
//! colour option, and what a command asks for before any image is read.

use crate::text::{trim, trimmed};
use vstd::utf8::encode_utf8;
use vstd::prelude::*;

verus! {

#[derive(Clone, Copy, Debug, PartialEq, Eq, Structural)]
pub enum ImageFormat {
    Png,
    Jpeg,
    Webp,
    Bmp,
    Ico,
    Tiff,
    Tga,
    Dds,
    Pnm,
}

#[derive(Clone, Copy, Debug, PartialEq, Eq, Structural)]
pub enum ResizeMode {
    Fit,
    Fill,
    Exact,
}

#[derive(Clone, Copy, Debug, PartialEq, Eq, Structural)]
pub enum Filter {
    Nearest,
    Triangle,
    CatmullRom,
    Gaussian,
    Lanczos3,
}

/// Settings of the convert command. `quality` applies to JPEG, and
/// `background`, a hexadecimal RGB colour, fills transparency in JPEG.
pub struct ConvertArgs {
    pub input: String,
    pub format: ImageFormat,
    pub output: Option<String>,
    pub quality: u8,
    pub background: String,
}

/// Settings of the scale command: a percentage, or a width, a height, or both.
pub struct ScaleArgs {
    pub input: String,
    pub percent: Option<u32>,
    pub width: Option<u32>,
    pub height: Option<u32>,
    pub mode: ResizeMode,
    pub filter: Filter,
    pub output: Option<String>,
}

pub enum ImageCmd {
    Convert(ConvertArgs),
    Scale(ScaleArgs),
}

#[derive(Clone, Copy, Debug, PartialEq, Eq, Structural)]
pub enum ImageError {
    /// The background is not six hexadecimal digits, with optional '#'.
    InvalidColor,
    /// Scaling was asked with no percentage, width or height.
    NoTargetSize,
}

/// A command checked and ready to run on an image.
pub enum ImagePlan {
    /// Convert to `format`; `quality` is within 1 to 100, and `background`
    /// is the parsed colour for JPEG output.
    Convert {
        input: String,
        output: Option<String>,
        format: ImageFormat,
        quality: u8,
        background: Option<(u8, u8, u8)>,
    },
    Scale(ScaleArgs),
}

pub open spec fn spec_ext_for(format: ImageFormat) -> Seq<char> {
    match format {
        ImageFormat::Png => seq!['p', 'n', 'g'],
        ImageFormat::Jpeg => seq!['j', 'p', 'g'],
        ImageFormat::Webp => seq!['w', 'e', 'b', 'p'],
        ImageFormat::Bmp => seq!['b', 'm', 'p'],
        ImageFormat::Ico => seq!['i', 'c', 'o'],
        ImageFormat::Tiff => seq!['t', 'i', 'f', 'f'],
        ImageFormat::Tga => seq!['t', 'g', 'a'],
        ImageFormat::Dds => seq!['d', 'd', 's'],
        ImageFormat::Pnm => seq!['p', 'n', 'm'],
    }
}

/// The file extension of an output format.
pub fn ext_for(format: ImageFormat) -> (r: &'static str)
    ensures
        r@ == spec_ext_for(format),
{
    proof {
        reveal_strlit("png");
        reveal_strlit("jpg");
        reveal_strlit("webp");
        reveal_strlit("bmp");
        reveal_strlit("ico");
        reveal_strlit("tiff");
        reveal_strlit("tga");
        reveal_strlit("dds");
        reveal_strlit("pnm");
    }
    match format {
        ImageFormat::Png => "png",
        ImageFormat::Jpeg => "jpg",
        ImageFormat::Webp => "webp",
        ImageFormat::Bmp => "bmp",
        ImageFormat::Ico => "ico",
        ImageFormat::Tiff => "tiff",
        ImageFormat::Tga => "tga",
        ImageFormat::Dds => "dds",
        ImageFormat::Pnm => "pnm",
    }
}

/// The value of a hexadecimal digit.
pub open spec fn hex_value(c: u8) -> Option<u8> {
    if 48 <= c && c <= 57 {
        Some((c - 48) as u8)
    } else if 97 <= c && c <= 102 {
        Some((c - 87) as u8)
    } else if 65 <= c && c <= 70 {
        Some((c - 55) as u8)
    } else {
        None
    }
}

/// The byte that two characters write in base 16, as `u8::from_str_radix`
/// reads them: two digits, or '+' and one digit.
pub open spec fn hex_pair(a: u8, b: u8) -> Option<u8> {
    if a == 43 {
        hex_value(b)
    } else if hex_value(a) is Some && hex_value(b) is Some {
        Some((hex_value(a)->0 * 16 + hex_value(b)->0) as u8)
    } else {
        None
    }
}

/// `s` without the '#' characters at its start.
pub open spec fn skip_hashes(s: Seq<u8>) -> Seq<u8>
    decreases s.len(),
{
    if s.len() > 0 && s[0] == 35 {
        skip_hashes(s.drop_first())
    } else {
        s
    }
}

/// The colour that `s` names.
pub open spec fn rgb_of(s: Seq<u8>) -> Option<(u8, u8, u8)> {
    let t = skip_hashes(trimmed(s));
    if t.len() != 6 {
        None
    } else if hex_pair(t[0], t[1]) is Some && hex_pair(t[2], t[3]) is Some && hex_pair(t[4], t[5]) is Some {
        Some((hex_pair(t[0], t[1])->0, hex_pair(t[2], t[3])->0, hex_pair(t[4], t[5])->0))
    } else {
        None
    }
}

fn hex_digit(c: u8) -> (r: Option<u8>)
    ensures
        r == hex_value(c),
{
    if 48 <= c && c <= 57 {
        Some(c - 48)
    } else if 97 <= c && c <= 102 {
        Some(c - 87)
    } else if 65 <= c && c <= 70 {
        Some(c - 55)
    } else {
        None
    }
}

fn hex_byte(a: u8, b: u8) -> (r: Option<u8>)
    ensures
        r == hex_pair(a, b),
{
    if a == 43 {
        return hex_digit(b);
    }
    match (hex_digit(a), hex_digit(b)) {
        (Some(x), Some(y)) => Some(x * 16 + y),
        _ => None,
    }
}

proof fn lemma_skip_hashes(s: Seq<u8>, i: int)
    requires
        0 <= i <= s.len(),
        forall|j: int| 0 <= j < i ==> s[j] == 35,
    ensures
        skip_hashes(s) == skip_hashes(s.subrange(i, s.len() as int)),
    decreases i,
{
    if i > 0 {
        assert(s.drop_first().subrange(i - 1, s.drop_first().len() as int) =~= s.subrange(
            i,
            s.len() as int,
        ));
        lemma_skip_hashes(s.drop_first(), i - 1);
    } else {
        assert(s.subrange(0, s.len() as int) =~= s);
    }
}

/// Reads a colour such as "FFFFFF" or "#1a2b3c".
pub fn parse_hex_rgb(s: &[u8]) -> (r: Result<(u8, u8, u8), ImageError>)
    ensures
        match rgb_of(s@) {
            Some(c) => r == Ok::<(u8, u8, u8), ImageError>(c),
            None => r == Err::<(u8, u8, u8), ImageError>(ImageError::InvalidColor),
        },
{
    let t = trim(s);
    let mut i: usize = 0;
    while i < t.len() && t[i] == 35
        invariant
            i <= t@.len(),
            forall|j: int| 0 <= j < i ==> t@[j] == 35,
        decreases t@.len() - i,
    {
        i = i + 1;
    }
    proof {
        lemma_skip_hashes(t@, i as int);
    }
    let u = &t[i..t.len()];
    assert(skip_hashes(u@) == u@);
    if u.len() != 6 {
        return Err(ImageError::InvalidColor);
    }
    match (hex_byte(u[0], u[1]), hex_byte(u[2], u[3]), hex_byte(u[4], u[5])) {
        (Some(r), Some(g), Some(b)) => Ok((r, g, b)),
        _ => Err(ImageError::InvalidColor),
    }
}

pub open spec fn clamp_quality(q: u8) -> u8 {
    if q < 1 {
        1
    } else if q > 100 {
        100
    } else {
        q
    }
}

/// Checks an image command before any image is read: a JPEG conversion
/// needs a valid background colour and gets its quality clamped to 1..=100;
/// scaling needs a percentage, a width or a height.
pub fn run(cmd: ImageCmd) -> (r: Result<ImagePlan, ImageError>)
    ensures
        match cmd {
            ImageCmd::Convert(a) => if a.format == ImageFormat::Jpeg && rgb_of(encode_utf8(a.background@)) is None {
                r == Err::<ImagePlan, ImageError>(ImageError::InvalidColor)
            } else {
                r is Ok && match r->Ok_0 {
                    ImagePlan::Convert { input, output, format, quality, background } => {
                        &&& input == a.input
                        &&& output == a.output
                        &&& format == a.format
                        &&& quality == clamp_quality(a.quality)
                        &&& background == (if a.format == ImageFormat::Jpeg {
                            rgb_of(encode_utf8(a.background@))
                        } else {
                            None
                        })
                    },
                    _ => false,
                }
            },
            ImageCmd::Scale(a) => if a.percent is None && a.width is None && a.height is None {
                r == Err::<ImagePlan, ImageError>(ImageError::NoTargetSize)
            } else {
                r is Ok && r->Ok_0 == ImagePlan::Scale(a)
            },
        },
{
    match cmd {
        ImageCmd::Convert(a) => {
            let background = if a.format == ImageFormat::Jpeg {
                match parse_hex_rgb(a.background.as_str().as_bytes()) {
                    Ok(c) => Some(c),
                    Err(e) => {
                        return Err(e);
                    },
                }
            } else {
                None
            };
            let quality = if a.quality < 1 {
                1
            } else if a.quality > 100 {
                100
            } else {
                a.quality
            };
            Ok(
                ImagePlan::Convert {
                    input: a.input,
                    output: a.output,
                    format: a.format,
                    quality,
                    background,
                },
            )
        },
        ImageCmd::Scale(a) => {
            if a.percent.is_none() && a.width.is_none() && a.height.is_none() {
                return Err(ImageError::NoTargetSize);
            }
            Ok(ImagePlan::Scale(a))
        },
    }
}

} // verus!
