//! Decoded images and alpha removal.
//!
//! A fetched card picture is decoded into a raw pixel buffer and then
//! made fully opaque: the document writer downstream does not support
//! transparency, so every pixel with an alpha weight is composited
//! against an opaque white backdrop, matching what printing on white
//! media would show.

use vstd::arithmetic::div_mod::{
    lemma_div_is_ordered, lemma_div_multiples_vanish, lemma_fundamental_div_mod, lemma_mod_bound,
};
use vstd::arithmetic::mul::lemma_mul_inequality;
use vstd::prelude::*;

verus! {

/// The color model of a raw pixel buffer, one byte per channel.
#[derive(Clone, Copy, Debug, PartialEq, Eq, Structural)]
pub enum ColorSpace {
    Greyscale,
    GreyscaleAlpha,
    Rgb,
    Rgba,
}

/// Bytes per pixel of a color model.
pub open spec fn channels(c: ColorSpace) -> nat {
    match c {
        ColorSpace::Greyscale => 1,
        ColorSpace::GreyscaleAlpha => 2,
        ColorSpace::Rgb => 3,
        ColorSpace::Rgba => 4,
    }
}

/// A color model without an alpha channel.
pub open spec fn alpha_free(c: ColorSpace) -> bool {
    c == ColorSpace::Greyscale || c == ColorSpace::Rgb
}

/// A decoded bitmap: row-major pixel bytes tagged with their color model.
pub struct PixelBuffer {
    pub width: u32,
    pub height: u32,
    pub color: ColorSpace,
    pub data: Vec<u8>,
}

impl PixelBuffer {
    /// The buffer holds exactly one byte per channel per pixel.
    pub open spec fn well_formed(self) -> bool {
        self.data@.len() == self.width * self.height * channels(self.color)
    }
}

/// One channel composited against an opaque white backdrop, its pixel's
/// alpha as the blend weight: `(1 - a/255)*255 + (a/255)*c`, truncated.
pub open spec fn blend_white(a: u8, c: u8) -> u8 {
    (255 - a + (a * c) / 255) as u8
}

/// An RGBA byte row blended opaque: each four-byte pixel becomes three.
/// A trailing chunk of fewer than four bytes is dropped.
pub open spec fn strip_rgba(data: Seq<u8>) -> Seq<u8> {
    Seq::new(
        ((data.len() / 4) * 3) as nat,
        |i: int| blend_white(data[4 * (i / 3) + 3], data[4 * (i / 3) + (i % 3)]),
    )
}

/// A greyscale-alpha byte row blended opaque: each two-byte pixel
/// becomes one.  A trailing odd byte is dropped.
pub open spec fn strip_grey_alpha(data: Seq<u8>) -> Seq<u8> {
    Seq::new((data.len() / 2) as nat, |i: int| blend_white(data[2 * i + 1], data[2 * i]))
}

/// What alpha removal yields on any tagged byte row: buffers already
/// alpha-free pass through unchanged.
pub open spec fn strip_alpha_spec(c: ColorSpace, data: Seq<u8>) -> (ColorSpace, Seq<u8>) {
    match c {
        ColorSpace::Rgba => (ColorSpace::Rgb, strip_rgba(data)),
        ColorSpace::GreyscaleAlpha => (ColorSpace::Greyscale, strip_grey_alpha(data)),
        _ => (c, data),
    }
}

/// Alpha removal leaves an already-opaque buffer unchanged.
pub proof fn lemma_strip_alpha_opaque(c: ColorSpace, data: Seq<u8>)
    requires
        alpha_free(c),
    ensures
        strip_alpha_spec(c, data) == (c, data),
{
}

/// Alpha removal is idempotent: a second application returns the first
/// application's result unchanged, since that result is alpha-free.
pub proof fn lemma_strip_alpha_idempotent(c: ColorSpace, data: Seq<u8>)
    ensures
        alpha_free(strip_alpha_spec(c, data).0),
        strip_alpha_spec(strip_alpha_spec(c, data).0, strip_alpha_spec(c, data).1)
            == strip_alpha_spec(c, data),
{
}

/// What decoding a PNG byte stream yields: the width, height, color
/// model and raw pixel bytes, or nothing when the bytes are not a PNG
/// that decodes to a one-byte-per-channel buffer.  The result depends on
/// the bytes alone.
pub uninterp spec fn png_decode_spec(bytes: Seq<u8>) -> Option<(u32, u32, ColorSpace, Seq<u8>)>;

/// Fetched bytes that do not decode as a supported image.
#[derive(Clone, Copy, Debug, PartialEq, Eq, Structural)]
pub struct DecodeError;

/// Relies on the image crate's PNG decoder (`PngDecoder` read through
/// `DynamicImage::from_decoder`): what a PNG decodes to is a function of
/// its bytes alone, and a decoded 8-bit-per-channel buffer holds exactly
/// `width * height * channels` bytes.  Images with other sample layouts
/// are not accepted.
#[verifier::external_body]
fn decode_png(bytes: &Vec<u8>) -> (r: Result<PixelBuffer, DecodeError>)
    ensures
        match r {
            Result::Ok(img) => png_decode_spec(bytes@) == Option::Some(
                (img.width, img.height, img.color, img.data@),
            ) && img.well_formed(),
            Result::Err(_) => png_decode_spec(bytes@) is None,
        },
{
    let cursor = std::io::Cursor::new(bytes.as_slice());
    let decoder = image::codecs::png::PngDecoder::new(cursor).map_err(|_| DecodeError)?;
    let img = image::DynamicImage::from_decoder(decoder).map_err(|_| DecodeError)?;
    let (width, height) = (img.width(), img.height());
    let color = match img.color() {
        image::ColorType::L8 => ColorSpace::Greyscale,
        image::ColorType::La8 => ColorSpace::GreyscaleAlpha,
        image::ColorType::Rgb8 => ColorSpace::Rgb,
        image::ColorType::Rgba8 => ColorSpace::Rgba,
        _ => return Err(DecodeError),
    };
    Ok(PixelBuffer { width, height, color, data: img.into_bytes() })
}

/// Decodes fetched PNG bytes and removes any alpha channel, so that what
/// reaches the page layout is always a fully opaque, well-formed buffer.
pub fn normalize_image(bytes: &Vec<u8>) -> (r: Result<PixelBuffer, DecodeError>)
    ensures
        match r {
            Result::Ok(img) => match png_decode_spec(bytes@) {
                Option::Some((w, h, c, d)) => {
                    &&& img.width == w
                    &&& img.height == h
                    &&& (img.color, img.data@) == strip_alpha_spec(c, d)
                    &&& alpha_free(img.color)
                    &&& img.well_formed()
                },
                Option::None => false,
            },
            Result::Err(_) => png_decode_spec(bytes@) is None,
        },
{
    let decoded = decode_png(bytes)?;
    Ok(remove_alpha_channel(decoded))
}

/// Builds a solid-color RGB buffer: the built-in stand-in artwork used
/// when a card resolves without offering an image.
pub fn solid_image(width: u32, height: u32, red: u8, green: u8, blue: u8) -> (r: PixelBuffer)
    requires
        width * height * 3 <= usize::MAX,
    ensures
        r.width == width,
        r.height == height,
        r.color == ColorSpace::Rgb,
        r.well_formed(),
        forall|j: int|
            0 <= j < r.data@.len() ==> #[trigger] r.data@[j] == (if j % 3 == 0 {
                red
            } else if j % 3 == 1 {
                green
            } else {
                blue
            }),
{
    let n: usize = (width as usize) * (height as usize);
    let mut data: Vec<u8> = Vec::new();
    let mut i: usize = 0;
    while i < n
        invariant
            i <= n,
            n == width * height,
            data@.len() == 3 * i,
            forall|j: int|
                0 <= j < data@.len() ==> #[trigger] data@[j] == (if j % 3 == 0 {
                    red
                } else if j % 3 == 1 {
                    green
                } else {
                    blue
                }),
        decreases n - i,
    {
        data.push(red);
        data.push(green);
        data.push(blue);
        i = i + 1;
    }
    PixelBuffer { width, height, color: ColorSpace::Rgb, data }
}

fn blend_white_exec(a: u8, c: u8) -> (r: u8)
    ensures
        r == blend_white(a, c),
{
    proof {
        lemma_mul_inequality(a as int, 255, c as int);
        lemma_mul_inequality(c as int, 255, 255);
    }
    let prod: u32 = (a as u32) * (c as u32);
    proof {
        lemma_mul_inequality(c as int, 255, a as int);
        lemma_div_is_ordered(a as int * c as int, a as int * 255, 255);
        lemma_div_multiples_vanish(a as int, 255);
        assert(a as int * 255 == 255 * a as int);
    }
    let r: u32 = 255 - (a as u32) + prod / 255;
    r as u8
}

/// Composites the buffer against an opaque white backdrop and drops the
/// alpha channel; a buffer already free of alpha is returned unchanged.
/// The pixel count is kept, so a well-formed buffer stays well formed.
///
/// Alpha removal is deliberately total: it accepts every buffer and
/// never fails, as the no-transparency invariant of the layout stage
/// demands.  On a buffer whose byte count is not a whole number of
/// pixels only the whole pixels are kept; a well-formed buffer — the
/// only kind the decoder yields — has no such trailing bytes, so
/// nothing is ever lost in the pipeline.
pub fn remove_alpha_channel(img: PixelBuffer) -> (r: PixelBuffer)
    ensures
        r.width == img.width,
        r.height == img.height,
        (r.color, r.data@) == strip_alpha_spec(img.color, img.data@),
        alpha_free(r.color),
        img.well_formed() ==> r.well_formed(),
{
    match img.color {
        ColorSpace::Rgba => {
            let data_len: usize = img.data.len();
            let n: usize = data_len / 4;
            proof {
                lemma_fundamental_div_mod(img.data@.len() as int, 4);
                lemma_mod_bound(img.data@.len() as int, 4);
                if img.well_formed() {
                    lemma_div_multiples_vanish(
                        img.width as int * img.height as int,
                        4,
                    );
                    assert(4 * (img.width as int * img.height as int)
                        == img.width as int * img.height as int * 4);
                }
            }
            let mut out: Vec<u8> = Vec::new();
            let mut g: usize = 0;
            while g < n
                invariant
                    n == img.data@.len() / 4,
                    data_len == img.data@.len(),
                    4 * n <= data_len,
                    g <= n,
                    out@.len() == 3 * g,
                    forall|i: int|
                        0 <= i < 3 * g ==> out@[i] == blend_white(
                            img.data@[4 * (i / 3) + 3],
                            img.data@[4 * (i / 3) + (i % 3)],
                        ),
                decreases n - g,
            {
                let base: usize = 4 * g;
                let alpha: u8 = img.data[base + 3];
                out.push(blend_white_exec(alpha, img.data[base]));
                out.push(blend_white_exec(alpha, img.data[base + 1]));
                out.push(blend_white_exec(alpha, img.data[base + 2]));
                proof {
                    assert forall|i: int| 0 <= i < 3 * (g + 1) implies out@[i] == blend_white(
                        img.data@[4 * (i / 3) + 3],
                        img.data@[4 * (i / 3) + (i % 3)],
                    ) by {
                        if i >= 3 * g {
                            assert(i / 3 == g && (i == 3 * g + i % 3)) by {
                                lemma_fundamental_div_mod(i, 3);
                            }
                        }
                    }
                }
                g = g + 1;
            }
            assert(out@ =~= strip_rgba(img.data@));
            proof {
                if img.well_formed() {
                    lemma_div_multiples_vanish(img.width as int * img.height as int, 4);
                    assert(4 * (img.width as int * img.height as int)
                        == img.width as int * img.height as int * 4);
                }
            }
            let result = PixelBuffer {
                width: img.width,
                height: img.height,
                color: ColorSpace::Rgb,
                data: out,
            };
            assert(img.well_formed() ==> result.well_formed());
            result
        },
        ColorSpace::GreyscaleAlpha => {
            let data_len: usize = img.data.len();
            let n: usize = data_len / 2;
            proof {
                lemma_fundamental_div_mod(img.data@.len() as int, 2);
                lemma_mod_bound(img.data@.len() as int, 2);
                if img.well_formed() {
                    lemma_div_multiples_vanish(
                        img.width as int * img.height as int,
                        2,
                    );
                    assert(2 * (img.width as int * img.height as int)
                        == img.width as int * img.height as int * 2);
                }
            }
            let mut out: Vec<u8> = Vec::new();
            let mut g: usize = 0;
            while g < n
                invariant
                    n == img.data@.len() / 2,
                    data_len == img.data@.len(),
                    2 * n <= data_len,
                    g <= n,
                    out@.len() == g,
                    forall|i: int|
                        0 <= i < g ==> out@[i] == blend_white(img.data@[2 * i + 1], img.data@[2 * i]),
                decreases n - g,
            {
                let alpha: u8 = img.data[2 * g + 1];
                out.push(blend_white_exec(alpha, img.data[2 * g]));
                g = g + 1;
            }
            assert(out@ =~= strip_grey_alpha(img.data@));
            proof {
                if img.well_formed() {
                    lemma_div_multiples_vanish(img.width as int * img.height as int, 2);
                    assert(2 * (img.width as int * img.height as int)
                        == img.width as int * img.height as int * 2);
                }
            }
            let result = PixelBuffer {
                width: img.width,
                height: img.height,
                color: ColorSpace::Greyscale,
                data: out,
            };
            assert(img.well_formed() ==> result.well_formed());
            result
        },
        _ => {
            assert(alpha_free(img.color));
            img
        },
    }
}

} // verus!
