//! The conversion pipeline: decode the image bytes, resize the raster to the
//! target character grid under the chosen policy, and render it as text.

use vstd::prelude::*;

use crate::raster::{preserve_dims, preserve_dims_exec, resize, resize_spec, Pixel, Raster};
use crate::render::{render_chars, render_spec, chars_to_string};

verus! {

/// The scaling policy: fit inside the target box keeping the aspect ratio,
/// or force both target dimensions.
#[derive(Clone, Copy, PartialEq, Eq, Structural, Debug)]
pub enum ScalingType {
    PreserveRatio,
    Stretch,
}

/// What can go wrong while building an `ImageConverter`.
#[derive(Clone, Copy, PartialEq, Eq, Structural, Debug)]
pub enum ConvertError {
    /// Content sniffing yielded no known container format.
    FormatUnrecognized,
    /// The bitstream is malformed, or the decoded raster is degenerate.
    DecodeFailed,
    /// A target grid dimension is zero.
    InvalidDimensions,
}

/// What decoding a given byte sequence yields: the raster's width, height
/// and row-major 8-bit RGB pixels, or the failure it is rejected with.
pub uninterp spec fn decoded_image(bytes: Seq<u8>) -> Result<(nat, nat, Seq<Pixel>), ConvertError>;

/// Relies on `image::load_from_memory`: the container format is detected
/// from the bytes alone and the image decoded to 8-bit RGB, so the result
/// is a function of the bytes; an unknown format is reported as
/// `ImageError::Unsupported`, any other failure as a decoding error. The
/// pixel buffer of the decoded `RgbImage` holds width * height pixels,
/// row-major.
#[verifier::external_body]
fn decode_rgb(bytes: &Vec<u8>) -> (r: Result<(u32, u32, Vec<Pixel>), ConvertError>)
    ensures
        match r {
            Ok(t) => decoded_image(bytes@) == Result::<(nat, nat, Seq<Pixel>), ConvertError>::Ok(
                (t.0 as nat, t.1 as nat, t.2@),
            ) && t.2@.len() == (t.0 as nat) * (t.1 as nat),
            Err(e) => decoded_image(bytes@) == Result::<
                (nat, nat, Seq<Pixel>),
                ConvertError,
            >::Err(e) && (e is FormatUnrecognized || e is DecodeFailed),
        },
{
    match image::load_from_memory(bytes.as_slice()) {
        Ok(img) => {
            let rgb = img.to_rgb8();
            let (w, h) = (rgb.width(), rgb.height());
            let px = rgb.pixels().map(|p| Pixel { r: p.0[0], g: p.0[1], b: p.0[2] }).collect();
            Ok((w, h, px))
        },
        Err(image::ImageError::Unsupported(_)) => Err(ConvertError::FormatUnrecognized),
        Err(_) => Err(ConvertError::DecodeFailed),
    }
}

/// The output dimensions that the policy assigns for a `sw x sh` source and
/// a `tw x th` target grid.
pub open spec fn policy_dims(sw: int, sh: int, tw: int, th: int, st: ScalingType) -> (int, int) {
    match st {
        ScalingType::Stretch => (tw, th),
        ScalingType::PreserveRatio => preserve_dims(sw, sh, tw, th),
    }
}

/// Holds the raster already resized to the output grid, and the color mode.
#[derive(Debug)]
pub struct ImageConverter {
    pub raster: Raster,
    pub colored: bool,
}

impl ImageConverter {
    /// A converter always holds a well-formed raster of terminal-sized
    /// dimensions.
    pub open spec fn wf(self) -> bool {
        &&& self.raster.wf()
        &&& self.raster.width <= 65535
        &&& self.raster.height <= 65535
    }

    /// Decodes `image_bytes`, resizes the raster to the `width x height`
    /// target grid under `scaling_type`, and keeps the result for rendering.
    ///
    /// Fails exactly when the bytes are rejected by the decoder, when the
    /// decoded raster has a zero dimension, or when a target dimension is
    /// zero.
    pub fn new(
        image_bytes: &Vec<u8>,
        colored: bool,
        width: u16,
        height: u16,
        scaling_type: ScalingType,
    ) -> (r: Result<ImageConverter, ConvertError>)
        ensures
            match decoded_image(image_bytes@) {
                Err(e) => r == Result::<ImageConverter, ConvertError>::Err(e),
                Ok(t) => {
                    let (sw, sh, px) = (t.0, t.1, t.2);
                    if sw == 0 || sh == 0 {
                        r == Result::<ImageConverter, ConvertError>::Err(
                            ConvertError::DecodeFailed,
                        )
                    } else if width == 0 || height == 0 {
                        r == Result::<ImageConverter, ConvertError>::Err(
                            ConvertError::InvalidDimensions,
                        )
                    } else {
                        &&& r is Ok
                        &&& {
                            let c = r.unwrap();
                            let (ow, oh) = policy_dims(
                                sw as int,
                                sh as int,
                                width as int,
                                height as int,
                                scaling_type,
                            );
                            &&& c.wf()
                            &&& c.colored == colored
                            &&& c.raster.width == ow
                            &&& c.raster.height == oh
                            &&& c.raster.pixels@ == resize_spec(
                                px,
                                sw as int,
                                sh as int,
                                ow,
                                oh,
                            )
                        }
                    }
                },
            },
    {
        let decoded = decode_rgb(image_bytes);
        match decoded {
            Err(e) => Err(e),
            Ok((sw, sh, px)) => {
                if sw == 0 || sh == 0 {
                    return Err(ConvertError::DecodeFailed);
                }
                if width == 0 || height == 0 {
                    return Err(ConvertError::InvalidDimensions);
                }
                let src = Raster { width: sw as usize, height: sh as usize, pixels: px };
                let (ow, oh) = match scaling_type {
                    ScalingType::Stretch => (width as usize, height as usize),
                    ScalingType::PreserveRatio => preserve_dims_exec(
                        sw as usize,
                        sh as usize,
                        width,
                        height,
                    ),
                };
                let raster = resize(&src, ow, oh);
                Ok(ImageConverter { raster, colored })
            },
        }
    }

    /// Renders the held raster with the given palette, in the held color
    /// mode: one glyph per pixel, row-major, one newline closing each row.
    pub fn convert(&self, character_palette: Vec<char>) -> (s: String)
        requires
            self.wf(),
            character_palette@.len() >= 1,
        ensures
            s@ == render_spec(
                self.raster.pixels@,
                self.raster.width as int,
                character_palette@,
                self.colored,
            ),
    {
        if self.colored {
            self.convert_colored(character_palette)
        } else {
            self.convert_grayscaled(character_palette)
        }
    }

    /// Renders with each glyph wrapped in the truecolor escape that carries
    /// its pixel's channels.
    fn convert_colored(&self, character_palette: Vec<char>) -> (s: String)
        requires
            self.wf(),
            self.colored,
            character_palette@.len() >= 1,
        ensures
            s@ == render_spec(
                self.raster.pixels@,
                self.raster.width as int,
                character_palette@,
                true,
            ),
    {
        let out = render_chars(&self.raster.pixels, self.raster.width, &character_palette, true);
        chars_to_string(&out)
    }

    /// Renders the glyphs alone, by luminance.
    fn convert_grayscaled(&self, character_palette: Vec<char>) -> (s: String)
        requires
            self.wf(),
            !self.colored,
            character_palette@.len() >= 1,
        ensures
            s@ == render_spec(
                self.raster.pixels@,
                self.raster.width as int,
                character_palette@,
                false,
            ),
    {
        let out = render_chars(&self.raster.pixels, self.raster.width, &character_palette, false);
        chars_to_string(&out)
    }
}

} // verus!
