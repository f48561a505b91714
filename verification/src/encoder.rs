//! Turning an image into sixels: scaling and dithering it as the settings
//! ask, then encoding the frame band by band.
use crate::settings::Settings;
use crate::sixel::{encode_frame, palette, palette_of, sixel_stream, Pixel, Shade};
use picto::buffer;
use picto::processing::ditherer::palette::table::{Gray2, VT340};
use picto::processing::ditherer::{NeuQuant, Palette};
use picto::processing::scaler::{Lanczos3, Linear};
use picto::processing::{Dither, Scale};
use vstd::prelude::*;

verus! {

/// An image as its size and its pixels, row after row.
#[derive(Debug, PartialEq, Eq)]
pub struct Image {
    pub width: u32,
    pub height: u32,
    pub pixels: Vec<Pixel>,
}

impl View for Image {
    type V = (u32, u32, Seq<Pixel>);

    open spec fn view(&self) -> (u32, u32, Seq<Pixel>) {
        (self.width, self.height, self.pixels@)
    }
}

/// An image holds one pixel per cell.
pub open spec fn well_sized(image: (u32, u32, Seq<Pixel>)) -> bool {
    image.2.len() == image.0 as nat * image.1 as nat
}

impl Image {
    /// The image holds one pixel per cell.
    pub open spec fn wf(&self) -> bool {
        well_sized(self@)
    }
}

/// The target is the image's own size, and picto's float arithmetic keeps it
/// exactly: a width from 1 to 2^24 and a height up to 2^24.
pub open spec fn keeps_size(image: (u32, u32, Seq<Pixel>), width: u32, height: u32) -> bool {
    &&& width == image.0
    &&& height == image.1
    &&& 0 < width <= 0x100_0000
    &&& height <= 0x100_0000
}

/// What picto's `scale_to::<Lanczos3>` makes of an image for a target size.
pub uninterp spec fn lanczos3_scaled(image: (u32, u32, Seq<Pixel>), width: u32, height: u32) -> (u32, u32, Seq<Pixel>);

/// What picto's `scale_to::<Linear>` makes of an image for a target size.
pub uninterp spec fn linear_scaled(image: (u32, u32, Seq<Pixel>), width: u32, height: u32) -> (u32, u32, Seq<Pixel>);

/// The pixels that picto's `dither::<Palette<VT340>>` makes of an image.
pub uninterp spec fn vt340_dithered(image: (u32, u32, Seq<Pixel>)) -> Seq<Pixel>;

/// The pixels that picto's `dither::<Palette<Gray2>>` makes of an image.
pub uninterp spec fn gray2_dithered(image: (u32, u32, Seq<Pixel>)) -> Seq<Pixel>;

/// The pixels that picto's `dither::<NeuQuant>` makes of an image for a number of colors.
pub uninterp spec fn neuquant_dithered(image: (u32, u32, Seq<Pixel>), colors: u32) -> Seq<Pixel>;

/// Scales with picto's `Scale::scale_to::<Lanczos3>` to fit `width` by `height`.
///
/// Trusted: the result is named by `lanczos3_scaled` over the image and the
/// target. picto keeps the aspect ratio and computes the size with floats, so
/// nothing is said of the size but that the result holds one pixel per cell
/// (picto allocates the output buffer for its size). The pixels go in and out
/// through `Buffer::from_raw` and `Buffer::into_raw`, four bytes per pixel;
/// `from_raw` fails only on too few bytes, which a well-sized image rules out.
#[verifier::external_body]
fn scale_lanczos3(image: &Image, width: u32, height: u32) -> (scaled: Image)
    requires
        image.wf(),
    ensures
        scaled@ == lanczos3_scaled(image@, width, height),
        scaled.wf(),
        keeps_size(image@, width, height) ==> scaled.width == width && scaled.height == height,
{
    let raw: Vec<u8> = image.pixels.iter().flat_map(|p| [p.0, p.1, p.2, p.3]).collect();
    let input = buffer::Rgba::from_raw(image.width, image.height, raw).unwrap();
    let output = (&input).scale_to::<Lanczos3>(width, height);
    let (w, h) = output.dimensions();
    let pixels = output.into_raw().chunks(4).map(|c| (c[0], c[1], c[2], c[3])).collect();
    Image { width: w, height: h, pixels }
}

/// Scales with picto's `Scale::scale_to::<Linear>` to fit `width` by `height`.
///
/// Trusted: as `scale_lanczos3`, with the result named by `linear_scaled`.
#[verifier::external_body]
fn scale_linear(image: &Image, width: u32, height: u32) -> (scaled: Image)
    requires
        image.wf(),
    ensures
        scaled@ == linear_scaled(image@, width, height),
        scaled.wf(),
        keeps_size(image@, width, height) ==> scaled.width == width && scaled.height == height,
{
    let raw: Vec<u8> = image.pixels.iter().flat_map(|p| [p.0, p.1, p.2, p.3]).collect();
    let input = buffer::Rgba::from_raw(image.width, image.height, raw).unwrap();
    let output = (&input).scale_to::<Linear>(width, height);
    let (w, h) = output.dimensions();
    let pixels = output.into_raw().chunks(4).map(|c| (c[0], c[1], c[2], c[3])).collect();
    Image { width: w, height: h, pixels }
}

/// Dithers with picto's `Dither::dither::<Palette<VT340>>`, asking for 16 colors.
///
/// Trusted: the pixels are named by `vt340_dithered` over the image (the
/// palette ditherer ignores the number of colors), and their number is that
/// of the image, since picto dithers into a buffer of the input's size.
/// The pixels go in and out through `Buffer::from_raw` and `Buffer::into_raw`.
#[verifier::external_body]
fn dither_vt340(image: &Image) -> (pixels: Vec<Pixel>)
    requires
        image.wf(),
    ensures
        pixels@ == vt340_dithered(image@),
        pixels@.len() == image.pixels@.len(),
{
    let raw: Vec<u8> = image.pixels.iter().flat_map(|p| [p.0, p.1, p.2, p.3]).collect();
    let input = buffer::Rgba::from_raw(image.width, image.height, raw).unwrap();
    let output = (&input).dither::<Palette<VT340>>(16);
    output.into_raw().chunks(4).map(|c| (c[0], c[1], c[2], c[3])).collect()
}

/// Dithers with picto's `Dither::dither::<Palette<Gray2>>`, asking for `colors` colors.
///
/// Trusted: the pixels are named by `gray2_dithered` over the image (the
/// palette ditherer ignores the number of colors), and their number is that
/// of the image.
#[verifier::external_body]
fn dither_gray2(image: &Image, colors: u32) -> (pixels: Vec<Pixel>)
    requires
        image.wf(),
    ensures
        pixels@ == gray2_dithered(image@),
        pixels@.len() == image.pixels@.len(),
{
    let raw: Vec<u8> = image.pixels.iter().flat_map(|p| [p.0, p.1, p.2, p.3]).collect();
    let input = buffer::Rgba::from_raw(image.width, image.height, raw).unwrap();
    let output = (&input).dither::<Palette<Gray2>>(colors);
    output.into_raw().chunks(4).map(|c| (c[0], c[1], c[2], c[3])).collect()
}

/// Quantizes with picto's `Dither::dither::<NeuQuant>` to `colors` colors.
///
/// Trusted: the pixels are named by `neuquant_dithered` over the image and
/// the number of colors, and their number is that of the image. The count is
/// held to the range that color_quant's `NeuQuant::new` is documented and
/// tuned for (at least 64, at most 256): with no colors it panics, and fewer
/// than 64 it does not promise to handle.
#[verifier::external_body]
fn dither_neuquant(image: &Image, colors: u32) -> (pixels: Vec<Pixel>)
    requires
        image.wf(),
        64 <= colors <= 256,
    ensures
        pixels@ == neuquant_dithered(image@, colors),
        pixels@.len() == image.pixels@.len(),
{
    let raw: Vec<u8> = image.pixels.iter().flat_map(|p| [p.0, p.1, p.2, p.3]).collect();
    let input = buffer::Rgba::from_raw(image.width, image.height, raw).unwrap();
    let output = (&input).dither::<NeuQuant>(colors);
    output.into_raw().chunks(4).map(|c| (c[0], c[1], c[2], c[3])).collect()
}

/// The size an image is scaled to: the one set, else its own.
pub open spec fn target_size(settings: Settings, image: (u32, u32, Seq<Pixel>)) -> (u32, u32) {
    match settings.spec_size() {
        Some(size) => size,
        None => (image.0, image.1),
    }
}

/// The scaled image: Lanczos3 when it shrinks either way, linear otherwise.
pub open spec fn scaled(settings: Settings, image: (u32, u32, Seq<Pixel>)) -> (u32, u32, Seq<Pixel>) {
    let (width, height) = target_size(settings, image);
    if width < image.0 || height < image.1 {
        lanczos3_scaled(image, width, height)
    } else {
        linear_scaled(image, width, height)
    }
}

/// The dithered image: the VT340 palette for 8 or 16 colors, NeuQuant for 64
/// or 256, the Gray2 palette for any other number, untouched without one.
pub open spec fn dithered(colors: Option<u16>, image: (u32, u32, Seq<Pixel>)) -> (u32, u32, Seq<Pixel>) {
    match colors {
        Some(n) => if n == 8 || n == 16 {
            (image.0, image.1, vt340_dithered(image))
        } else if n == 64 || n == 256 {
            (image.0, image.1, neuquant_dithered(image, n as u32))
        } else {
            (image.0, image.1, gray2_dithered(image))
        },
        None => image,
    }
}

/// The frame that an image becomes before it is encoded.
pub open spec fn prepared(settings: Settings, image: (u32, u32, Seq<Pixel>)) -> (u32, u32, Seq<Pixel>) {
    dithered(settings.spec_colors(), scaled(settings, image))
}

/// Whether the alpha channel is kept: only when no number of colors is set.
pub open spec fn keeps_alpha(settings: Settings) -> bool {
    settings.spec_colors() is None
}

/// Encodes images into sixels with fixed settings.
pub struct Encoder {
    settings: Settings,
}

impl View for Encoder {
    type V = Settings;

    closed spec fn view(&self) -> Settings {
        self.settings
    }
}

impl Encoder {
    /// An encoder with the given settings.
    pub fn new(settings: Settings) -> (encoder: Self)
        ensures
            encoder@ == settings,
    {
        Encoder { settings }
    }

    /// Scales an image to the set size: with the Lanczos3 sampler when it
    /// shrinks either way, with the linear sampler otherwise.
    pub fn scale(&self, image: &Image) -> (resized: Image)
        requires
            image.wf(),
        ensures
            resized.wf(),
            resized@ == scaled(self@, image@),
            self@.spec_size() is Some ==> ({
                let (w, h) = self@.spec_size().unwrap();
                resized@ == if w < image.width || h < image.height {
                    lanczos3_scaled(image@, w, h)
                } else {
                    linear_scaled(image@, w, h)
                }
            }),
            self@.spec_size() is None ==> resized@ == linear_scaled(image@, image.width, image.height),
            keeps_size(image@, target_size(self@, image@).0, target_size(self@, image@).1)
                ==> resized.width == image.width && resized.height == image.height,
    {
        let (width, height) = match self.settings.size() {
            Some(size) => size,
            None => (image.width, image.height),
        };
        if width < image.width || height < image.height {
            scale_lanczos3(image, width, height)
        } else {
            scale_linear(image, width, height)
        }
    }

    /// Dithers an image to the set number of colors.
    pub fn dither(&self, image: Image) -> (dithered_image: Image)
        requires
            image.wf(),
        ensures
            dithered_image.wf(),
            dithered_image@ == dithered(self@.spec_colors(), image@),
            dithered_image.width == image.width && dithered_image.height == image.height,
            self@.spec_colors() == Some(8u16) || self@.spec_colors() == Some(16u16)
                ==> dithered_image.pixels@ == vt340_dithered(image@),
            self@.spec_colors() == Some(64u16) ==> dithered_image.pixels@ == neuquant_dithered(image@, 64),
            self@.spec_colors() == Some(256u16) ==> dithered_image.pixels@ == neuquant_dithered(image@, 256),
            self@.spec_colors() is Some && !(self@.spec_colors() == Some(8u16) || self@.spec_colors()
                == Some(16u16) || self@.spec_colors() == Some(64u16) || self@.spec_colors() == Some(
                256u16,
            )) ==> dithered_image.pixels@ == gray2_dithered(image@),
            self@.spec_colors() is None ==> dithered_image@ == image@,
    {
        match self.settings.colors() {
            Some(n) => {
                let pixels = if n == 8 || n == 16 {
                    dither_vt340(&image)
                } else if n == 64 || n == 256 {
                    dither_neuquant(&image, n as u32)
                } else {
                    dither_gray2(&image, n as u32)
                };
                Image { width: image.width, height: image.height, pixels }
            },
            None => image,
        }
    }

    /// Scales and dithers an image as the settings ask.
    pub fn prepare(&self, image: &Image) -> (frame: Image)
        requires
            image.wf(),
        ensures
            frame.wf(),
            frame@ == prepared(self@, image@),
            frame@ == dithered(self@.spec_colors(), scaled(self@, image@)),
            keeps_size(image@, target_size(self@, image@).0, target_size(self@, image@).1)
                ==> frame.width == image.width && frame.height == image.height,
    {
        let resized = self.scale(image);
        self.dither(resized)
    }

    /// The colors that encoding a frame registers, in the order of their ids:
    /// opaque unless the alpha channel is kept.
    pub fn palette(&self, frame: &Image) -> (colors: Vec<Pixel>)
        requires
            frame.wf(),
        ensures
            colors@ == palette(frame.pixels@, frame.width as nat, (frame.height / 6) as nat, keeps_alpha(self@)),
    {
        palette_of(&frame.pixels, frame.width, frame.height, self.settings.colors().is_none())
    }

    /// The sixel image of a frame. When a number of colors is set, register
    /// `i` is defined by `shades[i]`, the hue, saturation and lightness of
    /// color `i` of the palette.
    pub fn encode(&self, frame: &Image, shades: &Vec<Shade>) -> (bytes: Vec<u8>)
        requires
            frame.wf(),
            palette(frame.pixels@, frame.width as nat, (frame.height / 6) as nat, keeps_alpha(self@)).len() < 0x1_0000_0000,
            keeps_alpha(self@) || shades@.len() == palette(
                frame.pixels@,
                frame.width as nat,
                (frame.height / 6) as nat,
                keeps_alpha(self@),
            ).len(),
        ensures
            bytes@ == sixel_stream(frame.pixels@, frame.width as nat, frame.height as nat, keeps_alpha(self@), shades@),
    {
        encode_frame(&frame.pixels, frame.width, frame.height, self.settings.colors().is_none(), shades)
    }
}

} // verus!
