//! Encoding of raster images into PDF image streams.

use crate::compress::{COMPRESSION_LEVEL, deflate, zlib_of};
use vstd::prelude::*;

verus! {

/// The format an image was stored in.
#[derive(Clone, Copy, Debug, PartialEq, Eq, Structural)]
pub enum ImageFormat {
    Png,
    Jpeg,
    /// Any other format.
    Other,
}

/// The layout of a decoded pixel, eight bits per channel.
#[derive(Clone, Copy, Debug, PartialEq, Eq, Structural)]
pub enum PixelKind {
    Luma8,
    LumaA8,
    Rgb8,
    Rgba8,
}

/// The filter that decodes an image stream.
#[derive(Clone, Copy, Debug, PartialEq, Eq, Structural)]
pub enum Filter {
    FlateDecode,
    DctDecode,
}

/// A decoded raster image: pixels row by row, channels interleaved.
pub struct RasterImage {
    pub format: ImageFormat,
    pub kind: PixelKind,
    pub width: u32,
    pub height: u32,
    pub pixels: Vec<u8>,
}

/// An encoded image stream.
pub struct Encoded {
    pub data: Vec<u8>,
    pub filter: Filter,
    /// Whether the stream is RGB rather than gray.
    pub has_color: bool,
}

/// The image could not be written in its own format.
#[derive(Clone, Copy, Debug, PartialEq, Eq, Structural)]
pub struct EncodeError;

/// The number of channels of a pixel.
pub open spec fn channels(k: PixelKind) -> nat {
    match k {
        PixelKind::Luma8 => 1,
        PixelKind::LumaA8 => 2,
        PixelKind::Rgb8 => 3,
        PixelKind::Rgba8 => 4,
    }
}

/// Whether the pixel kind carries an alpha channel.
pub open spec fn has_alpha(k: PixelKind) -> bool {
    k == PixelKind::LumaA8 || k == PixelKind::Rgba8
}

impl RasterImage {
    /// The buffer holds exactly the image's pixels.
    pub open spec fn wf(&self) -> bool {
        self.pixels@.len() == channels(self.kind) * self.width * self.height
    }

    /// The number of pixels.
    pub open spec fn count(&self) -> nat {
        (self.width * self.height) as nat
    }

    /// Whether the image has an alpha channel.
    pub fn has_alpha(&self) -> (r: bool)
        ensures
            r == has_alpha(self.kind),
    {
        self.kind == PixelKind::LumaA8 || self.kind == PixelKind::Rgba8
    }
}

/// Channel `k` (red, green or blue) of pixel `i`, as RGBA: gray is repeated.
pub open spec fn rgb_channel(kind: PixelKind, px: Seq<u8>, i: int, k: int) -> u8 {
    match kind {
        PixelKind::Luma8 => px[i],
        PixelKind::LumaA8 => px[2 * i],
        PixelKind::Rgb8 => px[3 * i + k],
        PixelKind::Rgba8 => px[4 * i + k],
    }
}

/// The alpha of pixel `i`; opaque where the kind has no alpha.
pub open spec fn alpha_channel(kind: PixelKind, px: Seq<u8>, i: int) -> u8 {
    match kind {
        PixelKind::LumaA8 => px[2 * i + 1],
        PixelKind::Rgba8 => px[4 * i + 3],
        _ => 255,
    }
}

/// The pixels as packed RGB triplets, alpha left out.
pub open spec fn rgb_triplets(kind: PixelKind, px: Seq<u8>, n: nat) -> Seq<u8> {
    Seq::new(3 * n, |j: int| rgb_channel(kind, px, j / 3, j % 3))
}

/// One alpha byte per pixel.
pub open spec fn alpha_bytes(kind: PixelKind, px: Seq<u8>, n: nat) -> Seq<u8> {
    Seq::new(n, |i: int| alpha_channel(kind, px, i))
}

/// The JPEG encoding of a gray (`gray`) or RGB image.
pub uninterp spec fn jpeg_of(gray: bool, width: u32, height: u32, pixels: Seq<u8>) -> Seq<u8>;

#[verifier::external_type_specification]
#[verifier::external_body]
pub struct ExImageError(image::ImageError);

/// Relies on the image crate's JPEG encoder, reached through
/// `DynamicImage::write_to` with `ImageFormat::Jpeg`: where it succeeds the
/// bytes depend on the pixels and dimensions alone, and it fails only where
/// a dimension does not fit the frame header's 16 bits (writing into a
/// `Cursor` over a `Vec` cannot fail). `ImageBuffer::from_raw` accepts a
/// buffer of `width × height` gray bytes.
#[verifier::external_body]
fn write_jpeg_gray(width: u32, height: u32, pixels: &Vec<u8>) -> (r: Result<Vec<u8>, image::ImageError>)
    requires
        pixels@.len() == width * height,
    ensures
        r matches Ok(b) ==> b@ == jpeg_of(true, width, height, pixels@),
        r.is_ok() <==> (width <= 65535 && height <= 65535),
{
    let buf = image::DynamicImage::ImageLuma8(image::ImageBuffer::from_raw(width, height, pixels.clone()).unwrap());
    let mut out = std::io::Cursor::new(Vec::new());
    buf.write_to(&mut out, image::ImageFormat::Jpeg).map(|_| out.into_inner())
}

/// Relies on the image crate's JPEG encoder, reached through
/// `DynamicImage::write_to` with `ImageFormat::Jpeg`: where it succeeds the
/// bytes depend on the pixels and dimensions alone, and it fails only where
/// a dimension does not fit the frame header's 16 bits (writing into a
/// `Cursor` over a `Vec` cannot fail). `ImageBuffer::from_raw` accepts a
/// buffer of `3 × width × height` RGB bytes.
#[verifier::external_body]
fn write_jpeg_rgb(width: u32, height: u32, pixels: &Vec<u8>) -> (r: Result<Vec<u8>, image::ImageError>)
    requires
        pixels@.len() == 3 * width * height,
    ensures
        r matches Ok(b) ==> b@ == jpeg_of(false, width, height, pixels@),
        r.is_ok() <==> (width <= 65535 && height <= 65535),
{
    let buf = image::DynamicImage::ImageRgb8(image::ImageBuffer::from_raw(width, height, pixels.clone()).unwrap());
    let mut out = std::io::Cursor::new(Vec::new());
    buf.write_to(&mut out, image::ImageFormat::Jpeg).map(|_| out.into_inner())
}

proof fn lemma_step(i: nat, c: nat, n: nat)
    requires
        i < n,
    ensures
        (i + 1) * c == i * c + c,
        i * c + c <= n * c,
{
    assert((i + 1) * c == i * c + c) by (nonlinear_arith);
    assert(i * c + c <= n * c) by (nonlinear_arith)
        requires
            i < n,
    ;
}

/// The pixels as packed RGB triplets.
pub fn pack_rgb(img: &RasterImage) -> (r: Vec<u8>)
    requires
        img.wf(),
    ensures
        r@ == rgb_triplets(img.kind, img.pixels@, img.count()),
{
    let c: usize = match img.kind {
        PixelKind::Luma8 => 1,
        PixelKind::LumaA8 => 2,
        PixelKind::Rgb8 => 3,
        PixelKind::Rgba8 => 4,
    };
    let total: usize = img.pixels.len();
    let n: usize = total / c;
    proof {
        assert(img.pixels@.len() == c * img.count()) by (nonlinear_arith)
            requires img.pixels@.len() == c * img.width * img.height, img.count() == img.width * img.height;
        assert(n == img.count()) by (nonlinear_arith)
            requires img.pixels@.len() == c * img.count(), n == img.pixels@.len() / (c as nat), c > 0;
        assert(img.pixels@.len() == n * c) by (nonlinear_arith)
            requires img.pixels@.len() == c * img.count(), n == img.count();
    }
    let mut out: Vec<u8> = Vec::new();
    let mut i: usize = 0;
    let mut off: usize = 0;
    while i < n
        invariant
            c == channels(img.kind),
            n == img.count(),
            img.pixels@.len() == n * c,
            total == n * c,
            i <= n,
            off == i * c,
            out@.len() == 3 * i,
            forall|j: int| 0 <= j < 3 * i ==> #[trigger] out@[j] == rgb_channel(img.kind, img.pixels@, j / 3, j % 3),
        decreases n - i,
    {
        proof {
            lemma_step(i as nat, c as nat, n as nat);
        }
        let (r, g, b) = match img.kind {
            PixelKind::Luma8 => (img.pixels[off], img.pixels[off], img.pixels[off]),
            PixelKind::LumaA8 => (img.pixels[off], img.pixels[off], img.pixels[off]),
            _ => (img.pixels[off], img.pixels[off + 1], img.pixels[off + 2]),
        };
        out.push(r);
        out.push(g);
        out.push(b);
        proof {
            assert forall|j: int| 0 <= j < 3 * (i + 1) implies #[trigger] out@[j] == rgb_channel(img.kind, img.pixels@, j / 3, j % 3) by {
                if j >= 3 * i {
                    assert(j / 3 == i as int);
                }
            }
        }
        i += 1;
        off += c;
    }
    assert(out@ =~= rgb_triplets(img.kind, img.pixels@, img.count()));
    out
}

/// The alpha channel, one byte per pixel.
pub fn pack_alpha(img: &RasterImage) -> (r: Vec<u8>)
    requires
        img.wf(),
    ensures
        r@ == alpha_bytes(img.kind, img.pixels@, img.count()),
{
    let c: usize = match img.kind {
        PixelKind::Luma8 => 1,
        PixelKind::LumaA8 => 2,
        PixelKind::Rgb8 => 3,
        PixelKind::Rgba8 => 4,
    };
    let total: usize = img.pixels.len();
    let n: usize = total / c;
    proof {
        assert(img.pixels@.len() == c * img.count()) by (nonlinear_arith)
            requires img.pixels@.len() == c * img.width * img.height, img.count() == img.width * img.height;
        assert(n == img.count()) by (nonlinear_arith)
            requires img.pixels@.len() == c * img.count(), n == img.pixels@.len() / (c as nat), c > 0;
        assert(img.pixels@.len() == n * c) by (nonlinear_arith)
            requires img.pixels@.len() == c * img.count(), n == img.count();
    }
    let mut out: Vec<u8> = Vec::new();
    let mut i: usize = 0;
    let mut off: usize = 0;
    while i < n
        invariant
            c == channels(img.kind),
            n == img.count(),
            img.pixels@.len() == n * c,
            total == n * c,
            i <= n,
            off == i * c,
            out@.len() == i,
            forall|j: int| 0 <= j < i ==> #[trigger] out@[j] == alpha_channel(img.kind, img.pixels@, j),
        decreases n - i,
    {
        proof {
            lemma_step(i as nat, c as nat, n as nat);
        }
        let a = match img.kind {
            PixelKind::LumaA8 => img.pixels[off + 1],
            PixelKind::Rgba8 => img.pixels[off + 3],
            _ => 255,
        };
        out.push(a);
        i += 1;
        off += c;
    }
    assert(out@ =~= alpha_bytes(img.kind, img.pixels@, img.count()));
    out
}

/// What `encode_image` writes for an image, given the JPEG encoder's
/// output where it is consulted.
pub open spec fn encoding_of(img: RasterImage, data: Seq<u8>, filter: Filter, has_color: bool) -> bool {
    match (img.format, img.kind) {
        (ImageFormat::Jpeg, PixelKind::Luma8) => data == jpeg_of(true, img.width, img.height, img.pixels@)
            && filter == Filter::DctDecode && !has_color,
        (ImageFormat::Jpeg, PixelKind::Rgb8) => data == jpeg_of(false, img.width, img.height, img.pixels@)
            && filter == Filter::DctDecode && has_color,
        (ImageFormat::Png, PixelKind::Luma8) => data == zlib_of(img.pixels@, COMPRESSION_LEVEL)
            && filter == Filter::FlateDecode && !has_color,
        _ => data == zlib_of(rgb_triplets(img.kind, img.pixels@, img.count()), COMPRESSION_LEVEL)
            && filter == Filter::FlateDecode && has_color,
    }
}

/// Encodes an image with a filter that suits it: gray and RGB JPEGs stay
/// JPEG, a gray PNG is its compressed luma, and anything else its
/// compressed RGB triplets. Alpha is left out; see `encode_alpha`. Only
/// the JPEG encoder can fail, on a side longer than 65535 pixels.
pub fn encode_image(img: &RasterImage) -> (r: Result<Encoded, EncodeError>)
    requires
        img.wf(),
    ensures
        match r {
            Ok(e) => encoding_of(*img, e.data@, e.filter, e.has_color),
            Err(_) => img.format == ImageFormat::Jpeg && (img.kind == PixelKind::Luma8 || img.kind == PixelKind::Rgb8)
                && (img.width > 65535 || img.height > 65535),
        },
{
    match (img.format, img.kind) {
        (ImageFormat::Jpeg, PixelKind::Luma8) => match {
            assert(img.pixels@.len() == img.width * img.height) by (nonlinear_arith)
                requires
                    img.pixels@.len() == 1 * img.width * img.height,
            ;
            write_jpeg_gray(img.width, img.height, &img.pixels)
        } {
            Ok(data) => Ok(Encoded { data, filter: Filter::DctDecode, has_color: false }),
            Err(_) => Err(EncodeError),
        },
        (ImageFormat::Jpeg, PixelKind::Rgb8) => match write_jpeg_rgb(img.width, img.height, &img.pixels) {
            Ok(data) => Ok(Encoded { data, filter: Filter::DctDecode, has_color: true }),
            Err(_) => Err(EncodeError),
        },
        (ImageFormat::Png, PixelKind::Luma8) => {
            let data = deflate(img.pixels.as_slice());
            Ok(Encoded { data, filter: Filter::FlateDecode, has_color: false })
        },
        _ => {
            let pixels = pack_rgb(img);
            let data = deflate(pixels.as_slice());
            Ok(Encoded { data, filter: Filter::FlateDecode, has_color: true })
        },
    }
}

/// Encodes an image's alpha channel as a compressed gray stream.
pub fn encode_alpha(img: &RasterImage) -> (r: (Vec<u8>, Filter))
    requires
        img.wf(),
    ensures
        r.0@ == zlib_of(alpha_bytes(img.kind, img.pixels@, img.count()), COMPRESSION_LEVEL),
        r.1 == Filter::FlateDecode,
{
    let pixels = pack_alpha(img);
    (deflate(pixels.as_slice()), Filter::FlateDecode)
}

} // verus!
