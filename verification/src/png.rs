//! RGBA colours, PNG writer options and PNG encoding of RGBA8 pixel buffers.
use vstd::prelude::*;
use image::codecs::png::{CompressionType, FilterType, PngEncoder};
use image::ImageEncoder;

verus! {

/// An 8-bit RGBA colour.
#[derive(Debug, Clone, Copy, PartialEq, Eq, Structural)]
pub struct Color {
    pub r: u8,
    pub g: u8,
    pub b: u8,
    pub a: u8,
}

impl Color {
    pub fn rgba(r: u8, g: u8, b: u8, a: u8) -> (c: Self)
        ensures
            c == (Color { r, g, b, a }),
    {
        Self { r, g, b, a }
    }

    /// Fully transparent black, the colour of a pixel with no data.
    pub fn transparent() -> (c: Self)
        ensures
            c == (Color { r: 0, g: 0, b: 0, a: 0 }),
    {
        Self::rgba(0, 0, 0, 0)
    }

    /// Opaque white.
    pub fn white() -> (c: Self)
        ensures
            c == (Color { r: 255, g: 255, b: 255, a: 255 }),
    {
        Self::rgba(255, 255, 255, 255)
    }

    /// Opaque black.
    pub fn black() -> (c: Self)
        ensures
            c == (Color { r: 0, g: 0, b: 0, a: 255 }),
    {
        Self::rgba(0, 0, 0, 255)
    }
}

/// How hard the PNG writer compresses.
#[derive(Debug, Clone, Copy, PartialEq, Eq, Structural)]
pub enum PngCompressionMode {
    Default,
    Fast,
    Fastest,
}

impl Default for PngCompressionMode {
    fn default() -> (m: Self)
        ensures
            m == PngCompressionMode::Default,
    {
        PngCompressionMode::Default
    }
}

/// Options of the PNG writer.
#[derive(Debug, Clone, Copy, PartialEq, Eq, Structural)]
pub struct PngWriteOptions {
    pub compression: PngCompressionMode,
}

impl Default for PngWriteOptions {
    fn default() -> (o: Self)
        ensures
            o == (PngWriteOptions { compression: PngCompressionMode::Default }),
    {
        Self { compression: PngCompressionMode::Default }
    }
}

/// Milliseconds spent encoding and writing one PNG.
#[derive(Debug, Clone, Copy, PartialEq, Eq, Structural)]
pub struct PngWriteTiming {
    pub png_encode_ms: u128,
    pub png_write_ms: u128,
    pub total_ms: u128,
}

/// The DEFLATE level handed to the PNG encoder.
#[derive(Debug, Clone, Copy, PartialEq, Eq, Structural)]
pub enum PngDeflateLevel {
    Default,
    Fast,
}

/// The scanline filter handed to the PNG encoder.
#[derive(Debug, Clone, Copy, PartialEq, Eq, Structural)]
pub enum PngScanlineFilter {
    Up,
    NoFilter,
}

/// Which DEFLATE level and scanline filter each compression mode selects.
pub open spec fn spec_encoder_settings(mode: PngCompressionMode) -> (
    PngDeflateLevel,
    PngScanlineFilter,
) {
    match mode {
        PngCompressionMode::Default => (PngDeflateLevel::Default, PngScanlineFilter::Up),
        PngCompressionMode::Fast => (PngDeflateLevel::Fast, PngScanlineFilter::Up),
        PngCompressionMode::Fastest => (PngDeflateLevel::Fast, PngScanlineFilter::NoFilter),
    }
}

/// The DEFLATE level and scanline filter that `mode` selects.
pub fn encoder_settings(mode: PngCompressionMode) -> (s: (PngDeflateLevel, PngScanlineFilter))
    ensures
        s == spec_encoder_settings(mode),
{
    match mode {
        PngCompressionMode::Default => (PngDeflateLevel::Default, PngScanlineFilter::Up),
        PngCompressionMode::Fast => (PngDeflateLevel::Fast, PngScanlineFilter::Up),
        PngCompressionMode::Fastest => (PngDeflateLevel::Fast, PngScanlineFilter::NoFilter),
    }
}

/// A row-major RGBA8 pixel buffer: four bytes per pixel, `width * height` pixels.
pub struct RgbaPixels {
    width: u32,
    height: u32,
    data: Vec<u8>,
}

impl RgbaPixels {
    #[verifier::type_invariant]
    spec fn well_formed(self) -> bool {
        self.data.len() == self.width * self.height * 4
    }

    pub closed spec fn spec_width(self) -> u32 {
        self.width
    }

    pub closed spec fn spec_height(self) -> u32 {
        self.height
    }

    pub closed spec fn spec_data(self) -> Seq<u8> {
        self.data@
    }

    /// The buffer `data` as an image of `width` by `height` pixels, or `None`
    /// where its length is not `width * height * 4`.
    pub fn new(width: u32, height: u32, data: Vec<u8>) -> (res: Option<Self>)
        ensures
            res is Some <==> data.len() == width * height * 4,
            res matches Some(img) ==> img.spec_width() == width && img.spec_height() == height
                && img.spec_data() == data@,
    {
        let w = width as u64;
        let h = height as u64;
        assert(w * h <= 0xffff_ffff * 0xffff_ffffu64) by (nonlinear_arith)
            requires
                w <= 0xffff_ffff,
                h <= 0xffff_ffff,
        ;
        let pixels: u64 = w * h;
        if pixels > (usize::MAX / 4) as u64 {
            assert(data.len() != width * height * 4);
            return None;
        }
        if data.len() != (pixels as usize) * 4 {
            return None;
        }
        Some(RgbaPixels { width, height, data })
    }

    pub fn width(&self) -> (w: u32)
        ensures
            w == self.spec_width(),
    {
        self.width
    }

    pub fn height(&self) -> (h: u32)
        ensures
            h == self.spec_height(),
    {
        self.height
    }

    pub fn data(&self) -> (d: &Vec<u8>)
        ensures
            d@ == self.spec_data(),
            d.len() == self.spec_width() * self.spec_height() * 4,
    {
        proof {
            use_type_invariant(self);
        }
        &self.data
    }
}

#[verifier::external_type_specification]
#[verifier::external_body]
pub struct ExImageError(image::ImageError);

/// The PNG file that `image::codecs::png::PngEncoder` writes for an RGBA8 buffer of the
/// given size at the given DEFLATE level and filter, or `None` where it reports an error.
pub uninterp spec fn png_rgba8_encoding(
    data: Seq<u8>,
    width: u32,
    height: u32,
    level: PngDeflateLevel,
    filter: PngScanlineFilter,
) -> Option<Seq<u8>>;

/// Calls `image::codecs::png::PngEncoder::new_with_quality` on an in-memory buffer and then
/// `ImageEncoder::write_image` with `ExtendedColorType::Rgba8`. The claim: the bytes written,
/// or the failure, are a function of the pixels, the size, the level and the filter alone.
/// `write_image` panics unless the buffer holds exactly `width * height * 4` bytes, which
/// `requires` demands.
#[verifier::external_body]
fn png_encode_rgba8(
    data: &[u8],
    width: u32,
    height: u32,
    level: PngDeflateLevel,
    filter: PngScanlineFilter,
) -> (res: Result<Vec<u8>, image::ImageError>)
    requires
        data@.len() == width * height * 4,
    ensures
        res is Ok <==> png_rgba8_encoding(data@, width, height, level, filter) is Some,
        res matches Ok(bytes) ==> bytes@ == png_rgba8_encoding(data@, width, height, level, filter)->0,
{
    let compression = match level {
        PngDeflateLevel::Default => CompressionType::Default,
        PngDeflateLevel::Fast => CompressionType::Fast,
    };
    let filter = match filter {
        PngScanlineFilter::Up => FilterType::Up,
        PngScanlineFilter::NoFilter => FilterType::NoFilter,
    };
    let mut bytes = Vec::new();
    PngEncoder::new_with_quality(&mut bytes, compression, filter)
        .write_image(data, width, height, image::ExtendedColorType::Rgba8)
        .map(|_| bytes)
}

/// Why a PNG could not be produced.
pub enum PngEncodeError {
    Encoding(image::ImageError),
}

/// Encodes `image` as a PNG file with the level and filter that `options` selects.
pub fn encode_rgba_png(image: &RgbaPixels, options: &PngWriteOptions) -> (res: Result<
    Vec<u8>,
    PngEncodeError,
>)
    ensures
        ({
            let (level, filter) = spec_encoder_settings(options.compression);
            let expected = png_rgba8_encoding(
                image.spec_data(),
                image.spec_width(),
                image.spec_height(),
                level,
                filter,
            );
            &&& res is Ok <==> expected is Some
            &&& res matches Ok(bytes) ==> bytes@ == expected->0
        }),
{
    let (level, filter) = encoder_settings(options.compression);
    let data = image.data();
    match png_encode_rgba8(data.as_slice(), image.width(), image.height(), level, filter) {
        Ok(bytes) => Ok(bytes),
        Err(err) => Err(PngEncodeError::Encoding(err)),
    }
}

} // verus!
