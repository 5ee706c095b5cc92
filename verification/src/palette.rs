//! Palettes and their images: a palette of 256 RGB colours is exchanged as a
//! 256x1 PNG image, one pixel per colour.

use vstd::prelude::*;

verus! {

/// The colour type of a decoded PNG image.
#[derive(Clone, Copy, Debug, PartialEq, Eq, Structural)]
pub enum PngColor {
    Grayscale,
    Rgb,
    Indexed,
    GrayscaleAlpha,
    Rgba,
}

/// What the PNG decoder reads of the header of `bytes`: the width, height,
/// colour type and bit depth of the decoded image and the number of bytes of
/// its pixel rows, or `None` where the bytes start no PNG image it can read.
pub uninterp spec fn png_info_decoded(bytes: Seq<u8>) -> Option<(u32, u32, PngColor, u8, usize)>;

/// The first `len` bytes of the pixel rows that the PNG decoder decodes from
/// `bytes` into a buffer of `len` bytes, or `None` where it fails.
pub uninterp spec fn png_frame_decoded(bytes: Seq<u8>, len: usize) -> Option<Seq<u8>>;

/// The bytes of the PNG file in which the encoder stores `data` as the 8-bit
/// RGB pixels of a `width` x `height` image, or `None` where it refuses them.
pub uninterp spec fn png_encoded_rgb(width: u32, height: u32, data: Seq<u8>) -> Option<Seq<u8>>;

/// The number of bytes of one pixel of a palette image of colour type
/// `color`, or 0 where that colour type holds no RGB triple.
pub open spec fn pixel_stride(color: PngColor) -> int {
    match color {
        PngColor::Rgb => 3,
        PngColor::Rgba => 4,
        _ => 0,
    }
}

/// The palette held by a decoded image: only a 256x1 image of 8-bit RGB or
/// RGBA pixels, whose pixel bytes fill it exactly, holds one, and then the
/// palette is the red, green and blue byte of each pixel, in order.
pub open spec fn palette_spec(
    width: u32,
    height: u32,
    color: PngColor,
    depth: u8,
    pixels: Seq<u8>,
) -> Option<Seq<u8>> {
    let stride = pixel_stride(color);
    if width == 256 && height == 1 && depth == 8 && stride != 0 && pixels.len() == stride * 256 {
        Some(Seq::new(768, |i: int| pixels[(i / 3) * stride + i % 3]))
    } else {
        None
    }
}

/// Whether a PNG header announces a palette image: 256x1 pixels of 8-bit RGB
/// or RGBA whose rows fill `size` bytes.
pub open spec fn palette_shape(
    width: u32,
    height: u32,
    color: PngColor,
    depth: u8,
    size: usize,
) -> bool {
    &&& width == 256
    &&& height == 1
    &&& depth == 8
    &&& pixel_stride(color) != 0
    &&& size == pixel_stride(color) * 256
}

/// The palette held by the PNG file `bytes`, where it holds one: its header
/// must announce a palette image, and its pixels decode.
pub open spec fn palette_of_png(bytes: Seq<u8>) -> Option<Seq<u8>> {
    match png_info_decoded(bytes) {
        Some((width, height, color, depth, size)) => if palette_shape(
            width,
            height,
            color,
            depth,
            size,
        ) {
            match png_frame_decoded(bytes, size) {
                Some(pixels) => palette_spec(width, height, color, depth, pixels),
                None => None,
            }
        } else {
            None
        },
        None => None,
    }
}

/// The view of an optional byte vector.
pub open spec fn opt_bytes(r: Option<Vec<u8>>) -> Option<Seq<u8>> {
    match r {
        Some(v) => Some(v@),
        None => None,
    }
}

/// Reads the header of a PNG file with `png::Decoder::read_info`, with the
/// decoder's default transformations, and returns the `OutputInfo`: width,
/// height, colour type, bit depth and `buffer_size`. The contract claims only
/// that the result is `png_info_decoded` of the bytes.
#[verifier::external_body]
fn png_info(bytes: &[u8]) -> (r: Option<(u32, u32, PngColor, u8, usize)>)
    ensures
        r == png_info_decoded(bytes@),
{
    let (info, _) = png::Decoder::new(bytes).read_info().ok()?;
    let color = match info.color_type {
        png::ColorType::Grayscale => PngColor::Grayscale,
        png::ColorType::RGB => PngColor::Rgb,
        png::ColorType::Indexed => PngColor::Indexed,
        png::ColorType::GrayscaleAlpha => PngColor::GrayscaleAlpha,
        png::ColorType::RGBA => PngColor::Rgba,
    };
    Some((info.width, info.height, color, info.bit_depth as u8, info.buffer_size()))
}

/// Decodes the pixel rows of a PNG file with `png::Decoder::read_info` and
/// `Reader::next_frame` into a zeroed buffer of `len` bytes, which it returns;
/// a larger buffer than `isize::MAX` bytes cannot be allocated. The contract
/// claims that the result is `png_frame_decoded` of the
/// arguments and, as the body shows, holds `len` bytes.
#[verifier::external_body]
fn png_frame(bytes: &[u8], len: usize) -> (r: Option<Vec<u8>>)
    requires
        len <= isize::MAX,
    ensures
        opt_bytes(r) == png_frame_decoded(bytes@, len),
        r matches Some(v) ==> v@.len() == len,
{
    let (_, mut reader) = png::Decoder::new(bytes).read_info().ok()?;
    let mut data = vec![0u8; len];
    reader.next_frame(&mut data).ok()?;
    Some(data)
}

/// Encodes `data` as the 8-bit RGB pixels of a `width` x `height` image with
/// `png::Encoder`, `Writer::write_header` and `Writer::write_image_data`; the
/// writer adds the closing chunk when it is dropped. The contract claims that
/// the result is `png_encoded_rgb` of the arguments, and that the encoder
/// refuses a zero width or height (`write_header`) and data of another length
/// than three bytes per pixel (`write_image_data`).
#[verifier::external_body]
fn png_encode_rgb(width: u32, height: u32, data: &[u8]) -> (r: Option<Vec<u8>>)
    requires
        width * height * 24 <= usize::MAX,
    ensures
        opt_bytes(r) == png_encoded_rgb(width, height, data@),
        width == 0 || height == 0 || data@.len() != width * height * 3 ==> r is None,
{
    let mut out: Vec<u8> = Vec::new();
    {
        let mut encoder = png::Encoder::new(&mut out, width, height);
        encoder.set_color(png::ColorType::RGB);
        let mut writer = encoder.write_header().ok()?;
        writer.write_image_data(data).ok()?;
    }
    Some(out)
}

/// The palette held by a decoded image of `width` x `height` pixels of colour
/// type `color` and bit depth `depth`, whose pixel rows are `pixels`: `None`
/// unless it is a 256x1 image of 8-bit RGB or RGBA pixels that `pixels` fills
/// exactly, else the 768 bytes of the red, green and blue of each pixel.
pub fn palette_from_pixels(
    width: u32,
    height: u32,
    color: PngColor,
    depth: u8,
    pixels: &[u8],
) -> (r: Option<Vec<u8>>)
    ensures
        opt_bytes(r) == palette_spec(width, height, color, depth, pixels@),
{
    if width != 256 || height != 1 || depth != 8 {
        return None;
    }
    let stride: usize = match color {
        PngColor::Rgb => 3,
        PngColor::Rgba => 4,
        _ => return None,
    };
    if pixels.len() != stride * 256 {
        return None;
    }
    let ghost s = stride as int;
    let mut out: Vec<u8> = Vec::new();
    let mut k: usize = 0;
    while k < 256
        invariant
            k <= 256,
            s == pixel_stride(color),
            s == 3 || s == 4,
            stride == s,
            pixels@.len() == s * 256,
            out@.len() == 3 * k,
            forall|i: int| 0 <= i < 3 * k ==> #[trigger] out@[i] == pixels@[(i / 3) * s + i % 3],
        decreases 256 - k,
    {
        assert(k * stride + 2 < stride * 256) by (nonlinear_arith)
            requires
                k < 256,
                stride == 3 || stride == 4,
        ;
        let base = k * stride;
        out.push(pixels[base]);
        out.push(pixels[base + 1]);
        out.push(pixels[base + 2]);
        assert forall|i: int| 0 <= i < 3 * (k + 1) implies #[trigger] out@[i] == pixels@[(i / 3)
            * s + i % 3] by {
            if i >= 3 * k {
                assert(i / 3 == k as int && i % 3 == i - 3 * k) by (nonlinear_arith)
                    requires
                        3 * k <= i < 3 * k + 3,
                ;
            }
        }
        k = k + 1;
    }
    assert(out@ =~= Seq::new(768, |i: int| pixels@[(i / 3) * s + i % 3]));
    Some(out)
}

/// The palette held by the PNG file `png`: `None` where its header does not
/// read, does not announce a 256x1 image of 8-bit RGB or RGBA pixels, or its
/// pixels do not decode. The pixels are decoded only once the header has
/// been checked, into a buffer of the size a palette image needs.
pub fn png_to_palette(png: &[u8]) -> (r: Option<Vec<u8>>)
    ensures
        opt_bytes(r) == palette_of_png(png@),
{
    let (width, height, color, depth, size) = match png_info(png) {
        Some(info) => info,
        None => return None,
    };
    let stride: usize = match color {
        PngColor::Rgb => 3,
        PngColor::Rgba => 4,
        _ => return None,
    };
    if width != 256 || height != 1 || depth != 8 || size != stride * 256 {
        return None;
    }
    match png_frame(png, size) {
        Some(pixels) => palette_from_pixels(width, height, color, depth, &pixels),
        None => None,
    }
}

/// The PNG file of the palette `palette`, stored as a 256x1 image of 8-bit
/// RGB pixels: `None` where the encoder refuses it, as it does any palette of
/// other than 768 bytes.
pub fn palette_to_png(palette: &[u8]) -> (r: Option<Vec<u8>>)
    ensures
        opt_bytes(r) == png_encoded_rgb(256, 1, palette@),
        palette@.len() != 768 ==> r is None,
{
    png_encode_rgb(256, 1, palette)
}

/// The palette of an RGB palette image is its pixel bytes themselves; that of
/// an RGBA palette image is the red, green and blue bytes of its pixels, the
/// alpha byte of each pixel left out.
pub proof fn lemma_palette_pixels(color: PngColor, pixels: Seq<u8>)
    requires
        pixels.len() == pixel_stride(color) * 256,
        color == PngColor::Rgb || color == PngColor::Rgba,
    ensures
        color == PngColor::Rgb ==> palette_spec(256, 1, color, 8, pixels) == Some(pixels),
        color == PngColor::Rgba ==> (palette_spec(256, 1, color, 8, pixels) matches Some(pal)
            && pal.len() == 768 && forall|i: int|
            0 <= i < 768 ==> #[trigger] pal[i] == pixels[4 * (i / 3) + i % 3]),
{
    let pal = palette_spec(256, 1, color, 8, pixels).unwrap();
    if color == PngColor::Rgb {
        assert forall|i: int| 0 <= i < 768 implies pal[i] == pixels[i] by {
            assert((i / 3) * 3 + i % 3 == i);
        }
        assert(pal =~= pixels);
    } else {
        assert forall|i: int| 0 <= i < 768 implies #[trigger] pal[i] == pixels[4 * (i / 3) + i
            % 3] by {}
    }
}

} // verus!
