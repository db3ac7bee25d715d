//! Pictures, and the files they are written as.
use crate::json::{Json, Tree};
use crate::text::same;
use vstd::prelude::*;

verus! {

/// A picture of three bytes for each pixel: red, green and blue, row by row from
/// the top.
#[derive(Debug, PartialEq)]
pub struct Picture {
    pub width: u32,
    pub height: u32,
    pub rgb: Vec<u8>,
}

impl Picture {
    /// Whether there are as many bytes as the size asks for.
    pub open spec fn wf(self) -> bool {
        self.rgb@.len() == 3 * (self.width * self.height)
    }
}

/// The PNG file of a picture, or the message that there is none.
pub uninterp spec fn png_file(width: u32, height: u32, rgb: Seq<u8>) -> Result<Seq<u8>, Seq<char>>;

/// The JPEG file of a picture, or the message that there is none.
pub uninterp spec fn jpeg_file(
    width: u32,
    height: u32,
    rgb: Seq<u8>,
    quality: u8,
) -> Result<Seq<u8>, Seq<char>>;

/// The picture that a PNG file holds, as `image::DynamicImage::from_decoder` reads it
/// with `image::codecs::png::PngDecoder::new`: its width, its height, and its red,
/// green and blue bytes.
pub uninterp spec fn png_picture(file: Seq<u8>) -> Option<(u32, u32, Seq<u8>)>;

/// The width and the height of the picture that a JPEG file holds, as the `dimensions` of
/// `image::codecs::jpeg::JpegDecoder::new` give them.
pub uninterp spec fn jpeg_size(file: Seq<u8>) -> Option<(u32, u32)>;

/// Whether a picture of `nwidth` by `nheight` pixels with the bytes `new` can come of
/// resizing the picture of `width` by `height` pixels with the bytes `rgb`. On two
/// machines it may be another one.
pub uninterp spec fn resampled(
    width: u32,
    height: u32,
    rgb: Seq<u8>,
    nwidth: u32,
    nheight: u32,
    new: Seq<u8>,
) -> bool;

/// `image::DynamicImage::write_to` in the format PNG, on an image made by
/// `image::RgbImage::from_raw`. The file is a function of the picture. There is
/// one for every picture that has pixels, and none for a picture without. PNG loses
/// nothing: reading the file gives the picture back.
#[verifier::external_body]
fn encode_png(p: &Picture) -> (r: Result<Vec<u8>, String>)
    requires
        p.wf(),
    ensures
        match r {
            Ok(bytes) => png_file(p.width, p.height, p.rgb@) == Ok::<Seq<u8>, Seq<char>>(bytes@),
            Err(e) => png_file(p.width, p.height, p.rgb@) == Err::<Seq<u8>, Seq<char>>(e@),
        },
        r is Ok <==> (p.width > 0 && p.height > 0),
        r matches Ok(bytes) ==> png_picture(bytes@) == Some((p.width, p.height, p.rgb@)),
{
    let mut buf = Vec::new();
    let img = image::RgbImage::from_raw(p.width, p.height, p.rgb.clone()).unwrap();
    let done = image::DynamicImage::from(img).write_to(
        &mut std::io::Cursor::new(&mut buf),
        image::ImageFormat::Png,
    );
    match done {
        Ok(()) => Ok(buf),
        Err(e) => Err(e.to_string()),
    }
}

/// `image::DynamicImage::write_with_encoder` with the encoder that
/// `image::codecs::jpeg::JpegEncoder::new_with_quality` gives, on an image made by
/// `image::RgbImage::from_raw`. The file is a function of the picture and the
/// quality. There is one for every picture whose sides are between 1 and 65535,
/// and none for any other. Its frame header has the size of the picture.
#[verifier::external_body]
fn encode_jpeg(p: &Picture, quality: u8) -> (r: Result<Vec<u8>, String>)
    requires
        p.wf(),
    ensures
        match r {
            Ok(bytes) => jpeg_file(p.width, p.height, p.rgb@, quality) == Ok::<Seq<u8>, Seq<char>>(
                bytes@,
            ),
            Err(e) => jpeg_file(p.width, p.height, p.rgb@, quality) == Err::<Seq<u8>, Seq<char>>(
                e@,
            ),
        },
        r is Ok <==> (1 <= p.width <= 65535 && 1 <= p.height <= 65535),
        r matches Ok(bytes) ==> jpeg_size(bytes@) == Some((p.width, p.height)),
{
    let mut buf = Vec::new();
    let img = image::RgbImage::from_raw(p.width, p.height, p.rgb.clone()).unwrap();
    let encoder = image::codecs::jpeg::JpegEncoder::new_with_quality(&mut buf, quality);
    let done = image::DynamicImage::from(img).write_with_encoder(encoder);
    match done {
        Ok(()) => Ok(buf),
        Err(e) => Err(e.to_string()),
    }
}

/// The longest side that can be resized to any other.
pub const SHORT_SIDE: u32 = 0x10_0000;

/// The longest side that can be resized at all.
pub const LONG_SIDE: u32 = 0x20_0000;

/// The longest side up to which the middle of every pixel is exact in single precision.
pub const EXACT_SIDE: u32 = 0x80_0000;

/// Whether a side can be resized. The place of a new pixel among the old ones is computed
/// in single precision. Within these limits it is off by less than two fifths of a pixel,
/// so that the weights of the old pixels round it have a positive sum.
pub open spec fn side_resizable(side: u32, nside: u32) -> bool {
    side <= SHORT_SIDE || (side <= LONG_SIDE && nside <= EXACT_SIDE)
}

/// Whether a side can be resized.
fn can_resize_side(side: u32, nside: u32) -> (r: bool)
    ensures
        r == side_resizable(side, nside),
{
    side <= SHORT_SIDE || (side <= LONG_SIDE && nside <= EXACT_SIDE)
}

/// Whether a picture can be resized. The sides of one that has pixels must not be too
/// long. The rows of the new height at the old width take sixteen bytes for each pixel,
/// the result three.
pub open spec fn resizable(width: u32, height: u32, nwidth: u32, nheight: u32) -> bool {
    ||| nwidth == width && nheight == height
    ||| {
        &&& width == 0 || height == 0 || (side_resizable(width, nwidth) && side_resizable(
            height,
            nheight,
        ))
        &&& 16 * (width * nheight) <= isize::MAX
        &&& 3 * (nwidth * nheight) <= isize::MAX
    }
}

/// Whether a picture can be resized.
pub fn can_resize(width: u32, height: u32, nwidth: u32, nheight: u32) -> (r: bool)
    ensures
        r == resizable(width, height, nwidth, nheight),
{
    assert(0 <= width * nheight <= 0xffff_ffff * 0xffff_ffff) by (nonlinear_arith)
        requires
            0 <= width <= 0xffff_ffff,
            0 <= nheight <= 0xffff_ffff,
    ;
    assert(0 <= nwidth * nheight <= 0xffff_ffff * 0xffff_ffff) by (nonlinear_arith)
        requires
            0 <= nwidth <= 0xffff_ffff,
            0 <= nheight <= 0xffff_ffff,
    ;
    let limit: u128 = isize::MAX as u128;
    let rows: u128 = (width as u64 * nheight as u64) as u128;
    let result: u128 = (nwidth as u64 * nheight as u64) as u128;
    let short: bool = can_resize_side(width, nwidth) && can_resize_side(height, nheight);
    (nwidth == width && nheight == height) || ((width == 0 || height == 0 || short) && 16 * rows
        <= limit && 3 * result <= limit)
}

/// `image::DynamicImage::resize_exact` with the filter `Lanczos3`, on an image made by
/// `image::RgbImage::from_raw`. The result has the size asked for, and its pixels are an
/// outcome of resampling the old ones. A picture that already has the size asked for
/// comes back as it is. Which outcome it is, is left open: the weights of the filter
/// come from a sine whose precision differs between machines.
#[verifier::external_body]
pub(crate) fn resize_picture(p: &Picture, nwidth: u32, nheight: u32) -> (r: Picture)
    requires
        p.wf(),
        resizable(p.width, p.height, nwidth, nheight),
    ensures
        r.wf(),
        r.width == nwidth,
        r.height == nheight,
        resampled(p.width, p.height, p.rgb@, nwidth, nheight, r.rgb@),
        (nwidth == p.width && nheight == p.height) ==> r.rgb@ == p.rgb@,
{
    let img = image::RgbImage::from_raw(p.width, p.height, p.rgb.clone()).unwrap();
    let filter = image::imageops::FilterType::Lanczos3;
    let out = image::DynamicImage::from(img).resize_exact(nwidth, nheight, filter).into_rgb8();
    Picture { width: out.width(), height: out.height(), rgb: out.into_raw() }
}

/// Whether `format` names the JPEG format.
pub open spec fn names_jpeg(format: Seq<char>) -> bool {
    format == "jpeg"@ || format == "jpg"@
}

/// The JPEG quality that the arguments ask for. The encoder takes what is beyond 100 for
/// 100, so a number that is too great for it stays beyond.
pub open spec fn quality_spec(args: Tree) -> u8 {
    match args.u64_at("quality"@) {
        Some(q) => if q < 255 {
            q as u8
        } else {
            255
        },
        None => 80,
    }
}

/// The width and the height of the picture that a file of the format holds.
pub open spec fn file_size(format: Seq<char>, file: Seq<u8>) -> Option<(u32, u32)> {
    if names_jpeg(format) {
        jpeg_size(file)
    } else {
        match png_picture(file) {
            Some((w, h, _)) => Some((w, h)),
            None => None,
        }
    }
}

/// The file of a picture and its kind: JPEG where `format` names it, else PNG.
pub open spec fn encode_image_spec(
    width: u32,
    height: u32,
    rgb: Seq<u8>,
    format: Seq<char>,
    args: Tree,
) -> Result<(Seq<u8>, Seq<char>), Seq<char>> {
    if names_jpeg(format) {
        match jpeg_file(width, height, rgb, quality_spec(args)) {
            Ok(bytes) => Ok((bytes, "image/jpeg"@)),
            Err(e) => Err(e),
        }
    } else {
        match png_file(width, height, rgb) {
            Ok(bytes) => Ok((bytes, "image/png"@)),
            Err(e) => Err(e),
        }
    }
}

/// Whether a picture of this size can be written in this format.
pub open spec fn encodable(width: u32, height: u32, format: Seq<char>) -> bool {
    width >= 1 && height >= 1 && (names_jpeg(format) ==> width <= 65535 && height <= 65535)
}

/// The file of a picture and its kind: JPEG where `format` names it, else PNG.
pub fn encode_image(p: &Picture, format: &str, args: &Json) -> (r: Result<
    (Vec<u8>, &'static str),
    String,
>)
    requires
        p.wf(),
    ensures
        match r {
            Ok((bytes, mime)) => encode_image_spec(p.width, p.height, p.rgb@, format@, args@) == Ok::<
                (Seq<u8>, Seq<char>),
                Seq<char>,
            >((bytes@, mime@)),
            Err(e) => encode_image_spec(p.width, p.height, p.rgb@, format@, args@) == Err::<
                (Seq<u8>, Seq<char>),
                Seq<char>,
            >(e@),
        },
        r is Ok <==> encodable(p.width, p.height, format@),
        r matches Ok((bytes, _)) ==> file_size(format@, bytes@) == Some((p.width, p.height)),
        !names_jpeg(format@) ==> (r matches Ok((bytes, _)) ==> png_picture(bytes@) == Some(
            (p.width, p.height, p.rgb@),
        )),
{
    if same(format, "jpeg") || same(format, "jpg") {
        let quality: u8 = match args.u64_at("quality") {
            Some(q) => if q < 255 {
                q as u8
            } else {
                255
            },
            None => 80,
        };
        match encode_jpeg(p, quality) {
            Ok(bytes) => Ok((bytes, "image/jpeg")),
            Err(e) => Err(e),
        }
    } else {
        match encode_png(p) {
            Ok(bytes) => Ok((bytes, "image/png")),
            Err(e) => Err(e),
        }
    }
}

} // verus!
