//! From the data of a transfer to pixels.

use vstd::prelude::*;

use base64::engine::general_purpose::STANDARD;
use base64::Engine;
use image::{ImageFormat, RgbaImage};

use crate::bytes::{
    DIGIT_4, DIGIT_6, UPPER_A, UPPER_B, UPPER_D, UPPER_E, UPPER_F, UPPER_G, UPPER_I, UPPER_M,
    UPPER_N, UPPER_P, UPPER_S, UPPER_T,
};
use crate::params::KittyParams;

verus! {

/// The `f` of raw RGB data.
pub const FORMAT_RGB: u32 = 24;

/// The `f` of raw RGBA data.
pub const FORMAT_RGBA: u32 = 32;

/// The `f` of a PNG file.
pub const FORMAT_PNG: u32 = 100;

/// A decoded image, ready for the renderer: four bytes for each pixel, row by row.
#[derive(Debug)]
pub struct RenderImage {
    pub width: u32,
    pub height: u32,
    /// Red, green, blue and alpha of each pixel; bytes after the last pixel are not shown.
    pub pixels: Vec<u8>,
}

/// What a decoded image shows.
#[verifier::ext_equal]
pub struct Raster {
    pub width: u32,
    pub height: u32,
    pub pixels: Seq<u8>,
}

impl View for RenderImage {
    type V = Raster;

    open spec fn view(&self) -> Raster {
        Raster { width: self.width, height: self.height, pixels: self.pixels@ }
    }
}

impl Raster {
    /// The image has an area, and bytes for all of its pixels.
    pub open spec fn well_formed(self) -> bool {
        &&& self.width > 0
        &&& self.height > 0
        &&& self.pixels.len() >= 4 * self.width * self.height
    }
}

/// Why a transfer gives no image.
#[derive(Debug, Clone, Copy, PartialEq, Eq, Structural)]
pub enum TransferError {
    /// The data is no base64.
    Base64,
    /// The data is no PNG file that can be decoded.
    Png,
    /// A raw image has no width or no height.
    Dimensions,
    /// There are too few bytes for the size.
    Data,
    /// The format is unknown.
    Format,
}

impl TransferError {
    /// The word that tells the client: `EBASD64`, `EPNG`, `EDIM`, `EDATA` or `EFMT`.
    pub open spec fn text(self) -> Seq<u8> {
        match self {
            TransferError::Base64 => seq![
                UPPER_E,
                UPPER_B,
                UPPER_A,
                UPPER_S,
                UPPER_D,
                DIGIT_6,
                DIGIT_4,
            ],
            TransferError::Png => seq![UPPER_E, UPPER_P, UPPER_N, UPPER_G],
            TransferError::Dimensions => seq![UPPER_E, UPPER_D, UPPER_I, UPPER_M],
            TransferError::Data => seq![UPPER_E, UPPER_D, UPPER_A, UPPER_T, UPPER_A],
            TransferError::Format => seq![UPPER_E, UPPER_F, UPPER_M, UPPER_T],
        }
    }

    /// The word that tells the client.
    pub fn code(&self) -> (r: Vec<u8>)
        ensures
            r@ == self.text(),
    {
        let r: Vec<u8> = match self {
            TransferError::Base64 => vec![
                UPPER_E, UPPER_B, UPPER_A, UPPER_S, UPPER_D, DIGIT_6, DIGIT_4,
            ],
            TransferError::Png => vec![UPPER_E, UPPER_P, UPPER_N, UPPER_G],
            TransferError::Dimensions => vec![UPPER_E, UPPER_D, UPPER_I, UPPER_M],
            TransferError::Data => vec![UPPER_E, UPPER_D, UPPER_A, UPPER_T, UPPER_A],
            TransferError::Format => vec![UPPER_E, UPPER_F, UPPER_M, UPPER_T],
        };
        assert(r@ =~= self.text());
        r
    }
}

/// `base64::DecodeError`, of which nothing is known but that it was given.
#[verifier::external_type_specification]
#[verifier::external_body]
pub struct ExDecodeError(base64::DecodeError);

/// `image::ImageError`, of which nothing is known but that it was given.
#[verifier::external_type_specification]
#[verifier::external_body]
pub struct ExImageError(image::ImageError);

/// What the standard base64 engine decodes `data` to; `None` where it refuses it.
pub uninterp spec fn base64_decoded(data: Seq<u8>) -> Option<Seq<u8>>;

/// `base64::Engine::decode` on the engine `STANDARD`. Its result depends on
/// the data alone.
#[verifier::external_body]
fn decode_base64(data: &[u8]) -> (r: Result<Vec<u8>, base64::DecodeError>)
    ensures
        match r {
            Ok(raw) => base64_decoded(data@) == Some(raw@),
            Err(_) => base64_decoded(data@) is None,
        },
{
    STANDARD.decode(data)
}

/// The image in a PNG file, with eight bits for each of red, green, blue and
/// alpha; `None` where the file cannot be decoded.
pub uninterp spec fn png_decoded(file: Seq<u8>) -> Option<Raster>;

/// `image::load_from_memory_with_format` on a PNG file, and
/// `DynamicImage::into_rgba8` on the image that it gives. The result depends on
/// the file alone. An image has at least one pixel, and four bytes for each.
#[verifier::external_body]
fn decode_png(file: &[u8]) -> (r: Result<(u32, u32, Vec<u8>), image::ImageError>)
    ensures
        match r {
            Ok((width, height, pixels)) => {
                &&& png_decoded(file@) == Some(Raster { width, height, pixels: pixels@ })
                &&& width > 0
                &&& height > 0
                &&& pixels@.len() == 4 * width * height
            },
            Err(_) => png_decoded(file@) is None,
        },
{
    let rgba: RgbaImage = image::load_from_memory_with_format(file, ImageFormat::Png)?.into_rgba8();
    Ok((rgba.width(), rgba.height(), rgba.into_raw()))
}

/// `image::RgbaImage::from_raw`. It takes a buffer that has four bytes for each
/// pixel, or more, and keeps it as it is; it refuses a shorter one.
#[verifier::external_body]
fn rgba_from_raw(width: u32, height: u32, pixels: Vec<u8>) -> (r: Option<(u32, u32, Vec<u8>)>)
    ensures
        r is Some <==> pixels@.len() >= 4 * width * height,
        r matches Some((w, h, kept)) ==> w == width && h == height && kept@ == pixels@,
{
    let rgba: RgbaImage = RgbaImage::from_raw(width, height, pixels)?;
    Some((rgba.width(), rgba.height(), rgba.into_raw()))
}

/// What a transfer gives: an image or a reason.
pub open spec fn outcome_view(r: Result<RenderImage, TransferError>) -> Result<
    Raster,
    TransferError,
> {
    match r {
        Ok(image) => Ok(image@),
        Err(e) => Err(e),
    }
}

/// Raw RGBA data of a stated size.
pub open spec fn raw_rgba(width: u32, height: u32, raw: Seq<u8>) -> Result<Raster, TransferError> {
    if width == 0 || height == 0 {
        Err(TransferError::Dimensions)
    } else if raw.len() >= 4 * width * height {
        Ok(Raster { width, height, pixels: raw })
    } else {
        Err(TransferError::Data)
    }
}

/// RGB data made opaque: a full alpha byte after each whole pixel. Bytes that
/// make up no whole pixel are left out.
pub open spec fn with_alpha(raw: Seq<u8>) -> Seq<u8> {
    Seq::new(
        4 * (raw.len() / 3),
        |i: int|
            if i % 4 == 3 {
                0xff
            } else {
                raw[3 * (i / 4) + i % 4]
            },
    )
}

/// What the decoded PNG gives.
pub open spec fn png_result(png: Option<Raster>) -> Result<Raster, TransferError> {
    match png {
        Some(image) => Ok(image),
        None => Err(TransferError::Png),
    }
}

/// What the decoded data of a transfer gives; `png` is what it gives as a PNG file.
pub open spec fn raw_result(params: KittyParams, raw: Seq<u8>, png: Option<Raster>) -> Result<
    Raster,
    TransferError,
> {
    if params.format == FORMAT_PNG {
        png_result(png)
    } else if params.format == FORMAT_RGBA {
        raw_rgba(params.width, params.height, raw)
    } else if params.format == FORMAT_RGB {
        raw_rgba(params.width, params.height, with_alpha(raw))
    } else {
        Err(TransferError::Format)
    }
}

/// What the data of a transfer gives.
pub open spec fn transfer_result(params: KittyParams, data: Seq<u8>) -> Result<
    Raster,
    TransferError,
> {
    match base64_decoded(data) {
        Some(raw) => raw_result(params, raw, png_decoded(raw)),
        None => Err(TransferError::Base64),
    }
}

/// Makes RGB data opaque.
pub fn rgb_to_rgba(raw: &[u8]) -> (r: Vec<u8>)
    ensures
        r@ == with_alpha(raw@),
{
    let mut out: Vec<u8> = Vec::new();
    let mut i: usize = 0;
    while raw.len() - i >= 3
        invariant
            0 <= i <= raw@.len(),
            i % 3 == 0,
            out@ == with_alpha(raw@).take(4 * (i as int / 3)),
            4 * (i as int / 3) <= with_alpha(raw@).len(),
        decreases raw@.len() - i,
    {
        let ghost k = i as int / 3;
        out.push(raw[i]);
        out.push(raw[i + 1]);
        out.push(raw[i + 2]);
        out.push(0xff);
        i = i + 3;
        assert(out@ =~= with_alpha(raw@).take(4 * (k + 1)));
    }
    assert(out@ =~= with_alpha(raw@));
    out
}

/// Takes raw RGBA data of a stated size for an image.
pub fn image_from_rgba(width: u32, height: u32, raw: Vec<u8>) -> (r: Result<
    RenderImage,
    TransferError,
>)
    ensures
        outcome_view(r) == raw_rgba(width, height, raw@),
        r matches Ok(image) ==> image@.well_formed(),
{
    if width == 0 || height == 0 {
        return Err(TransferError::Dimensions);
    }
    match rgba_from_raw(width, height, raw) {
        Some((width, height, pixels)) => Ok(RenderImage { width, height, pixels }),
        None => Err(TransferError::Data),
    }
}

/// Takes a decoded PNG for an image.
pub fn image_from_png(png: Option<RenderImage>) -> (r: Result<RenderImage, TransferError>)
    ensures
        outcome_view(r) == png_result(
            match png {
                Some(image) => Some(image@),
                None => None,
            },
        ),
        r matches Ok(image) ==> png == Some(image),
{
    match png {
        Some(image) => Ok(image),
        None => Err(TransferError::Png),
    }
}

/// Turns decoded data into an image, as its format says.
pub fn image_from_raw(params: &KittyParams, raw: Vec<u8>) -> (r: Result<RenderImage, TransferError>)
    ensures
        outcome_view(r) == raw_result(*params, raw@, png_decoded(raw@)),
        r matches Ok(image) ==> image@.well_formed(),
{
    if params.format == FORMAT_PNG {
        let png: Option<RenderImage> = match decode_png(raw.as_slice()) {
            Ok((width, height, pixels)) => Some(RenderImage { width, height, pixels }),
            Err(_) => None,
        };
        image_from_png(png)
    } else if params.format == FORMAT_RGBA {
        image_from_rgba(params.width, params.height, raw)
    } else if params.format == FORMAT_RGB {
        image_from_rgba(params.width, params.height, rgb_to_rgba(raw.as_slice()))
    } else {
        Err(TransferError::Format)
    }
}

/// Turns the base64 data of a transfer into an image.
pub fn image_from_transfer(params: &KittyParams, data: &[u8]) -> (r: Result<
    RenderImage,
    TransferError,
>)
    ensures
        outcome_view(r) == transfer_result(*params, data@),
        r matches Ok(image) ==> image@.well_formed(),
{
    match decode_base64(data) {
        Ok(raw) => image_from_raw(params, raw),
        Err(_) => Err(TransferError::Base64),
    }
}

/// Raw RGB data of a size other than zero makes an image exactly where it has
/// three bytes for each pixel; each pixel keeps its colours and is opaque.
pub proof fn law_rgb_pixels(width: u32, height: u32, raw: Seq<u8>)
    requires
        width > 0,
        height > 0,
    ensures
        raw_rgba(width, height, with_alpha(raw)) is Ok <==> raw.len() >= 3 * width * height,
        forall|k: int|
            0 <= k < raw.len() / 3 ==> {
                &&& (#[trigger] with_alpha(raw)[4 * k]) == raw[3 * k]
                &&& with_alpha(raw)[4 * k + 1] == raw[3 * k + 1]
                &&& with_alpha(raw)[4 * k + 2] == raw[3 * k + 2]
                &&& with_alpha(raw)[4 * k + 3] == 0xff
            },
{
    let area = width * height;
    assert(4 * width * height == 4 * area) by (nonlinear_arith)
        requires
            area == width * height,
    ;
    assert(3 * width * height == 3 * area) by (nonlinear_arith)
        requires
            area == width * height,
    ;
}

/// The size that raw data is said to have decides over it: without an area it is
/// refused as such, with fewer than four bytes for a pixel it is refused as too
/// short, and otherwise it is taken, byte for byte, for an image of that size.
pub proof fn law_raw_rgba_size(width: u32, height: u32, raw: Seq<u8>)
    ensures
        ({
            let result = raw_rgba(width, height, raw);
            let area = width * height;
            &&& area == 0 <==> result == Err::<Raster, TransferError>(TransferError::Dimensions)
            &&& 0 < area && raw.len() < 4 * area <==> result == Err::<Raster, TransferError>(
                TransferError::Data,
            )
            &&& 0 < area && raw.len() >= 4 * area <==> result is Ok
            &&& result is Ok ==> {
                &&& result->Ok_0.width == width
                &&& result->Ok_0.height == height
                &&& result->Ok_0.pixels == raw
            }
        }),
{
    let area = width * height;
    assert(4 * width * height == 4 * area) by (nonlinear_arith)
        requires
            area == width * height,
    ;
    assert(area == 0 <==> width == 0 || height == 0) by (nonlinear_arith)
        requires
            area == width * height,
            width >= 0,
            height >= 0,
    ;
}

/// RGB data made opaque has four bytes for each three, of which the first three
/// are those three and the last is full.
pub proof fn law_opaque_pixels(raw: Seq<u8>)
    ensures
        with_alpha(raw).len() == 4 * (raw.len() / 3),
        forall|k: int|
            0 <= k < raw.len() / 3 ==> #[trigger] with_alpha(raw).subrange(4 * k, 4 * k + 4)
                == raw.subrange(3 * k, 3 * k + 3).push(0xff),
{
    assert forall|k: int| 0 <= k < raw.len() / 3 implies #[trigger] with_alpha(raw).subrange(
        4 * k,
        4 * k + 4,
    ) == raw.subrange(3 * k, 3 * k + 3).push(0xff) by {
        let a = with_alpha(raw).subrange(4 * k, 4 * k + 4);
        let b = raw.subrange(3 * k, 3 * k + 3).push(0xff);
        assert forall|j: int| 0 <= j < 4 implies a[j] == b[j] by {
            assert((4 * k + j) % 4 == j && (4 * k + j) / 4 == k);
        }
        assert(a =~= b);
    }
}

/// Raw data with an alpha byte for each pixel makes an image of the size that the
/// parameters state, width for width and height for height, out of the very bytes;
/// without an area, or with fewer than four bytes for a pixel, it makes none.
pub proof fn law_rgba_transfer(params: KittyParams, data: Seq<u8>, raw: Seq<u8>)
    requires
        params.format == 32,
        base64_decoded(data) == Some(raw),
    ensures
        ({
            let result = transfer_result(params, data);
            let area = params.width * params.height;
            &&& result is Ok <==> 0 < area && 4 * area <= raw.len()
            &&& result is Ok ==> {
                &&& result->Ok_0.width == params.width
                &&& result->Ok_0.height == params.height
                &&& result->Ok_0.pixels == raw
            }
            &&& area == 0 ==> result->Err_0 == TransferError::Dimensions
            &&& 0 < area && raw.len() < 4 * area ==> result->Err_0 == TransferError::Data
            &&& forall|png: Option<Raster>| result == #[trigger] raw_result(params, raw, png)
        }),
{
    law_raw_rgba_size(params.width, params.height, raw);
}

/// Raw data without alpha makes an image of the size that the parameters state,
/// width for width and height for height. Each pixel of it is the three bytes
/// that the data has for it, and opaque. Without an area, or with fewer than
/// three bytes for a pixel, it makes none.
pub proof fn law_rgb_transfer(params: KittyParams, data: Seq<u8>, raw: Seq<u8>)
    requires
        params.format == 24,
        base64_decoded(data) == Some(raw),
    ensures
        ({
            let result = transfer_result(params, data);
            let area = params.width * params.height;
            &&& result is Ok <==> 0 < area && 3 * area <= raw.len()
            &&& result is Ok ==> {
                &&& result->Ok_0.width == params.width
                &&& result->Ok_0.height == params.height
                &&& result->Ok_0.pixels.len() == 4 * (raw.len() / 3)
                &&& forall|k: int|
                    0 <= k < raw.len() / 3 ==> #[trigger] result->Ok_0.pixels.subrange(
                        4 * k,
                        4 * k + 4,
                    ) == raw.subrange(3 * k, 3 * k + 3).push(0xff)
            }
            &&& area == 0 ==> result->Err_0 == TransferError::Dimensions
            &&& 0 < area && raw.len() < 3 * area ==> result->Err_0 == TransferError::Data
            &&& forall|png: Option<Raster>| result == #[trigger] raw_result(params, raw, png)
        }),
{
    law_raw_rgba_size(params.width, params.height, with_alpha(raw));
    law_opaque_pixels(raw);
}

/// A PNG file makes the image that is in it, whatever size the parameters state;
/// data that is no PNG file makes none.
pub proof fn law_png_transfer(params: KittyParams, data: Seq<u8>, raw: Seq<u8>)
    requires
        params.format == 100,
        base64_decoded(data) == Some(raw),
    ensures
        png_decoded(raw) is Some ==> transfer_result(params, data) == Ok::<Raster, TransferError>(
            png_decoded(raw)->0,
        ),
        png_decoded(raw) is None ==> transfer_result(params, data) == Err::<Raster, TransferError>(
            TransferError::Png,
        ),
        forall|png: Raster| #[trigger]
            raw_result(params, raw, Some(png)) == Ok::<Raster, TransferError>(png),
        raw_result(params, raw, None) == Err::<Raster, TransferError>(TransferError::Png),
        forall|png: Raster| #[trigger] png_result(Some(png)) == Ok::<Raster, TransferError>(png),
        png_result(None) == Err::<Raster, TransferError>(TransferError::Png),
{
}

/// Data that is no base64 is refused as such, whatever its format; data that is
/// base64 is refused for its format exactly where that is none of the three.
pub proof fn law_transfer_refused(params: KittyParams, data: Seq<u8>)
    ensures
        base64_decoded(data) is None <==> transfer_result(params, data) == Err::<
            Raster,
            TransferError,
        >(TransferError::Base64),
        base64_decoded(data) is Some ==> (params.format != 24 && params.format != 32
            && params.format != 100 <==> transfer_result(params, data) == Err::<
            Raster,
            TransferError,
        >(TransferError::Format)),
        forall|raw: Seq<u8>, png: Option<Raster>|
            params.format != 24 && params.format != 32 && params.format != 100
                <==> #[trigger] raw_result(params, raw, png) == Err::<Raster, TransferError>(
                TransferError::Format,
            ),
{
}

/// Only the format and the stated size matter for what data gives.
pub proof fn law_other_params_give_the_same(p: KittyParams, q: KittyParams, data: Seq<u8>)
    requires
        p.format == q.format,
        p.width == q.width,
        p.height == q.height,
    ensures
        transfer_result(p, data) == transfer_result(q, data),
        forall|raw: Seq<u8>, png: Option<Raster>| #[trigger]
            raw_result(p, raw, png) == raw_result(q, raw, png),
{
}

/// In an image that is well formed, every pixel inside its size has its four bytes.
pub proof fn law_pixels_in_bounds(image: Raster, x: int, y: int)
    requires
        image.well_formed(),
    ensures
        image.width > 0,
        image.height > 0,
        0 <= x < image.width && 0 <= y < image.height ==> 0 <= 4 * (y * image.width + x) && 4 * (y
            * image.width + x) + 4 <= image.pixels.len(),
{
    if 0 <= x < image.width && 0 <= y < image.height {
        let w = image.width as int;
        let h = image.height as int;
        assert(0 <= y * w + x && 4 * (y * w + x) + 4 <= 4 * w * h) by (nonlinear_arith)
            requires
                0 <= x < w,
                0 <= y < h,
        ;
    }
}

/// An image shows the size and the pixels that it holds, and a result is the
/// image or the reason that it holds.
pub proof fn law_views_show_all(image: RenderImage, e: TransferError)
    ensures
        image@.width == image.width,
        image@.height == image.height,
        image@.pixels == image.pixels@,
        outcome_view(Ok(image)) == Ok::<Raster, TransferError>(image@),
        outcome_view(Err(e)) == Err::<Raster, TransferError>(e),
{
}

/// The words for the client, letter by letter.
pub proof fn law_error_words()
    ensures
        TransferError::Base64.text() == seq![0x45u8, 0x42, 0x41, 0x53, 0x44, 0x36, 0x34],
        TransferError::Png.text() == seq![0x45u8, 0x50, 0x4e, 0x47],
        TransferError::Dimensions.text() == seq![0x45u8, 0x44, 0x49, 0x4d],
        TransferError::Data.text() == seq![0x45u8, 0x44, 0x41, 0x54, 0x41],
        TransferError::Format.text() == seq![0x45u8, 0x46, 0x4d, 0x54],
{
}

} // verus!
