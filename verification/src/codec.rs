//! Running a thinning strategy on encoded image bytes.
//!
//! Decoding and encoding are the only trusted calls of the crate: the bytes
//! go through the `image` crate, and everything between — binarizing the
//! raster, thinning the grid, rendering it back — is verified against the
//! contracts in this crate.

use vstd::prelude::*;
use vstd::arithmetic::div_mod::lemma_fundamental_div_mod;

use crate::binary_image::BinaryImage;
use crate::binary_image::PixelColor;
use crate::binary_image::binarize_cell;
use crate::binary_image::rendered_channel;
use crate::raster::RgbRaster;
use crate::skeletonizers::Skeletonizer;
use crate::skeletonizers::connectivity::fg_at;

verus! {

/// Why a run on encoded bytes produced no raster.
#[derive(Clone, Copy, PartialEq, Eq, Structural, Debug)]
pub enum SkeletonizeError {
    /// The input bytes do not form a valid raster.
    Decode,
    /// The decoded raster has no pixels.
    EmptyImage,
    /// The decoded raster is too large for the thinning bookkeeping.
    TooLarge,
    /// The result could not be encoded.
    Encode,
}

#[verifier::external_type_specification]
#[verifier::external_body]
pub struct ExImageError(image::ImageError);

/// Whether the byte sequence decodes as a raster image. Decoding is a pure
/// function of the bytes, so the outcome carries a name.
pub uninterp spec fn decode_ok(bytes: Seq<u8>) -> bool;

/// The width of the raster the bytes decode to, when they decode.
pub uninterp spec fn decoded_width(bytes: Seq<u8>) -> int;

/// The height of the raster the bytes decode to, when they decode.
pub uninterp spec fn decoded_height(bytes: Seq<u8>) -> int;

/// The RGB pixel buffer of the raster the bytes decode to, when they decode.
pub uninterp spec fn decoded_data(bytes: Seq<u8>) -> Seq<u8>;

/// Whether a raster of the given dimensions and buffer encodes as PNG.
/// Encoding into memory is a pure function of the raster, so the outcome
/// carries a name.
pub uninterp spec fn png_encodes(width: int, height: int, data: Seq<u8>) -> bool;

/// The PNG bytes a raster of the given dimensions and buffer encodes to.
pub uninterp spec fn png_encoding(width: int, height: int, data: Seq<u8>) -> Seq<u8>;

/// Relies on image::load_from_memory and DynamicImage::to_rgb8: decoding
/// depends on the bytes alone; a successfully decoded image comes back as an
/// RGB buffer holding exactly three bytes per pixel in row-major order,
/// whose dimensions are 32-bit values.
#[verifier::external_body]
fn decode_raster(bytes: &Vec<u8>) -> (r: Result<RgbRaster, image::ImageError>)
    ensures
        r is Ok <==> decode_ok(bytes@),
        match r {
            Result::Ok(raster) => raster.wf() && raster.spec_width() <= u32::MAX
                && raster.spec_height() <= u32::MAX && raster.spec_width() == decoded_width(
                bytes@,
            ) && raster.spec_height() == decoded_height(bytes@) && raster.data_seq()
                == decoded_data(bytes@),
            Result::Err(_) => true,
        },
{
    let img = image::load_from_memory(bytes.as_slice())?.to_rgb8();
    let width = img.width() as usize;
    let height = img.height() as usize;
    let data = img.into_raw();
    Ok(RgbRaster::from_parts(width, height, data))
}

/// Relies on ImageBuffer::from_raw and DynamicImage::write_to: a buffer of
/// exactly three bytes per pixel with 32-bit dimensions is accepted, and
/// encoding into memory depends on the raster alone.
#[verifier::external_body]
fn encode_png(raster: &RgbRaster) -> (r: Result<Vec<u8>, image::ImageError>)
    requires
        raster.wf(),
        raster.spec_width() <= u32::MAX,
        raster.spec_height() <= u32::MAX,
    ensures
        r is Ok <==> png_encodes(
            raster.spec_width(),
            raster.spec_height(),
            raster.data_seq(),
        ),
        match r {
            Result::Ok(bytes) => bytes@ == png_encoding(
                raster.spec_width(),
                raster.spec_height(),
                raster.data_seq(),
            ),
            Result::Err(_) => true,
        },
{
    let img: image::RgbImage = image::ImageBuffer::from_raw(
        raster.width() as u32,
        raster.height() as u32,
        raster.data().clone(),
    ).expect("the buffer length matches the dimensions");
    let mut out = std::io::Cursor::new(Vec::new());
    match image::DynamicImage::ImageRgb8(img).write_to(&mut out, image::ImageFormat::Png) {
        Ok(()) => Ok(out.into_inner()),
        Err(e) => Err(e),
    }
}

/// The verified middle of a run on the raster `input`: `out` renders a grid
/// that the strategy's `process` contract relates to the binarization of
/// `input` with white background — same dimensions and labels, pixels only
/// removed, the strategy's own exit predicate reached, and an already
/// settled grid left unchanged.
pub open spec fn skeleton_output<T: Skeletonizer>(
    skeletonizer: T,
    input: RgbRaster,
    out: RgbRaster,
) -> bool {
    exists|g0: BinaryImage, g: BinaryImage|
        #![trigger g0.cells(), g.cells()]
        {
            &&& g0.wf()
            &&& g0.spec_width() == input.spec_width()
            &&& g0.spec_height() == input.spec_height()
            &&& g0.bg() == PixelColor::White
            &&& (forall|x: int, y: int|
                0 <= x < input.spec_width() && 0 <= y < input.spec_height()
                    ==> g0.cells()[y][x] == binarize_cell(input, x, y))
            &&& g.wf()
            &&& g.spec_width() == g0.spec_width()
            &&& g.spec_height() == g0.spec_height()
            &&& g.bg() == g0.bg()
            &&& g.fg() == g0.fg()
            &&& (forall|x: int, y: int|
                fg_at(g.cells(), g.fg(), x, y) ==> fg_at(g0.cells(), g0.fg(), x, y))
            &&& skeletonizer.done(g)
            &&& (skeletonizer.settled(g0) ==> g.cells() == g0.cells())
            &&& out.wf()
            &&& out.spec_width() == input.spec_width()
            &&& out.spec_height() == input.spec_height()
            &&& (forall|x: int, y: int, c: int|
                0 <= x < out.spec_width() && 0 <= y < out.spec_height() && 0 <= c < 3
                    ==> #[trigger] out.spec_channel(x, y, c) == rendered_channel(g, x, y))
        }
}

/// Thins the shapes of a decoded raster: the raster is binarized with a
/// white background (a pixel is foreground exactly when all of its channels
/// are zero), the chosen strategy erodes the grid to its fixpoint, and the
/// grid is rendered back. Succeeds on exactly the rasters with at least one
/// pixel whose padded dimensions fit the thinning bookkeeping.
pub fn skeletonize_raster<T: Skeletonizer>(raster: &RgbRaster, skeletonizer: &T) -> (r: Result<
    RgbRaster,
    SkeletonizeError,
>)
    requires
        raster.wf(),
        raster.spec_width() <= u32::MAX,
        raster.spec_height() <= u32::MAX,
    ensures
        r is Ok <==> (raster.spec_width() >= 1 && raster.spec_height() >= 1 && (
        raster.spec_width() + 2) * (raster.spec_height() + 2) <= u32::MAX),
        match r {
            Result::Ok(out) => {
                &&& out.wf()
                &&& out.spec_width() == raster.spec_width()
                &&& out.spec_height() == raster.spec_height()
                &&& forall|x: int, y: int, c: int|
                    0 <= x < out.spec_width() && 0 <= y < out.spec_height() && 0 <= c < 3 ==> (
                    #[trigger] out.spec_channel(x, y, c) == 0u8 || out.spec_channel(x, y, c)
                        == 255u8)
                &&& forall|x: int, y: int, c: int|
                    0 <= x < out.spec_width() && 0 <= y < out.spec_height() && 0 <= c < 3
                        && binarize_cell(*raster, x, y) == PixelColor::White
                        ==> #[trigger] out.spec_channel(x, y, c) == 255u8
                &&& skeleton_output(*skeletonizer, *raster, out)
            },
            Result::Err(e) => {
                &&& (e == SkeletonizeError::EmptyImage <==> (raster.spec_width() == 0
                    || raster.spec_height() == 0))
                &&& (e == SkeletonizeError::TooLarge <==> (raster.spec_width() >= 1
                    && raster.spec_height() >= 1 && (raster.spec_width() + 2) * (
                raster.spec_height() + 2) > u32::MAX))
            },
        },
{
    let w = raster.width();
    let h = raster.height();
    let _buffer_len: usize = raster.data().len();
    if w == 0 || h == 0 {
        return Result::Err(SkeletonizeError::EmptyImage);
    }
    proof {
        assert((w as int + 2) * (h as int + 2) <= u128::MAX) by (nonlinear_arith)
            requires 0 <= w <= u32::MAX && 0 <= h <= u32::MAX;
    }
    let padded_area = (w as u128 + 2) * (h as u128 + 2);
    if padded_area > u32::MAX as u128 {
        return Result::Err(SkeletonizeError::TooLarge);
    }

    let mut binary_image = BinaryImage::from_image(raster, PixelColor::White);
    let ghost g0 = binary_image;
    skeletonizer.process(&mut binary_image);
    let out = binary_image.to_rgb_image();
    proof {
        assert(skeleton_output(*skeletonizer, *raster, out)) by {
            assert(g0.cells() == g0.cells());
            assert(binary_image.cells() == binary_image.cells());
        };
        assert forall|x: int, y: int, c: int|
            0 <= x < out.spec_width() && 0 <= y < out.spec_height() && 0 <= c < 3
                && binarize_cell(*raster, x, y) == PixelColor::White implies #[trigger] out
            .spec_channel(x, y, c) == 255u8 by {
            // white cells are background from the start, and thinning never
            // turns a background cell into foreground
            if binary_image.cells()[y][x] == binary_image.fg() {
                assert(crate::skeletonizers::connectivity::fg_at(
                    binary_image.cells(),
                    binary_image.fg(),
                    x,
                    y,
                ));
            }
            assert(rendered_channel(binary_image, x, y) == 255u8);
        };
    }
    Result::Ok(out)
}

/// Decodes the bytes, thins the decoded raster with the chosen strategy,
/// and encodes the result as PNG bytes. The Decode error comes exactly when
/// the bytes do not decode; the empty and oversize errors follow the decoded
/// dimensions; on success the bytes are the PNG encoding of the thinned
/// decode of the input.
pub fn skeletonize<T: Skeletonizer>(image_bytes: &Vec<u8>, skeletonizer: &T) -> (r: Result<
    Vec<u8>,
    SkeletonizeError,
>)
    ensures
        (r == Result::<Vec<u8>, SkeletonizeError>::Err(SkeletonizeError::Decode)) <==> !decode_ok(
            image_bytes@,
        ),
        (r == Result::<Vec<u8>, SkeletonizeError>::Err(SkeletonizeError::EmptyImage)) <==> (
        decode_ok(image_bytes@) && (decoded_width(image_bytes@) == 0 || decoded_height(
            image_bytes@,
        ) == 0)),
        (r == Result::<Vec<u8>, SkeletonizeError>::Err(SkeletonizeError::TooLarge)) <==> (
        decode_ok(image_bytes@) && decoded_width(image_bytes@) >= 1 && decoded_height(
            image_bytes@,
        ) >= 1 && (decoded_width(image_bytes@) + 2) * (decoded_height(image_bytes@) + 2)
            > u32::MAX),
        (r == Result::<Vec<u8>, SkeletonizeError>::Err(SkeletonizeError::Encode)) ==> (decode_ok(
            image_bytes@,
        ) && decoded_width(image_bytes@) >= 1 && decoded_height(image_bytes@) >= 1 && (
        decoded_width(image_bytes@) + 2) * (decoded_height(image_bytes@) + 2) <= u32::MAX),
        match r {
            Result::Ok(bytes) => exists|input: RgbRaster, out: RgbRaster|
                #![trigger skeleton_output(*skeletonizer, input, out)]
                {
                    &&& input.wf()
                    &&& input.spec_width() == decoded_width(image_bytes@)
                    &&& input.spec_height() == decoded_height(image_bytes@)
                    &&& input.data_seq() == decoded_data(image_bytes@)
                    &&& skeleton_output(*skeletonizer, input, out)
                    &&& bytes@ == png_encoding(
                        out.spec_width(),
                        out.spec_height(),
                        out.data_seq(),
                    )
                },
            Result::Err(_) => true,
        },
{
    match decode_raster(image_bytes) {
        Result::Err(_) => Result::Err(SkeletonizeError::Decode),
        Result::Ok(raster) => {
            let r = skeletonize_raster(&raster, skeletonizer);
            match r {
                Result::Err(e) => {
                    proof {
                        assert(e == SkeletonizeError::EmptyImage || e
                            == SkeletonizeError::TooLarge);
                    }
                    Result::Err(e)
                },
                Result::Ok(out) => {
                    proof {
                        assert(raster.spec_width() >= 1 && raster.spec_height() >= 1 && (
                        raster.spec_width() + 2) * (raster.spec_height() + 2) <= u32::MAX);
                    }
                    match encode_png(&out) {
                        Result::Ok(bytes) => {
                            proof {
                                assert(skeleton_output(*skeletonizer, raster, out));
                            }
                            Result::Ok(bytes)
                        },
                        Result::Err(_) => Result::Err(SkeletonizeError::Encode),
                    }
                },
            }
        },
    }
}

/// Every channel of the pixel at `(x, y)` equals `v`.
pub open spec fn pixel_all(r: RgbRaster, x: int, y: int, v: u8) -> bool {
    forall|c: int| 0 <= c < 3 ==> #[trigger] r.spec_channel(x, y, c) == v
}

/// Every pixel of the raster is pure black or pure white: all three channels
/// zero, or all three 255.
pub open spec fn pure_black_white(r: RgbRaster) -> bool {
    forall|x: int, y: int|
        0 <= x < r.spec_width() && 0 <= y < r.spec_height() ==> (#[trigger] pixel_all(r, x, y, 0u8)
            || pixel_all(r, x, y, 255u8))
}

/// Raster round trip: converting a pure black-and-white raster to a grid
/// with white background and rendering the grid straight back reproduces the
/// raster exactly. The premises are exactly what `BinaryImage::from_image`
/// and `BinaryImage::to_rgb_image` ensure of their results.
pub proof fn lemma_raster_round_trip(before: RgbRaster, img: BinaryImage, after: RgbRaster)
    requires
        before.wf(),
        before.spec_width() >= 1,
        before.spec_height() >= 1,
        pure_black_white(before),
        img.wf(),
        img.spec_width() == before.spec_width(),
        img.spec_height() == before.spec_height(),
        img.bg() == PixelColor::White,
        forall|x: int, y: int|
            0 <= x < before.spec_width() && 0 <= y < before.spec_height()
                ==> img.cells()[y][x] == binarize_cell(before, x, y),
        after.wf(),
        after.spec_width() == img.spec_width(),
        after.spec_height() == img.spec_height(),
        forall|x: int, y: int, c: int|
            0 <= x < img.spec_width() && 0 <= y < img.spec_height() && 0 <= c < 3
                ==> #[trigger] after.spec_channel(x, y, c) == rendered_channel(img, x, y),
    ensures
        after.data_seq() == before.data_seq(),
{
    let w = before.spec_width();
    let h = before.spec_height();
    let len = before.data_seq().len();
    assert(after.data_seq().len() == len);
    assert forall|i: int| 0 <= i < len implies after.data_seq()[i] == before.data_seq()[i] by {
        let p = i / 3;
        let c = i % 3;
        lemma_fundamental_div_mod(i, 3);
        let x = p % w;
        let y = p / w;
        lemma_fundamental_div_mod(p, w);
        assert(3 * (w * h) == 3 * w * h) by (nonlinear_arith);
        assert(p < w * h) by (nonlinear_arith)
            requires 3 * p + c < 3 * (w * h) && c >= 0;
        assert(y * w <= p) by (nonlinear_arith)
            requires p == y * w + x && x >= 0;
        assert(y < h) by (nonlinear_arith)
            requires y * w <= p && p < w * h && w >= 1 && y >= 0;
        assert(i == 3 * (y * w + x) + c);
        assert(after.spec_channel(x, y, c) == after.data_seq()[i]);
        assert(before.spec_channel(x, y, c) == before.data_seq()[i]);
        assert(after.spec_channel(x, y, c) == rendered_channel(img, x, y));
        assert(pixel_all(before, x, y, 0u8) || pixel_all(before, x, y, 255u8));
        if pixel_all(before, x, y, 0u8) {
            assert(binarize_cell(before, x, y) == PixelColor::Black) by {
                if exists|c2: int|
                    0 <= c2 < 3 && #[trigger] before.spec_channel(x, y, c2) != 0 {
                    let c2 = choose|c2: int|
                        0 <= c2 < 3 && #[trigger] before.spec_channel(x, y, c2) != 0;
                    assert(before.spec_channel(x, y, c2) == 0u8);
                }
            };
            assert(rendered_channel(img, x, y) == 0u8);
            assert(before.spec_channel(x, y, c) == 0u8);
        } else {
            assert(pixel_all(before, x, y, 255u8));
            assert(binarize_cell(before, x, y) == PixelColor::White) by {
                assert(before.spec_channel(x, y, 0) == 255u8);
            };
            assert(rendered_channel(img, x, y) == 255u8);
            assert(before.spec_channel(x, y, c) == 255u8);
        }
    };
    assert(after.data_seq() =~= before.data_seq());
}

} // verus!
