//! Grayscale raster pages: binarization at a brightness threshold, the
//! contrast-and-sharpen enhancement fallback, and PNG encoding of an
//! attempt image for the recognizer.

use vstd::prelude::*;

verus! {

/// A grayscale raster page: one byte of brightness per pixel, rows
/// stored top to bottom. Well-formed images are non-empty and hold
/// exactly `width * height` pixels.
pub struct GrayImage {
    pub width: u32,
    pub height: u32,
    pub pixels: Vec<u8>,
}

impl GrayImage {
    pub open spec fn wf(self) -> bool {
        &&& self.width > 0
        &&& self.height > 0
        &&& self.pixels@.len() == self.width * self.height
    }
}

/// Build an image from raw parts, refusing dimensions that do not
/// match the pixel buffer.
pub fn gray_image_from_raw(width: u32, height: u32, pixels: Vec<u8>) -> (r: Option<GrayImage>)
    ensures
        match r {
            Some(img) => {
                &&& img.wf()
                &&& img.width == width
                &&& img.height == height
                &&& img.pixels@ == pixels@
            },
            None => width == 0 || height == 0 || pixels@.len() != width * height,
        },
{
    if width == 0 || height == 0 {
        return None;
    }
    proof {
        assert((width as int) * (height as int) <= 0xffff_ffff * 0xffff_ffff) by (nonlinear_arith)
            requires
                width <= 0xffff_ffffu32,
                height <= 0xffff_ffffu32,
        ;
    }
    let expected = (width as u64) * (height as u64);
    if pixels.len() as u64 == expected {
        Some(GrayImage { width, height, pixels })
    } else {
        None
    }
}

/// One pixel after thresholding: strictly brighter than the threshold
/// becomes white, everything else black.
pub open spec fn binarize_px(p: u8, threshold: u8) -> u8 {
    if p > threshold {
        255
    } else {
        0
    }
}

/// A whole pixel buffer after thresholding.
pub open spec fn binarize_seq(px: Seq<u8>, threshold: u8) -> Seq<u8> {
    px.map_values(|p: u8| binarize_px(p, threshold))
}

/// A buffer is bilevel when every pixel is pure black or pure white.
pub open spec fn is_bilevel(px: Seq<u8>) -> bool {
    forall|i: int| 0 <= i < px.len() ==> px[i] == 0 || #[trigger] px[i] == 255
}

/// Threshold the image: pixels strictly above `threshold` become 255,
/// all others become 0. Dimensions are preserved.
pub fn binarize(img: &GrayImage, threshold: u8) -> (r: GrayImage)
    requires
        img.wf(),
    ensures
        r.wf(),
        r.width == img.width,
        r.height == img.height,
        r.pixels@ == binarize_seq(img.pixels@, threshold),
{
    let mut out: Vec<u8> = Vec::new();
    let n = img.pixels.len();
    let mut i: usize = 0;
    while i < n
        invariant
            n == img.pixels@.len(),
            0 <= i <= n,
            out@ == binarize_seq(img.pixels@.take(i as int), threshold),
        decreases n - i,
    {
        let p = img.pixels[i];
        let b: u8 = if p > threshold {
            255
        } else {
            0
        };
        out.push(b);
        proof {
            assert(img.pixels@.take(i + 1).map_values(|p: u8| binarize_px(p, threshold)) =~= img
                .pixels@
                .take(i as int)
                .map_values(|p: u8| binarize_px(p, threshold))
                .push(binarize_px(img.pixels@[i as int], threshold)));
        }
        i = i + 1;
    }
    proof {
        assert(img.pixels@.take(n as int) =~= img.pixels@);
    }
    GrayImage { width: img.width, height: img.height, pixels: out }
}

/// Law: binarization is idempotent. Re-thresholding an already-bilevel
/// result at the same threshold changes nothing.
pub proof fn lemma_binarize_idempotent(px: Seq<u8>, threshold: u8)
    ensures
        binarize_seq(binarize_seq(px, threshold), threshold) == binarize_seq(px, threshold),
{
    let once = binarize_seq(px, threshold);
    assert forall|i: int| 0 <= i < once.len() implies binarize_px(once[i], threshold)
        == once[i] by {
        assert(once[i] == binarize_px(px[i], threshold));
    }
    assert(binarize_seq(once, threshold) =~= once);
}

/// Pixel buffer produced by the image library's contrast adjustment,
/// as a function of the source pixels, the dimensions and the amount.
pub uninterp spec fn contrast_of(px: Seq<u8>, w: u32, h: u32, amount: u8) -> Seq<u8>;

/// Pixel buffer produced by the image library's unsharp mask, as a
/// function of the source pixels, the dimensions, the blur radius and
/// the brightness-change threshold.
pub uninterp spec fn unsharpen_of(px: Seq<u8>, w: u32, h: u32, sigma: u8, cut: i32) -> Seq<u8>;

/// PNG encoding of a grayscale pixel buffer, as a function of the
/// pixels and the dimensions alone.
pub uninterp spec fn png_of(px: Seq<u8>, w: u32, h: u32) -> Seq<u8>;

/// Whether the PNG encoder accepts a grayscale pixel buffer — like the
/// encoding itself, a function of the pixels and the dimensions alone.
pub uninterp spec fn png_ok(px: Seq<u8>, w: u32, h: u32) -> bool;

/// The error type of the image library.
#[verifier::external_type_specification]
#[verifier::external_body]
pub struct ExImageError(image::ImageError);

/// Relies on image::imageops::contrast: it keeps the dimensions and
/// its result is a function of the pixels, the dimensions and the
/// amount alone.
#[verifier::external_body]
fn contrast_boost(img: &GrayImage, amount: u8) -> (r: GrayImage)
    requires
        img.wf(),
    ensures
        r.wf(),
        r.width == img.width,
        r.height == img.height,
        r.pixels@ == contrast_of(img.pixels@, img.width, img.height, amount),
{
    let buf: image::ImageBuffer<image::Luma<u8>, Vec<u8>> = image::ImageBuffer::from_raw(
        img.width,
        img.height,
        img.pixels.clone(),
    ).unwrap();
    let out = image::imageops::contrast(&buf, amount.into());
    GrayImage { width: img.width, height: img.height, pixels: out.into_raw() }
}

/// Relies on image::imageops::unsharpen: it keeps the dimensions and
/// its result is a function of the pixels, the dimensions, the blur
/// radius and the threshold alone. The blur radius must be positive:
/// the underlying Gaussian blur refuses a zero sigma.
#[verifier::external_body]
fn unsharpen_mask(img: &GrayImage, sigma: u8, cut: i32) -> (r: GrayImage)
    requires
        img.wf(),
        sigma > 0,
    ensures
        r.wf(),
        r.width == img.width,
        r.height == img.height,
        r.pixels@ == unsharpen_of(img.pixels@, img.width, img.height, sigma, cut),
{
    let buf: image::ImageBuffer<image::Luma<u8>, Vec<u8>> = image::ImageBuffer::from_raw(
        img.width,
        img.height,
        img.pixels.clone(),
    ).unwrap();
    let out = image::imageops::unsharpen(&buf, sigma.into(), cut);
    GrayImage { width: img.width, height: img.height, pixels: out.into_raw() }
}

/// Relies on image::ImageBuffer::write_to with the PNG format: whether
/// the encoder accepts the image and what it emits are both functions
/// of the pixels and the dimensions alone (the write goes to a byte
/// vector, so no input/output failure enters).
#[verifier::external_body]
fn encode_png(img: &GrayImage) -> (r: Result<Vec<u8>, image::ImageError>)
    requires
        img.wf(),
    ensures
        r is Ok <==> png_ok(img.pixels@, img.width, img.height),
        r matches Ok(b) ==> b@ == png_of(img.pixels@, img.width, img.height),
{
    let buf: image::ImageBuffer<image::Luma<u8>, Vec<u8>> = image::ImageBuffer::from_raw(
        img.width,
        img.height,
        img.pixels.clone(),
    ).unwrap();
    let mut bytes: Vec<u8> = Vec::new();
    match buf.write_to(&mut std::io::Cursor::new(&mut bytes), image::ImageFormat::Png) {
        Ok(()) => Ok(bytes),
        Err(e) => Err(e),
    }
}

/// Strength of the contrast boost applied by the enhancement fallback.
pub const CONTRAST_BOOST_AMOUNT: u8 = 15;

/// Blur radius of the unsharp mask applied by the enhancement fallback.
pub const SHARPEN_SIGMA: u8 = 5;

/// Minimal brightness change sharpened by the unsharp mask.
pub const SHARPEN_CUT: i32 = 10;

/// Pixel buffer of the enhanced page: the fixed-strength contrast
/// boost followed by the unsharp mask.
pub open spec fn enhanced_of(px: Seq<u8>, w: u32, h: u32) -> Seq<u8> {
    unsharpen_of(contrast_of(px, w, h, CONTRAST_BOOST_AMOUNT), w, h, SHARPEN_SIGMA, SHARPEN_CUT)
}

/// Enhance a page that failed the plain threshold ladder: boost the
/// contrast at fixed strength, then sharpen with an unsharp mask.
/// Dimensions are preserved.
pub fn enhance(img: &GrayImage) -> (r: GrayImage)
    requires
        img.wf(),
    ensures
        r.wf(),
        r.width == img.width,
        r.height == img.height,
        r.pixels@ == enhanced_of(img.pixels@, img.width, img.height),
{
    let boosted = contrast_boost(img, CONTRAST_BOOST_AMOUNT);
    unsharpen_mask(&boosted, SHARPEN_SIGMA, SHARPEN_CUT)
}

/// Prepare one recognition attempt: threshold the source image and
/// encode the bilevel result as a PNG for the recognizer. `None`
/// exactly when the encoder refuses the thresholded image.
pub fn attempt_png(source: &GrayImage, threshold: u8) -> (r: Option<Vec<u8>>)
    requires
        source.wf(),
    ensures
        r is Some <==> png_ok(
            binarize_seq(source.pixels@, threshold),
            source.width,
            source.height,
        ),
        r matches Some(b) ==> b@ == png_of(
            binarize_seq(source.pixels@, threshold),
            source.width,
            source.height,
        ),
{
    let bin = binarize(source, threshold);
    match encode_png(&bin) {
        Ok(b) => Some(b),
        Err(_) => None,
    }
}

/// Law: a binarized buffer is bilevel.
pub proof fn lemma_binarize_bilevel(px: Seq<u8>, threshold: u8)
    ensures
        is_bilevel(binarize_seq(px, threshold)),
{
    let once = binarize_seq(px, threshold);
    assert forall|i: int| 0 <= i < once.len() implies once[i] == 0 || #[trigger] once[i]
        == 255 by {
        assert(once[i] == binarize_px(px[i], threshold));
    }
}

} // verus!
