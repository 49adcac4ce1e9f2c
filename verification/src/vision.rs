//! Image operations computed by the `image` and `imageproc` crates:
//! grayscale conversion, Sobel gradients and normalized cross-correlation
//! template matching. Each crate call sits in a small trusted wrapper from
//! plain values to plain values; the edge map built on top of them is
//! verified here.

use vstd::prelude::*;
use crate::frame::{GrayFrame, GrayView, RgbaFrame, FrameView, gray_rows_of, rows_bytes};

verus! {

/// The gray levels that `image` computes for an RGBA image of the given size
/// whose raw bytes are `rgba` (row-major, one byte per level).
pub uninterp spec fn luma8_of(width: u32, height: u32, rgba: Seq<u8>) -> Seq<u8>;

/// The Sobel gradient magnitudes that `imageproc` computes for a gray image
/// of the given size whose raw levels are `gray` (row-major).
pub uninterp spec fn sobel_of(width: u32, height: u32, gray: Seq<u8>) -> Seq<u16>;

/// The normalized cross-correlation scores that `imageproc` computes when it
/// slides the `tw` x `th` gray image `template` over the `iw` x `ih` gray
/// image `image`, as single-precision bit patterns in row-major order.
pub uninterp spec fn ncc_scores(
    iw: u32,
    ih: u32,
    image: Seq<u8>,
    tw: u32,
    th: u32,
    template: Seq<u8>,
) -> Seq<u32>;

/// Calls `image::DynamicImage::into_luma8` on the RGBA image of the given
/// size made of the raw bytes `rgba`.
/// Trusted: the gray levels are what `image` computes (named `luma8_of`,
/// a colour-space conversion done in floating point, left unstated), one per
/// pixel in row-major order, as `ImageBuffer::into_raw` lays them out.
/// `ImageBuffer::from_raw` accepts the buffer because it holds exactly
/// `4 * width * height` bytes.
#[verifier::external_body]
fn into_luma8(width: u32, height: u32, rgba: Vec<u8>) -> (gray: Vec<u8>)
    requires
        rgba@.len() == 4 * width * height,
    ensures
        gray@ == luma8_of(width, height, rgba@),
        gray@.len() == width * height,
{
    let img = image::RgbaImage::from_raw(width, height, rgba).unwrap();
    image::DynamicImage::ImageRgba8(img).into_luma8().into_raw()
}

/// Calls `imageproc::gradients::sobel_gradients` on the gray image of the
/// given size made of the raw levels `gray`.
/// Trusted: the magnitudes are what `imageproc` computes (named `sobel_of`;
/// a floating-point square root, left unstated); the output image has the
/// input's dimensions, so there is one magnitude per pixel, row-major.
#[verifier::external_body]
fn sobel_gradients(width: u32, height: u32, gray: Vec<u8>) -> (grad: Vec<u16>)
    requires
        gray@.len() == width * height,
    ensures
        grad@ == sobel_of(width, height, gray@),
        grad@.len() == width * height,
{
    let img = image::GrayImage::from_raw(width, height, gray).unwrap();
    imageproc::gradients::sobel_gradients(&img).into_raw()
}

/// Calls `imageproc::template_matching::match_template` with the
/// `CrossCorrelationNormalized` method.
/// Trusted: the scores are what `imageproc` computes (named `ncc_scores`),
/// each converted one for one to its bit pattern; the score image is
/// `(iw - tw + 1)` x `(ih - th + 1)` as the crate documents. The crate's
/// assertions hold: the template is no larger than the image, and it is not
/// empty (its window arithmetic subtracts one from the template's width and
/// height).
#[verifier::external_body]
pub(crate) fn match_template_ncc(
    iw: u32,
    ih: u32,
    image: Vec<u8>,
    tw: u32,
    th: u32,
    template: Vec<u8>,
) -> (scores: Vec<u32>)
    requires
        image@.len() == iw * ih,
        template@.len() == tw * th,
        1 <= tw <= iw,
        1 <= th <= ih,
    ensures
        scores@ == ncc_scores(iw, ih, image@, tw, th, template@),
        scores@.len() == (iw - tw + 1) * (ih - th + 1),
{
    let img = image::GrayImage::from_raw(iw, ih, image).unwrap();
    let tpl = image::GrayImage::from_raw(tw, th, template).unwrap();
    let out = imageproc::template_matching::match_template(
        &img,
        &tpl,
        imageproc::template_matching::MatchTemplateMethod::CrossCorrelationNormalized,
    );
    out.into_raw().into_iter().map(|v| v.to_bits()).collect()
}

/// Edge strength kept for matching: the gradient magnitude divided by four,
/// clamped to a byte.
pub open spec fn edge_level(g: u16) -> u8 {
    if g / 4 > 255 {
        255
    } else {
        (g / 4) as u8
    }
}

/// The edge map of a frame: grayscale, Sobel magnitude, then `edge_level`
/// per pixel, same dimensions as the frame.
pub open spec fn edge_view(f: FrameView) -> GrayView {
    let w = f.width;
    let h = f.height() as u32;
    let grad = sobel_of(w, h, luma8_of(w, h, rows_bytes(f.rows)));
    GrayView {
        width: w,
        rows: gray_rows_of(
            Seq::new(grad.len(), |i: int| edge_level(grad[i])),
            w as nat,
            h as nat,
        ),
    }
}

/// The edge level saturates and grows with the gradient: a magnitude `g`
/// below 1020 gives `g / 4`, every larger one gives 255, and a larger
/// magnitude never gives a smaller level.
pub proof fn lemma_edge_level_saturates(g1: u16, g2: u16)
    ensures
        g1 < 1020 ==> edge_level(g1) == g1 / 4,
        g1 >= 1020 ==> edge_level(g1) == 255,
        g1 <= g2 ==> edge_level(g1) <= edge_level(g2),
{
}

/// Each pixel of the edge map is the Sobel magnitude of the frame's gray
/// image at that pixel divided by four, saturated at 255 (for gradient
/// images with one magnitude per pixel, as `imageproc` gives).
pub proof fn lemma_edge_map_pixel(f: FrameView, x: int, y: int)
    requires
        f.wf(),
        0 <= x < f.width,
        0 <= y < f.height(),
        sobel_of(
            f.width,
            f.height() as u32,
            luma8_of(f.width, f.height() as u32, rows_bytes(f.rows)),
        ).len() == f.width * f.height(),
    ensures
        ({
            let g = sobel_of(
                f.width,
                f.height() as u32,
                luma8_of(f.width, f.height() as u32, rows_bytes(f.rows)),
            )[y * f.width + x];
            edge_view(f).rows[y][x] == if g >= 1020 {
                255
            } else {
                g / 4
            }
        }),
{
    let w = f.width as int;
    let h = f.height() as int;
    let grad = sobel_of(f.width, f.height() as u32, luma8_of(f.width, f.height() as u32, rows_bytes(f.rows)));
    let levels = Seq::new(grad.len(), |i: int| edge_level(grad[i]));
    assert(0 <= y * w && y * w + w <= w * h) by (nonlinear_arith)
        requires
            0 <= y < h,
            0 <= w,
    ;
    assert(edge_view(f).rows[y] == levels.subrange(y * w, y * w + w));
    assert(levels.subrange(y * w, y * w + w)[x] == levels[y * w + x]);
}

/// Grayscale -> Sobel gradient magnitude, scaled into a byte. Matching in
/// the edge domain makes the correlation robust on low-contrast pages.
pub fn edges(rgba: &RgbaFrame) -> (e: GrayFrame)
    ensures
        e@ == edge_view(rgba@),
        e@.width == rgba@.width,
        e@.height() == rgba@.height(),
{
    let w = rgba.width();
    let h = rgba.height();
    let raw = rgba.to_raw();
    let gray = into_luma8(w, h, raw);
    let grad = sobel_gradients(w, h, gray);
    let mut levels: Vec<u8> = Vec::new();
    let mut i: usize = 0;
    while i < grad.len()
        invariant
            i <= grad@.len(),
            levels@.len() == i,
            forall|k: int| 0 <= k < i ==> levels@[k] == edge_level(#[trigger] grad@[k]),
        decreases grad@.len() - i,
    {
        let g = grad[i];
        let q: u16 = g >> 2;
        assert(q == g / 4) by (bit_vector)
            requires
                q == g >> 2,
        ;
        let level: u8 = if q > 255 {
            255
        } else {
            q as u8
        };
        levels.push(level);
        i += 1;
    }
    let ghost grad_view = grad@;
    assert(levels@ =~= Seq::new(grad_view.len(), |k: int| edge_level(grad_view[k])));
    let e = GrayFrame::from_raw(w, h, levels).unwrap();
    e
}

} // verus!
