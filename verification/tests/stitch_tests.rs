use digitshot::frame::{GrayFrame, Rgba, RgbaFrame};
use digitshot::stitch::{
    detect_sticky, find_overlap, frames_nearly_equal, template_height, vstack, PushResult,
    StitchConfig, Stitcher,
};
use digitshot::vision::edges;

/// Deterministic pseudo-random tall source image: horizontal 4px bands of
/// LCG-derived colors — high texture, no repeating pattern.
fn make_source(w: u32, h: u32, seed: u64) -> RgbaFrame {
    let mut rows = Vec::with_capacity(h as usize);
    let mut state = seed.wrapping_mul(6364136223846793005).wrapping_add(1);
    let mut band = [0u8; 3];
    for y in 0..h {
        if y % 4 == 0 {
            state = state
                .wrapping_mul(6364136223846793005)
                .wrapping_add(1442695040888963407);
            band = [(state >> 16) as u8, (state >> 24) as u8, (state >> 32) as u8];
        }
        let mut row = Vec::with_capacity(w as usize);
        for x in 0..w {
            // slight horizontal variation so columns are not constant
            let v = band[0].wrapping_add((x % 7) as u8 * 3);
            row.push(Rgba { r: v, g: band[1], b: band[2], a: 255 });
        }
        rows.push(row);
    }
    RgbaFrame::from_rows(w, rows).unwrap()
}

fn viewport(src: &RgbaFrame, offset: u32, view_h: u32) -> RgbaFrame {
    src.crop_rows(offset, view_h)
}

fn flat(w: u32, h: u32, v: u8) -> RgbaFrame {
    RgbaFrame::filled(w, h, Rgba { r: v, g: v, b: v, a: 255 })
}

fn gray_pixels(g: &GrayFrame) -> Vec<u8> {
    let mut out = Vec::new();
    for y in 0..g.height() {
        for x in 0..g.width() {
            out.push(g.get_pixel(x, y));
        }
    }
    out
}

fn push_all(stitcher: &mut Stitcher, frames: &[RgbaFrame]) -> Vec<PushResult> {
    frames.iter().map(|f| stitcher.push_frame(f)).collect()
}

fn conf_value(bits: u32) -> f32 {
    f32::from_bits(bits)
}

#[test]
fn nearly_equal_detects_identical_and_different() {
    let src = make_source(200, 400, 1);
    let a = viewport(&src, 0, 100);
    let b = viewport(&src, 0, 100);
    let c = viewport(&src, 50, 100);
    assert!(frames_nearly_equal(&a, &b));
    assert!(!frames_nearly_equal(&a, &c));
}

#[test]
fn vstack_concatenates() {
    let src = make_source(64, 64, 2);
    let top = viewport(&src, 0, 24);
    let bottom = viewport(&src, 24, 40);
    let joined = vstack(&top, &bottom);
    assert_eq!(joined.dimensions(), (64, 64));
    assert_eq!(joined, src);
}

#[test]
fn edges_of_flat_image_are_flat() {
    let flat = RgbaFrame::filled(100, 100, Rgba { r: 128, g: 128, b: 128, a: 255 });
    let e = edges(&flat);
    assert!(gray_pixels(&e).iter().all(|p| *p < 8));
    let textured = make_source(100, 100, 3);
    let et = edges(&textured);
    assert!(gray_pixels(&et).iter().any(|p| *p >= 8));
}

#[test]
fn find_overlap_locates_exact_scroll() {
    let src = make_source(300, 900, 7);
    let prev = edges(&viewport(&src, 0, 300));
    let new = edges(&viewport(&src, 120, 300));
    let cfg = StitchConfig::default();
    // template = bottom strip of prev; in `new` it sits 120 rows higher
    let (ty, conf) = find_overlap(&prev, &new, &cfg, None).expect("match");
    let t = template_height(prev.height(), &cfg);
    assert_eq!((prev.height() - t) - ty, 120);
    assert!(conf_value(conf) > 0.8);
}

#[test]
fn find_overlap_rejects_flat_template() {
    let flat = RgbaFrame::filled(300, 300, Rgba { r: 255, g: 255, b: 255, a: 255 });
    let e = edges(&flat);
    let cfg = StitchConfig::default();
    assert!(find_overlap(&e, &e, &cfg, None).is_none());
}

#[test]
fn inertia_window_excludes_far_matches() {
    let src = make_source(300, 2000, 9);
    let prev = edges(&viewport(&src, 0, 300));
    let new = edges(&viewport(&src, 40, 300));
    let cfg = StitchConfig { inertia_px: 20, ..StitchConfig::default() };
    let t = template_height(prev.height(), &cfg);
    // true ty for a 40px scroll:
    let true_ty = (prev.height() - t) - 40;
    // expectation centered 200px away from truth with a ±20px window
    let far_expected = true_ty.saturating_sub(200);
    let found = find_overlap(&prev, &new, &cfg, Some(far_expected));
    // the true position is outside the window, so either nothing is found
    // or whatever is found is NOT the true offset with high confidence
    if let Some((ty, conf)) = found {
        assert!(ty != true_ty || conf_value(conf) < conf_value(cfg.min_confidence_bits));
    }
}

#[test]
fn stitches_scrolled_frames_back_into_source() {
    let src = make_source(300, 1200, 11);
    let view = 300;
    let offsets = [0u32, 130, 260, 430, 600];
    let frames: Vec<_> = offsets.iter().map(|o| viewport(&src, *o, view)).collect();
    let mut s = Stitcher::new(StitchConfig::default());
    let results = push_all(&mut s, &frames);
    assert!(matches!(results[0], PushResult::First));
    for r in &results[1..] {
        assert!(matches!(r, PushResult::AppendedRows(_)), "got {r:?}");
    }
    let out = s.finish();
    let expected = viewport(&src, 0, 600 + view);
    assert_eq!(out.dimensions(), expected.dimensions());
    assert_eq!(out, expected);
}

#[test]
fn duplicate_frames_are_skipped() {
    let src = make_source(300, 600, 13);
    let f = viewport(&src, 0, 300);
    let mut s = Stitcher::new(StitchConfig::default());
    s.push_frame(&f);
    assert!(matches!(s.push_frame(&f), PushResult::SkippedDuplicate));
    assert_eq!(s.finish().dimensions(), (300, 300));
}

#[test]
fn sticky_header_and_footer_appear_once() {
    let content = make_source(300, 1500, 17);
    let header = make_source(300, 40, 99);
    let footer = make_source(300, 30, 101);
    let view = 300;
    let body_h = view - 40 - 30;
    let frame = |off: u32| {
        let body = viewport(&content, off, body_h);
        vstack(&vstack(&header, &body), &footer)
    };
    let offsets = [0u32, 100, 200, 300];
    let frames: Vec<_> = offsets.iter().map(|o| frame(*o)).collect();
    let mut s = Stitcher::new(StitchConfig::default());
    push_all(&mut s, &frames);
    let out = s.finish();
    // header once + full scrolled body + footer once
    let expected = vstack(&vstack(&header, &viewport(&content, 0, 300 + body_h)), &footer);
    assert_eq!(out.dimensions(), expected.dimensions());
    assert_eq!(out, expected);
}

#[test]
fn lowconf_streak_hard_appends() {
    let src = make_source(300, 600, 19);
    let mut s = Stitcher::new(StitchConfig::default());
    s.push_frame(&viewport(&src, 0, 300));
    let flat1 = flat(300, 300, 250);
    assert!(matches!(s.push_frame(&flat1), PushResult::SkippedLowConfidence));
    // slightly different flats so the duplicate check doesn't trip first
    let flat2 = flat(300, 300, 244);
    let flat3 = flat(300, 300, 238);
    assert!(matches!(s.push_frame(&flat2), PushResult::SkippedLowConfidence));
    assert!(matches!(s.push_frame(&flat3), PushResult::HardAppended));
    assert_eq!(s.finish().height(), 600);
}

#[test]
fn single_frame_finish_returns_it() {
    let src = make_source(300, 400, 23);
    let f = viewport(&src, 0, 300);
    let mut s = Stitcher::new(StitchConfig::default());
    s.push_frame(&f);
    assert_eq!(s.finish(), f);
}
