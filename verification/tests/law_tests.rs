use digitshot::capture::{capture_filename, LocalTime};
use digitshot::frame::{GrayFrame, Rgba, RgbaFrame};
use digitshot::score_bits::{ge_bits, is_finite_bits, is_nan_bits};
use digitshot::scrolling::{begin_action, stitched_output, BeginAction, Region, ScrollProgress};
use digitshot::stitch::{
    detect_sticky, find_overlap, frames_nearly_equal, template_height, vstack, PushResult,
    StitchConfig, Stitcher, DEFAULT_MIN_CONFIDENCE_BITS,
};
use digitshot::vision::edges;

fn px(v: u8) -> Rgba {
    Rgba { r: v, g: v, b: v, a: 255 }
}

fn ramp(w: u32, h: u32, seed: u32) -> RgbaFrame {
    let mut rows = Vec::new();
    for y in 0..h {
        let mut row = Vec::new();
        for x in 0..w {
            let v = ((x * 7 + y * 13 + seed * 31) % 251) as u8;
            row.push(Rgba { r: v, g: v.wrapping_mul(3), b: v.wrapping_add(17), a: 255 });
        }
        rows.push(row);
    }
    RgbaFrame::from_rows(w, rows).unwrap()
}

#[test]
fn from_rows_rejects_ragged_rows() {
    assert!(RgbaFrame::from_rows(2, vec![vec![px(1), px(2)], vec![px(3)]]).is_none());
    let f = RgbaFrame::from_rows(2, vec![vec![px(1), px(2)], vec![px(3), px(4)]]).unwrap();
    assert_eq!(f.dimensions(), (2, 2));
    assert_eq!(f.get_pixel(1, 1), px(4));
}

#[test]
fn raw_bytes_round_trip() {
    let f = ramp(5, 3, 1);
    let raw = f.to_raw();
    assert_eq!(raw.len(), 5 * 3 * 4);
    assert_eq!(&raw[0..4], &[f.get_pixel(0, 0).r, f.get_pixel(0, 0).g, f.get_pixel(0, 0).b, 255]);
    let back = RgbaFrame::from_raw(5, 3, raw).unwrap();
    assert_eq!(back, f);
    assert!(RgbaFrame::from_raw(5, 3, vec![0; 59]).is_none());
    let g = GrayFrame::from_raw(3, 2, vec![1, 2, 3, 4, 5, 6]).unwrap();
    assert_eq!(g.get_pixel(0, 1), 4);
    assert_eq!(g.to_raw(), vec![1, 2, 3, 4, 5, 6]);
    assert!(GrayFrame::from_raw(3, 2, vec![1, 2, 3]).is_none());
}

#[test]
fn crop_clamps_to_the_frame() {
    let f = ramp(4, 10, 2);
    assert_eq!(f.crop_rows(8, 5).height(), 2);
    assert_eq!(f.crop_rows(12, 5).height(), 0);
    assert_eq!(f.crop_rows(3, 4), vstack(&f.crop_rows(3, 2), &f.crop_rows(5, 2)));
}

#[test]
fn split_then_stack_gives_the_frame_back() {
    let f = ramp(6, 9, 3);
    for k in 0..=9 {
        assert_eq!(vstack(&f.crop_rows(0, k), &f.crop_rows(k, 9 - k)), f);
    }
}

#[test]
fn stacking_is_associative() {
    let (a, b, c) = (ramp(3, 2, 1), ramp(3, 4, 2), ramp(3, 1, 3));
    assert_eq!(vstack(&vstack(&a, &b), &c), vstack(&a, &vstack(&b, &c)));
}

#[test]
fn nearly_equal_is_symmetric_and_needs_same_size() {
    let a = ramp(40, 40, 1);
    let b = ramp(40, 40, 2);
    assert_eq!(frames_nearly_equal(&a, &b), frames_nearly_equal(&b, &a));
    assert!(frames_nearly_equal(&a, &a));
    assert!(!frames_nearly_equal(&a, &ramp(40, 41, 1)));
    let empty = RgbaFrame::filled(0, 0, px(0));
    assert!(!frames_nearly_equal(&empty, &empty));
}

#[test]
fn nearly_equal_threshold_is_a_mean_of_two() {
    // one sample point per frame (8x8): difference 5 per channel -> mean 5
    let a = RgbaFrame::filled(8, 8, px(100));
    assert!(!frames_nearly_equal(&a, &RgbaFrame::filled(8, 8, px(105))));
    // mean exactly 1: below 2
    assert!(frames_nearly_equal(&a, &RgbaFrame::filled(8, 8, px(101))));
    // mean exactly 2: not below 2
    assert!(!frames_nearly_equal(&a, &RgbaFrame::filled(8, 8, px(102))));
}

#[test]
fn template_height_formula() {
    let cfg = StitchConfig::default();
    assert_eq!(template_height(300, &cfg), 60);
    assert_eq!(template_height(100, &cfg), 32);
    assert_eq!(template_height(20, &cfg), 12);
    assert_eq!(template_height(5, &cfg), 0);
    assert_eq!(template_height(1000, &cfg), 200);
}

#[test]
fn sticky_bands_are_capped_at_thirty_percent() {
    let a = ramp(20, 10, 1);
    // identical frames: every row the same, each band capped at 3 of 10 rows
    assert_eq!(detect_sticky(&a, &a), (3, 3));
    let b = ramp(20, 10, 2);
    assert_eq!(detect_sticky(&a, &b), (0, 0));
    // same top 2 rows and bottom 1 row
    let mixed = vstack(&vstack(&a.crop_rows(0, 2), &b.crop_rows(2, 7)), &a.crop_rows(9, 1));
    assert_eq!(detect_sticky(&a, &mixed), (2, 1));
}

#[test]
fn score_bits_compare_like_floats() {
    let half = 0.5f32.to_bits();
    assert_eq!(DEFAULT_MIN_CONFIDENCE_BITS, half);
    assert!(ge_bits(half, half));
    assert!(ge_bits(0.75f32.to_bits(), half));
    assert!(!ge_bits(0.25f32.to_bits(), half));
    assert!(ge_bits(0.0f32.to_bits(), (-0.0f32).to_bits()));
    assert!(ge_bits(0.0f32.to_bits(), (-1.0f32).to_bits()));
    assert!(!ge_bits((-2.0f32).to_bits(), (-1.0f32).to_bits()));
    assert!(!ge_bits(f32::NAN.to_bits(), half));
    assert!(!ge_bits(half, f32::NAN.to_bits()));
    assert!(ge_bits(f32::INFINITY.to_bits(), half));
    assert!(is_nan_bits(f32::NAN.to_bits()));
    assert!(!is_finite_bits(f32::INFINITY.to_bits()));
    assert!(!is_finite_bits(f32::NAN.to_bits()));
    assert!(is_finite_bits(half));
    for (a, b) in [(1.5f32, 2.5f32), (-3.0, 2.0), (7.0, 7.0), (1e-40, 0.0), (-1e-40, 0.0)] {
        assert_eq!(ge_bits(a.to_bits(), b.to_bits()), a >= b, "{a} >= {b}");
    }
}

#[test]
fn find_overlap_result_stays_in_the_inertia_window() {
    let src = ramp(64, 400, 5);
    let prev = edges(&src.crop_rows(0, 120));
    let new = edges(&src.crop_rows(30, 120));
    let cfg = StitchConfig { inertia_px: 10, ..StitchConfig::default() };
    for exp in [0u32, 20, 40, 60, 80] {
        if let Some((ty, _)) = find_overlap(&prev, &new, &cfg, Some(exp)) {
            assert!(ty + 10 >= exp && ty <= exp + 10, "ty {ty} exp {exp}");
        }
    }
}

#[test]
fn edges_keep_the_frame_size() {
    let f = ramp(17, 9, 4);
    let e = edges(&f);
    assert_eq!((e.width(), e.height()), (17, 9));
}

#[test]
fn first_push_becomes_the_output() {
    let f = ramp(30, 50, 7);
    let mut s = Stitcher::new(StitchConfig::default());
    assert_eq!(s.height(), 0);
    assert!(matches!(s.push_frame(&f), PushResult::First));
    assert_eq!(s.height(), 50);
    assert_eq!(s.finish(), f);
}

#[test]
fn skipped_frames_leave_the_output_unchanged() {
    let f = ramp(64, 100, 8);
    let mut s = Stitcher::new(StitchConfig::default());
    s.push_frame(&f);
    let before = s.height();
    let blank = RgbaFrame::filled(64, 100, px(200));
    assert!(matches!(s.push_frame(&blank), PushResult::SkippedLowConfidence));
    assert_eq!(s.height(), before);
    assert!(matches!(s.push_frame(&f), PushResult::SkippedDuplicate));
    assert_eq!(s.height(), before);
    assert_eq!(s.finish(), f);
}

#[test]
fn hard_append_adds_the_whole_frame_after_the_streak() {
    let cfg = StitchConfig { max_lowconf_streak: 1, ..StitchConfig::default() };
    let f = ramp(64, 100, 9);
    let mut s = Stitcher::new(cfg);
    s.push_frame(&f);
    let blank = RgbaFrame::filled(64, 100, px(200));
    assert!(matches!(s.push_frame(&blank), PushResult::HardAppended));
    assert_eq!(s.height(), 200);
    let out = s.finish();
    assert_eq!(out.crop_rows(0, 100), f);
    assert_eq!(out.crop_rows(100, 100), blank);
}

#[test]
fn height_reports_the_finished_height() {
    let content = ramp(80, 600, 10);
    let mut s = Stitcher::new(StitchConfig::default());
    for off in [0u32, 50, 100, 150] {
        s.push_frame(&content.crop_rows(off, 200));
    }
    let h = s.height();
    assert_eq!(s.finish().height(), h);
}

#[test]
fn empty_session_produces_nothing() {
    let s = Stitcher::new(StitchConfig::default());
    assert!(stitched_output(s).is_none());
    let mut s = Stitcher::new(StitchConfig::default());
    let f = ramp(10, 10, 1);
    s.push_frame(&f);
    assert_eq!(stitched_output(s), Some(ramp(10, 10, 1)));
}

#[test]
fn too_fast_warning_is_raised_once_and_cleared_by_an_append() {
    let mut p = ScrollProgress::new();
    assert_eq!(p.observe(&PushResult::First), None);
    assert_eq!(p.observe(&PushResult::SkippedLowConfidence), None);
    assert_eq!(p.observe(&PushResult::SkippedLowConfidence), Some(true));
    assert_eq!(p.observe(&PushResult::SkippedLowConfidence), None);
    assert_eq!(p.observe(&PushResult::SkippedDuplicate), None);
    assert_eq!(p.observe(&PushResult::AppendedRows(12)), Some(false));
    assert_eq!(p.observe(&PushResult::HardAppended), None);
    assert_eq!(p.frames(), 7);
}

#[test]
fn begin_request_decisions() {
    assert_eq!(begin_action(true, true), BeginAction::Ignore);
    assert_eq!(begin_action(true, false), BeginAction::Ignore);
    assert_eq!(begin_action(false, false), BeginAction::RequestPermission);
    assert_eq!(begin_action(false, true), BeginAction::ShowSelector);
}

#[test]
fn region_is_plain_data() {
    let r = Region { x: 1, y: 2, width: 30, height: 40 };
    let copy = r;
    assert_eq!(copy, Region { x: 1, y: 2, width: 30, height: 40 });
}

#[test]
fn capture_names_sort_in_time_order() {
    let times = [
        (999, 12, 31, 23, 59, 59),
        (2024, 2, 29, 0, 0, 0),
        (2024, 3, 1, 0, 0, 0),
        (2024, 12, 1, 9, 5, 7),
        (2024, 12, 1, 9, 5, 8),
        (2024, 12, 1, 9, 6, 0),
        (2024, 12, 1, 10, 0, 0),
        (2024, 12, 10, 0, 0, 0),
        (2025, 1, 1, 0, 0, 0),
        (9999, 12, 31, 23, 59, 59),
    ];
    let names: Vec<String> = times
        .iter()
        .map(|&(y, mo, d, h, mi, s)| capture_filename(&LocalTime::new(y, mo, d, h, mi, s).unwrap()))
        .collect();
    for i in 0..names.len() {
        for j in 0..names.len() {
            assert_eq!(names[i].as_bytes() < names[j].as_bytes(), i < j, "{} vs {}", names[i], names[j]);
            assert_eq!(names[i] == names[j], i == j);
        }
    }
    let again = capture_filename(&LocalTime::new(2024, 12, 1, 9, 5, 7).unwrap());
    assert_eq!(again, names[3]);
}
