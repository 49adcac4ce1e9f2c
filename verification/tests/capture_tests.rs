use std::path::PathBuf;

use chrono::{Datelike, TimeZone, Timelike};
use digitshot::capture::{capture_filename, capture_result, captures_dir, join_path_str, LocalTime};
use digitshot::clipboard::decode_png_rgba;
use digitshot::editor::{decode_png_base64, editor_url};
use digitshot::frame::Rgba;
use digitshot::permissions::{has_screen_recording, request_screen_recording};

fn local(t: &chrono::DateTime<chrono::Local>) -> LocalTime {
    LocalTime::new(t.year(), t.month(), t.day(), t.hour(), t.minute(), t.second()).unwrap()
}

#[test]
fn filename_is_sortable_and_finder_safe() {
    let t = chrono::Local.with_ymd_and_hms(2026, 6, 12, 9, 41, 7).unwrap();
    assert_eq!(capture_filename(&local(&t)), "DigitShot 2026-06-12 at 09.41.07.png");
}

#[test]
fn captures_dir_is_under_pictures() {
    assert_eq!(
        PathBuf::from(captures_dir("/Users/x")),
        PathBuf::from("/Users/x/Pictures/DigitShot")
    );
}

#[test]
fn esc_during_capture_yields_none() {
    // screencapture exits 0 on Esc but writes nothing
    assert_eq!(capture_result(true, false, PathBuf::from("/tmp/a.png")), None);
    assert!(capture_result(true, true, PathBuf::from("/tmp/a.png")).is_some());
}

#[test]
fn failed_capture_yields_none_even_with_a_file() {
    assert_eq!(capture_result(false, true, PathBuf::from("/tmp/a.png")), None);
    assert_eq!(capture_result(false, false, PathBuf::from("/tmp/a.png")), None);
    assert_eq!(
        capture_result(true, true, PathBuf::from("/tmp/a.png")),
        Some(PathBuf::from("/tmp/a.png"))
    );
}

#[test]
fn captures_dir_handles_trailing_and_empty_home() {
    assert_eq!(captures_dir("/Users/x/"), "/Users/x/Pictures/DigitShot");
    assert_eq!(captures_dir(""), "Pictures/DigitShot");
    assert_eq!(captures_dir("/"), "/Pictures/DigitShot");
}

#[test]
fn join_matches_std_path_join() {
    for (base, part) in [("/a", "b"), ("/a/", "b"), ("", "b"), ("/a", "/c"), ("rel", "x/y")] {
        let std_joined = std::path::Path::new(base).join(part);
        assert_eq!(PathBuf::from(join_path_str(base, part)), std_joined);
    }
}

#[test]
fn filename_pads_every_field() {
    let t = LocalTime::new(987, 1, 2, 3, 4, 5).unwrap();
    assert_eq!(capture_filename(&t), "DigitShot 0987-01-02 at 03.04.05.png");
    let late = LocalTime::new(2026, 12, 31, 23, 59, 59).unwrap();
    assert_eq!(capture_filename(&late), "DigitShot 2026-12-31 at 23.59.59.png");
}

#[test]
fn filename_years_outside_four_digits_carry_a_sign() {
    let far = LocalTime::new(10000, 1, 1, 0, 0, 0).unwrap();
    assert_eq!(capture_filename(&far), "DigitShot +10000-01-01 at 00.00.00.png");
    let bce = LocalTime::new(-5, 3, 1, 12, 0, 0).unwrap();
    assert_eq!(capture_filename(&bce), "DigitShot -0005-03-01 at 12.00.00.png");
}

#[test]
fn local_time_rejects_impossible_dates_and_times() {
    assert!(LocalTime::new(2023, 2, 29, 0, 0, 0).is_none());
    assert!(LocalTime::new(2024, 2, 29, 0, 0, 0).is_some());
    assert!(LocalTime::new(1900, 2, 29, 0, 0, 0).is_none());
    assert!(LocalTime::new(2000, 2, 29, 0, 0, 0).is_some());
    assert!(LocalTime::new(-4, 2, 29, 0, 0, 0).is_some());
    assert!(LocalTime::new(2026, 4, 31, 0, 0, 0).is_none());
    assert!(LocalTime::new(2026, 13, 1, 0, 0, 0).is_none());
    assert!(LocalTime::new(2026, 1, 0, 0, 0, 0).is_none());
    assert!(LocalTime::new(2026, 1, 1, 24, 0, 0).is_none());
    assert!(LocalTime::new(2026, 1, 1, 0, 60, 0).is_none());
    assert!(LocalTime::new(2026, 1, 1, 0, 0, 60).is_none());
    assert!(LocalTime::new(262142, 12, 31, 0, 0, 0).is_some());
    assert!(LocalTime::new(262143, 1, 1, 0, 0, 0).is_none());
    assert!(LocalTime::new(-262143, 1, 1, 0, 0, 0).is_some());
    assert!(LocalTime::new(-262144, 1, 1, 0, 0, 0).is_none());
}

#[test]
fn editor_url_percent_encodes_the_path() {
    assert_eq!(editor_url("/tmp/a.png"), "editor.html?path=%2Ftmp%2Fa.png");
    assert_eq!(editor_url("a b~_-.Z9"), "editor.html?path=a%20b~_-.Z9");
    assert_eq!(editor_url("é"), "editor.html?path=%C3%A9");
    assert_eq!(editor_url(""), "editor.html?path=");
}

#[test]
fn base64_payload_decodes_to_bytes() {
    assert_eq!(decode_png_base64("aGk="), Ok(b"hi".to_vec()));
    assert_eq!(decode_png_base64(""), Ok(Vec::new()));
    assert_eq!(decode_png_base64("iVBORw0KGgo="), Ok(vec![0x89, b'P', b'N', b'G', 13, 10, 26, 10]));
}

#[test]
fn base64_payload_errors_are_reported() {
    assert!(decode_png_base64("aGk").is_err());
    assert!(decode_png_base64("a*k=").is_err());
    let msg = decode_png_base64("a*k=").unwrap_err();
    assert!(msg.contains("Invalid"), "{msg}");
}

#[test]
fn screen_recording_is_granted_without_a_gate() {
    assert!(has_screen_recording());
    assert!(request_screen_recording());
}

fn png_of(width: u32, height: u32, raw: Vec<u8>) -> Vec<u8> {
    let img = image::RgbaImage::from_raw(width, height, raw).unwrap();
    let mut out = std::io::Cursor::new(Vec::new());
    image::DynamicImage::ImageRgba8(img).write_to(&mut out, image::ImageFormat::Png).unwrap();
    out.into_inner()
}

#[test]
fn png_bytes_decode_to_their_pixels() {
    let raw: Vec<u8> = vec![
        255, 0, 0, 255, 0, 255, 0, 255, 0, 0, 255, 128, //
        1, 2, 3, 4, 250, 251, 252, 253, 9, 8, 7, 0,
    ];
    let png = png_of(3, 2, raw.clone());
    let frame = decode_png_rgba(&png).unwrap();
    assert_eq!(frame.dimensions(), (3, 2));
    assert_eq!(frame.to_raw(), raw);
    assert_eq!(frame.get_pixel(2, 0), Rgba { r: 0, g: 0, b: 255, a: 128 });
}

#[test]
fn png_decode_errors_are_reported() {
    assert!(decode_png_rgba(b"not a png").is_err());
    assert!(decode_png_rgba(&[]).is_err());
    let png = png_of(2, 2, vec![7; 16]);
    assert!(decode_png_rgba(&png[..png.len() / 2]).is_err());
}
