# digitshot

The verified core of DigitShot, a menubar screenshot tool with scrolling
capture. The library is written in Verus: its functions carry contracts that
the verifier proves, except the small wrappers around the outside crates
(`image`, `imageproc`, `chrono`, `base64`, `urlencoding`), marked
`#[verifier::external_body]`, whose contracts are trusted and stated in their
doc comments: `into_luma8`, `sobel_gradients` and `match_template_ncc`
(`src/vision.rs`), `chrono_date_exists` and `chrono_format`
(`src/capture.rs`), `url_encode` and `base64_decode` (`src/editor.rs`), and
`load_png_rgba` (`src/clipboard.rs`). Where an outside result is not stated
in full, it is named by a spec function without a body (`luma8_of`,
`sobel_of`, `ncc_scores`, `base64_standard_decode`, `png_rgba_of`), and the
verified code is proved for whatever value it takes.

- `src/frame.rs`: RGBA and grayscale frames stored row by row, with crops,
  stacking and raw-byte conversions.
- `src/vision.rs`: grayscale, Sobel and template matching, and the edge map
  built on them.
- `src/score_bits.rs`: comparison of single-precision match scores through
  their bit patterns.
- `src/stitch.rs`: the stitcher: duplicate detection, sticky header/footer
  detection, the inertia-window template search and the push state machine.
- `src/stitch_laws.rs`: what the stitcher keeps across pushes, up to the
  exact rebuild of a scrolled page.
- `src/scrolling.rs`: the decisions of a scrolling-capture session.
- `src/capture.rs`: captures folder, capture file names (and why they sort
  in time order), capture outcome.
- `src/clipboard.rs`: decoding the PNG the editor sends into pixels.
- `src/editor.rs`: the editor URL and the Base64 image payloads.
- `src/permissions.rs`: screen-recording permission where no gate exists.

`app/` is the unverified shell: the Tauri application, the system capture
tool, the clipboard, the screen grabber thread and the floating-point window
geometry.
