//! Laws of the stitcher: what every push keeps, what it adds, and that a
//! scroll matched at its true distances is rebuilt exactly.

use vstd::prelude::*;
use crate::frame::{FrameView, Rgba};
use crate::score_bits::sp_ge;
use crate::stitch::{
    PushResult, StitchConfig, StitchState, effective_view, finished_view, lemma_split_then_stack,
    lemma_sticky_fits, nearly_equal_spec, out_height, push_fits, push_step, sat_sub, scroll_match,
    sticky_spec, stitcher_wf, template_height_spec, with_sticky,
};

verus! {

/// Rows of the canvas.
pub open spec fn body_rows(s: StitchState) -> Seq<Seq<Rgba>> {
    match s.canvas {
        Some(c) => c.rows,
        None => Seq::empty(),
    }
}

/// Rows of the sticky footer, if one was cut off.
pub open spec fn footer_rows(s: StitchState) -> Seq<Seq<Rgba>> {
    match s.footer {
        Some(ft) => ft.rows,
        None => Seq::empty(),
    }
}

/// Cutting the footer off the canvas loses nothing: canvas and footer
/// together still form the image produced so far.
pub proof fn lemma_with_sticky_keeps_output(s: StitchState, last: FrameView, f: FrameView)
    requires
        stitcher_wf(s),
        s.last == Some(last),
        last.same_dims(f),
    ensures
        body_rows(with_sticky(s, last, f)) + footer_rows(with_sticky(s, last, f))
            == finished_view(s).rows,
        with_sticky(s, last, f).canvas is Some,
        out_height(with_sticky(s, last, f)) == out_height(s),
        s.sticky is Some ==> with_sticky(s, last, f) == s,
{
    if s.sticky is None {
        lemma_sticky_fits(last, f);
        let (t, b) = sticky_spec(last, f);
        if b > 0 {
            let c = s.canvas.unwrap();
            let h = c.height() as int;
            lemma_split_then_stack(c, h - b);
        } else {
            assert(body_rows(with_sticky(s, last, f)) + footer_rows(with_sticky(s, last, f))
                =~= finished_view(s).rows);
        }
    } else {
        match s.footer {
            Some(ft) => {},
            None => {
                assert(body_rows(s) + footer_rows(s) =~= finished_view(s).rows);
            },
        }
    }
}

/// `height()` is the height of the image that `finish()` returns, and that
/// image is as wide as the frames pushed.
pub proof fn lemma_height_is_finished_height(s: StitchState)
    requires
        stitcher_wf(s),
        s.canvas is Some,
    ensures
        finished_view(s).height() == out_height(s),
        finished_view(s).width == s.last.unwrap().width,
        finished_view(s).rows == body_rows(s) + footer_rows(s),
{
    if s.footer is None {
        assert(body_rows(s) + footer_rows(s) =~= finished_view(s).rows);
    }
}

/// The first frame pushed becomes the output as it is.
pub proof fn lemma_first_frame_is_output(s: StitchState, f: FrameView)
    requires
        stitcher_wf(s),
        s.last is None,
    ensures
        push_step(s, f).1 == PushResult::First,
        finished_view(push_step(s, f).0) == f,
        out_height(push_step(s, f).0) == f.height(),
{
}

/// A frame nearly equal to the last accepted one changes nothing at all.
pub proof fn lemma_duplicate_changes_nothing(s: StitchState, f: FrameView)
    requires
        s.last matches Some(last) && nearly_equal_spec(f, last),
    ensures
        push_step(s, f) == (s, PushResult::SkippedDuplicate),
{
}

/// A frame that is skipped (no scroll, or no trusted match) leaves the
/// output unchanged.
pub proof fn lemma_skip_keeps_output(s: StitchState, f: FrameView)
    requires
        stitcher_wf(s),
        s.last is Some,
        push_fits(s, f),
    ensures
        ({
            let (s2, r) = push_step(s, f);
            (r is SkippedDuplicate || r is SkippedLowConfidence) ==> finished_view(s2).rows
                == finished_view(s).rows && out_height(s2) == out_height(s)
        }),
{
    let last = s.last.unwrap();
    let (s2, r) = push_step(s, f);
    if !nearly_equal_spec(f, last) {
        lemma_with_sticky_keeps_output(s, last, f);
        let s1 = with_sticky(s, last, f);
        if r is SkippedDuplicate || r is SkippedLowConfidence {
            assert(body_rows(s2) == body_rows(s1));
            assert(footer_rows(s2) == footer_rows(s1));
            match s2.footer {
                Some(ft) => {},
                None => {
                    assert(body_rows(s2) + footer_rows(s2) =~= finished_view(s2).rows);
                },
            }
        }
    }
}

/// An appended frame adds exactly its new rows between what was stitched
/// before and the footer: nothing already stitched is rewritten, the footer
/// stays last, and the output grows by the reported row count (by the
/// effective frame height on a hard append).
pub proof fn lemma_append_extends_output(s: StitchState, f: FrameView)
    requires
        stitcher_wf(s),
        s.last is Some,
        push_fits(s, f),
    ensures
        ({
            let (s2, r) = push_step(s, f);
            let s1 = with_sticky(s, s.last.unwrap(), f);
            let e = effective_view(f, s2.sticky);
            &&& r matches PushResult::AppendedRows(d) ==> {
                &&& body_rows(s1) + footer_rows(s2) == finished_view(s).rows
                &&& d > 0
                &&& finished_view(s2).rows == body_rows(s1) + e.crop_rows(
                    e.height() - d,
                    d as int,
                ).rows + footer_rows(s2)
                &&& out_height(s2) == out_height(s) + d
            }
            &&& r is HardAppended ==> {
                &&& body_rows(s1) + footer_rows(s2) == finished_view(s).rows
                &&& finished_view(s2).rows == body_rows(s1) + e.rows + footer_rows(s2)
                &&& out_height(s2) == out_height(s) + e.height()
            }
        }),
{
    let last = s.last.unwrap();
    let (s2, r) = push_step(s, f);
    lemma_sticky_fits(last, f);
    if nearly_equal_spec(f, last) {
        assert(s2 == s);
        let s1 = with_sticky(s, last, f);
        lemma_with_sticky_keeps_output(s, last, f);
    } else {
        lemma_with_sticky_keeps_output(s, last, f);
        let s1 = with_sticky(s, last, f);
        assert(s2.sticky == s1.sticky);
        assert(s2.footer == s1.footer);
        let e = effective_view(f, s2.sticky);
        if r is AppendedRows || r is HardAppended {
            assert(s2.canvas is Some);
            if s2.footer is None {
                assert(body_rows(s2) + footer_rows(s2) =~= finished_view(s2).rows);
            }
            let ghost p = body_rows(s1);
            if let PushResult::AppendedRows(d) = r {
                assert(body_rows(s2) =~= p + e.crop_rows(e.height() - d, d as int).rows);
                assert(finished_view(s2).rows =~= p + e.crop_rows(e.height() - d, d as int).rows
                    + footer_rows(s2));
            } else {
                assert(body_rows(s2) =~= p + e.rows);
                assert(finished_view(s2).rows =~= p + e.rows + footer_rows(s2));
            }
        }
    }
}

/// The low-confidence streak counts consecutive unmatched frames and stays
/// below `max_lowconf_streak`: the frame that would reach it is hard-appended
/// instead, and any append resets the count.
pub proof fn lemma_lowconf_streak(s: StitchState, f: FrameView)
    requires
        stitcher_wf(s),
        s.last is Some,
        push_fits(s, f),
    ensures
        ({
            let (s2, r) = push_step(s, f);
            &&& r is SkippedLowConfidence ==> s2.lowconf_streak == s.lowconf_streak + 1
                && s2.lowconf_streak < s.cfg.max_lowconf_streak
            &&& (r is AppendedRows || r is HardAppended) ==> s2.lowconf_streak == 0
            &&& r is SkippedDuplicate ==> s2.lowconf_streak == s.lowconf_streak
        }),
{
}

/// The sticky bands are detected once: after that, every push keeps them
/// and the footer as they are.
pub proof fn lemma_sticky_detected_once(s: StitchState, f: FrameView)
    requires
        stitcher_wf(s),
        s.sticky is Some,
    ensures
        push_step(s, f).0.sticky == s.sticky,
        push_step(s, f).0.footer == s.footer,
{
}

/// A frame of a scrolling capture: a fixed header, the `v` rows of the
/// scrolled source starting at row `off`, and a fixed footer.
pub open spec fn framed(head: FrameView, src: FrameView, foot: FrameView, off: int, v: int) -> FrameView {
    FrameView { width: src.width, rows: head.rows + src.rows.subrange(off, off + v) + foot.rows }
}

/// Canvas and footer of a stitcher that has rebuilt the source down to row
/// `bottom`, under the header, with the footer kept apart.
pub open spec fn rebuilt_through(
    s: StitchState,
    head: FrameView,
    src: FrameView,
    foot: FrameView,
    bottom: int,
) -> bool {
    &&& s.canvas == Some(FrameView { width: src.width, rows: head.rows + src.rows.subrange(0, bottom) })
    &&& s.footer == (if foot.height() > 0 {
        Some(foot)
    } else {
        None
    })
    &&& s.sticky == Some((head.height() as u32, foot.height() as u32))
}

/// Header, source and footer fit together: equally wide, every height within
/// 32 bits.
pub open spec fn capture_parts(head: FrameView, src: FrameView, foot: FrameView, v: int) -> bool {
    &&& src.wf()
    &&& head.wf()
    &&& foot.wf()
    &&& head.width == src.width
    &&& foot.width == src.width
    &&& 0 <= v
    &&& head.height() + v + foot.height() <= u32::MAX
}

/// The stitcher rebuilds the scrolled content: when the last accepted frame
/// shows source rows `a..a + v` between a header and a footer, the output so
/// far is the header over the source's rows `0..a + v` (the footer kept
/// apart; on the first scrolled pair, with `a` = 0, still the first frame),
/// the sticky bands are the header and the footer, and the next frame (rows
/// `b..b + v`, `a < b <= a + v`) is matched at its true scroll distance
/// `b - a`, then the output becomes the header over the source's rows
/// `0..b + v`, with the footer kept apart.
pub proof fn lemma_true_scroll_rebuilds_source(
    s: StitchState,
    head: FrameView,
    src: FrameView,
    foot: FrameView,
    v: int,
    a: int,
    b: int,
)
    requires
        capture_parts(head, src, foot, v),
        0 <= a < b,
        b - a <= v,
        b + v <= src.height(),
        s.last == Some(framed(head, src, foot, a, v)),
        rebuilt_through(s, head, src, foot, a + v) || (a == 0 && s.sticky is None && s.footer is None
            && s.canvas == Some(framed(head, src, foot, a, v)) && sticky_spec(
            framed(head, src, foot, a, v),
            framed(head, src, foot, b, v),
        ) == (head.height() as u32, foot.height() as u32)),
        push_step(s, framed(head, src, foot, b, v)).1 == PushResult::AppendedRows((b - a) as u32),
    ensures
        rebuilt_through(push_step(s, framed(head, src, foot, b, v)).0, head, src, foot, b + v),
        push_step(s, framed(head, src, foot, b, v)).0.last == Some(framed(head, src, foot, b, v)),
{
    let last = framed(head, src, foot, a, v);
    let f = framed(head, src, foot, b, v);
    let hh = head.height() as int;
    let fh = foot.height() as int;
    let (s2, r) = push_step(s, f);
    assert(!nearly_equal_spec(f, last));
    let s1 = with_sticky(s, last, f);
    assert(s1.sticky == Some((hh as u32, fh as u32)));
    if s.sticky is None {
        let c = s.canvas.unwrap();
        assert(c.rows.len() == hh + v + fh);
        if fh > 0 {
            assert(c.crop_rows(hh + v, fh).rows =~= foot.rows);
            assert(c.crop_rows(0, hh + v).rows =~= head.rows + src.rows.subrange(0, a + v));
        } else {
            assert(foot.rows =~= Seq::<Seq<Rgba>>::empty());
            assert(c.rows =~= head.rows + src.rows.subrange(0, a + v));
        }
    }
    assert(rebuilt_through(s1, head, src, foot, a + v));
    let e = effective_view(f, s1.sticky);
    assert(e.rows =~= src.rows.subrange(b, b + v));
    let eff_h = effective_view(last, s1.sticky).height() as int;
    assert(effective_view(last, s1.sticky).rows =~= src.rows.subrange(a, a + v));
    assert(eff_h == v);
    let t = template_height_spec(eff_h, s.cfg);
    let m = scroll_match(s, s1, last, f);
    assert(m is Some && sp_ge(m.unwrap().1, s.cfg.min_confidence_bits));
    let delta = sat_sub(eff_h - t, m.unwrap().0 as int);
    assert(delta == b - a);
    assert(head.rows + src.rows.subrange(0, a + v) + e.crop_rows(eff_h - delta, delta).rows
        =~= head.rows + src.rows.subrange(0, b + v));
}

/// Pushes `frames` one after the other: the final state and the results.
pub open spec fn push_all(s: StitchState, frames: Seq<FrameView>) -> (StitchState, Seq<PushResult>)
    decreases frames.len(),
{
    if frames.len() == 0 {
        (s, Seq::empty())
    } else {
        let (s1, r) = push_step(s, frames[0]);
        let (s2, rs) = push_all(s1, frames.drop_first());
        (s2, seq![r] + rs)
    }
}

proof fn lemma_push_all_len(s: StitchState, frames: Seq<FrameView>)
    ensures
        push_all(s, frames).1.len() == frames.len(),
    decreases frames.len(),
{
    if frames.len() > 0 {
        lemma_push_all_len(push_step(s, frames[0]).0, frames.drop_first());
    }
}

/// The state of a stitcher that has seen no frame.
pub open spec fn fresh_state(cfg: StitchConfig) -> StitchState {
    StitchState {
        cfg,
        canvas: None,
        last: None,
        sticky: None,
        footer: None,
        last_delta: None,
        lowconf_streak: 0,
    }
}

/// The frames of a scrolling capture at the scroll offsets `offs`.
pub open spec fn capture_frames(
    head: FrameView,
    src: FrameView,
    foot: FrameView,
    v: int,
    offs: Seq<int>,
) -> Seq<FrameView> {
    Seq::new(offs.len(), |k: int| framed(head, src, foot, offs[k], v))
}

/// Offsets of a scroll from the top: starting at 0, strictly increasing,
/// each step at most a viewport, every viewport inside the source.
pub open spec fn scroll_offsets(src: FrameView, v: int, offs: Seq<int>) -> bool {
    &&& offs.len() >= 1
    &&& offs[0] == 0
    &&& forall|k: int| 0 <= k < offs.len() - 1 ==> offs[k] < #[trigger] offs[k + 1] <= offs[k] + v
    &&& forall|k: int| 0 <= k < offs.len() ==> 0 <= #[trigger] offs[k] && offs[k] + v <= src.height()
}

proof fn lemma_rebuild_suffix(
    s: StitchState,
    head: FrameView,
    src: FrameView,
    foot: FrameView,
    v: int,
    offs: Seq<int>,
    k: int,
)
    requires
        capture_parts(head, src, foot, v),
        scroll_offsets(src, v, offs),
        0 <= k < offs.len(),
        s.last == Some(framed(head, src, foot, offs[k], v)),
        rebuilt_through(s, head, src, foot, offs[k] + v) || (k == 0 && s.sticky is None
            && s.footer is None && s.canvas == Some(framed(head, src, foot, offs[k], v)) && (k + 1
            < offs.len() ==> sticky_spec(
            framed(head, src, foot, offs[k], v),
            framed(head, src, foot, offs[k + 1], v),
        ) == (head.height() as u32, foot.height() as u32))),
        forall|j: int|
            0 <= j < offs.len() - k - 1 ==> (#[trigger] push_all(
                s,
                capture_frames(head, src, foot, v, offs).subrange(k + 1, offs.len() as int),
            ).1[j]) == PushResult::AppendedRows((offs[k + 1 + j] - offs[k + j]) as u32),
    ensures
        ({
            let end = push_all(
                s,
                capture_frames(head, src, foot, v, offs).subrange(k + 1, offs.len() as int),
            ).0;
            ||| rebuilt_through(end, head, src, foot, offs.last() + v)
            ||| (offs.len() == 1 && end == s)
        }),
    decreases offs.len() - k,
{
    let fs = capture_frames(head, src, foot, v, offs);
    let rest = fs.subrange(k + 1, offs.len() as int);
    if k + 1 < offs.len() {
        assert(offs[k] < offs[k + 1] <= offs[k] + v);
        assert(0 <= offs[k] && offs[k + 1] + v <= src.height());
        let (s1, r) = push_step(s, rest[0]);
        assert(rest[0] == framed(head, src, foot, offs[k + 1], v));
        let (s2, rs) = push_all(s1, rest.drop_first());
        lemma_push_all_len(s1, rest.drop_first());
        assert(push_all(s, rest).1 == seq![r] + rs);
        assert(push_all(s, rest).1[0] == r);
        lemma_true_scroll_rebuilds_source(s, head, src, foot, v, offs[k], offs[k + 1]);
        assert(rest.drop_first() =~= fs.subrange(k + 2, offs.len() as int));
        assert forall|j: int| 0 <= j < offs.len() - (k + 1) - 1 implies (#[trigger] push_all(
            s1,
            fs.subrange(k + 2, offs.len() as int),
        ).1[j]) == PushResult::AppendedRows((offs[k + 1 + 1 + j] - offs[k + 1 + j]) as u32) by {
            assert(push_all(s, rest).1[j + 1] == rs[j]);
        }
        lemma_rebuild_suffix(s1, head, src, foot, v, offs, k + 1);
    } else {
        assert(rest.len() == 0);
    }
}

/// Stitching a scroll rebuilds the scrolled content exactly, with the sticky
/// header and footer once each: when the frames of a capture (a fixed
/// header, the source's rows at scroll offsets `offs`, a fixed footer) are
/// pushed into a fresh stitcher, the first scrolled pair's sticky bands are
/// the header and the footer, and every frame after the first is matched at
/// its true scroll distance, `finish` returns the header, the source's rows
/// from the top to the bottom of the last viewport, and the footer.
pub proof fn lemma_true_scrolls_rebuild_source(
    cfg: StitchConfig,
    head: FrameView,
    src: FrameView,
    foot: FrameView,
    v: int,
    offs: Seq<int>,
)
    requires
        capture_parts(head, src, foot, v),
        scroll_offsets(src, v, offs),
        offs.len() >= 2 ==> sticky_spec(
            framed(head, src, foot, offs[0], v),
            framed(head, src, foot, offs[1], v),
        ) == (head.height() as u32, foot.height() as u32),
        forall|k: int|
            1 <= k < offs.len() ==> (#[trigger] push_all(
                fresh_state(cfg),
                capture_frames(head, src, foot, v, offs),
            ).1[k]) == PushResult::AppendedRows((offs[k] - offs[k - 1]) as u32),
    ensures
        push_all(fresh_state(cfg), capture_frames(head, src, foot, v, offs)).1[0]
            == PushResult::First,
        finished_view(push_all(fresh_state(cfg), capture_frames(head, src, foot, v, offs)).0).rows
            == head.rows + src.rows.subrange(0, offs.last() + v) + foot.rows,
{
    let fs = capture_frames(head, src, foot, v, offs);
    let s0 = fresh_state(cfg);
    let (s1, r) = push_step(s0, fs[0]);
    let (s2, rs) = push_all(s1, fs.drop_first());
    lemma_push_all_len(s1, fs.drop_first());
    assert(push_all(s0, fs).1 == seq![r] + rs);
    assert(fs.drop_first() =~= fs.subrange(1, offs.len() as int));
    assert(fs[0] == framed(head, src, foot, 0, v));
    assert forall|j: int| 0 <= j < offs.len() - 0 - 1 implies (#[trigger] push_all(
        s1,
        fs.subrange(1, offs.len() as int),
    ).1[j]) == PushResult::AppendedRows((offs[0 + 1 + j] - offs[0 + j]) as u32) by {
        assert(push_all(s0, fs).1[j + 1] == rs[j]);
    }
    lemma_rebuild_suffix(s1, head, src, foot, v, offs, 0);
    let end = push_all(s1, fs.subrange(1, offs.len() as int)).0;
    if offs.len() == 1 {
        assert(finished_view(end).rows =~= head.rows + src.rows.subrange(0, offs.last() + v)
            + foot.rows);
    } else if foot.height() > 0 {
        assert(finished_view(end).rows =~= head.rows + src.rows.subrange(0, offs.last() + v)
            + foot.rows);
    } else {
        assert(foot.rows =~= Seq::<Seq<Rgba>>::empty());
        assert(finished_view(end).rows =~= head.rows + src.rows.subrange(0, offs.last() + v)
            + foot.rows);
    }
}

} // verus!
