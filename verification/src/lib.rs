//! Verified core of the DigitShot screenshot tool: the scrolling-capture
//! frame stitcher, its image model, capture naming rules and the small
//! decisions the capture pipeline makes.

pub mod capture;
pub mod clipboard;
pub mod editor;
pub mod frame;
pub mod permissions;
pub mod score_bits;
pub mod scrolling;
pub mod stitch;
pub mod stitch_laws;
pub mod vision;

use vstd::prelude::*;

verus! {

} // verus!
