//! Screen Recording permission, on platforms without a permission gate.
//! (On macOS the shell asks CoreGraphics instead.)

use vstd::prelude::*;

verus! {

/// Whether screen capture is permitted: always, where no gate exists.
pub fn has_screen_recording() -> (granted: bool)
    ensures
        granted,
{
    true
}

/// Asks for screen-capture permission: granted at once where no gate
/// exists.
pub fn request_screen_recording() -> (granted: bool)
    ensures
        granted,
{
    true
}

} // verus!
