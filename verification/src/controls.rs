//! The frame-by-frame decisions the key handlers make: flipping a flag when
//! its key was just pressed, and choosing every block's visibility from the
//! hide flag.

use vstd::prelude::*;

verus! {

/// Whether a spawned block is drawn this frame.
#[derive(PartialEq, Eq, Structural, Clone, Copy, Debug)]
pub enum BlockVisibility {
    Visible,
    Hidden,
}

/// A toggle flag after this frame's key state: a press flips it, anything
/// else leaves it.  Both the camera-enable key and the hide key use this.
pub fn toggled(current: bool, pressed: bool) -> (r: bool)
    ensures
        r == (if pressed {
            !current
        } else {
            current
        }),
{
    if pressed {
        !current
    } else {
        current
    }
}

/// The visibility every spawned block gets while the hide flag holds.
pub fn visibility_for(hide: bool) -> (r: BlockVisibility)
    ensures
        r == (if hide {
            BlockVisibility::Hidden
        } else {
            BlockVisibility::Visible
        }),
{
    if hide {
        BlockVisibility::Hidden
    } else {
        BlockVisibility::Visible
    }
}

} // verus!
