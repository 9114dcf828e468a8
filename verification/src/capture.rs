//! What a screen capture hands back: the temporary file it was written to
//! and its pixel dimensions. The capture itself runs an operating-system
//! utility and is the application's; the naming and recognition of the
//! temporary files it leaves behind are verified in `paths`.

use vstd::prelude::*;

verus! {

/// One captured screenshot, before it is annotated or saved.
pub struct CaptureResult {
    pub temp_path: String,
    pub width: u32,
    pub height: u32,
}

} // verus!
