//! What the blur refuses.

use vstd::prelude::*;

verus! {

/// Why a buffer was not blurred.
#[derive(Clone, Copy, Debug, PartialEq, Eq, Structural)]
pub enum BlurError {
    /// The buffer holds fewer than `width * height` pixels.
    InvalidGeometry {
        /// The number of pixels in the buffer.
        len: usize,
        /// The width that was asked for.
        width: usize,
        /// The height that was asked for.
        height: usize,
    },
}

impl BlurError {
    /// A sentence that says what went wrong.
    pub fn describe(&self) -> (text: &'static str)
        ensures
            text@ == "the buffer holds fewer pixels than width * height"@,
    {
        match self {
            BlurError::InvalidGeometry { .. } => {
                "the buffer holds fewer pixels than width * height"
            },
        }
    }
}

} // verus!
