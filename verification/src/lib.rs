//! Fast gaussian blur approximation: the StackBlur algorithm on buffers of
//! packed 32-bit pixels, in place, in integer arithmetic.
//!
//! A blur is a horizontal pass over every row followed by a vertical pass
//! over every column. Each pass replaces a pixel by the weighted mean of the
//! `2r + 1` pixels around it on its line, weighted `1, 2, .., r + 1, .., 2, 1`.
//! Beyond the ends of a line its first and its last pixel are repeated.
//!
//! Input is expected to be in linear RGB color space.

pub mod blur;
pub mod blurstack;
pub mod columns;
pub mod error;
pub mod grid;
pub mod kernel;
pub mod laws;
pub mod line;
pub mod options;
pub mod pass;
pub mod pixel;
pub mod recompute;
pub mod window;

pub use blur::blur;
pub use blur::blur_horiz;
pub use blur::blur_vert;
