//! The blur, with a window whose sums are computed afresh for every pixel
//! (see `blurstack`). It costs a walk over the window per pixel and gives,
//! pixel for pixel, what the blur with the sliding window gives.
//!
//! All four channels are blurred and the sums are divided exactly.
//!
//! Width, height and radius must not be zero. That is the caller's to see
//! to; nothing here tests it. A radius above `MAX_RADIUS` is blurred with
//! `MAX_RADIUS`.

use crate::error::BlurError;
use crate::grid::blur_grid;
use crate::grid::blur_rows;
use crate::grid::holds_grid;
use crate::grid::lemma_place;
use crate::options::clamp_radius;
use crate::options::effective_radius;
use crate::options::Options;
use crate::pass::pass_columns;
use crate::pass::pass_rows;
use crate::pass::Update;
use vstd::prelude::*;

verus! {

/// Performs a horizontal pass of stackblur over every whole row of `width`
/// pixels that `src` holds. Pixels behind the last whole row stay as they
/// are.
pub fn blur_horiz(src: &mut [u32], width: usize, radius: u8)
    requires
        width >= 1,
        radius >= 1,
    ensures
        final(src)@ == blur_rows(
            old(src)@,
            width as int,
            old(src)@.len() as int / width as int,
            effective_radius(radius),
            Options::standard(),
        ),
{
    let rows = src.len() / width;
    proof {
        lemma_place(src@.len() as int, width as int);
        assert(width * rows == rows * width) by (nonlinear_arith);
    }
    pass_rows(src, width, rows, clamp_radius(radius), Options::default(), Update::Recomputed);
}

/// Performs a pass of stackblur in both directions over the grid of `width`
/// by `height` pixels at the start of `src`: rows first, then columns. A
/// buffer that is too short for the grid is refused and left as it is.
/// Pixels behind the grid stay as they are.
pub fn blur(src: &mut [u32], width: usize, height: usize, radius: u8) -> (res: Result<
    (),
    BlurError,
>)
    requires
        width >= 1,
        height >= 1,
        radius >= 1,
    ensures
        res is Ok <==> width * height <= old(src)@.len(),
        res is Ok ==> final(src)@ == blur_grid(
            old(src)@,
            width as int,
            height as int,
            effective_radius(radius),
            Options::standard(),
        ),
        res is Err ==> final(src)@ == old(src)@ && res == Err::<(), BlurError>(
            BlurError::InvalidGeometry { len: old(src)@.len() as usize, width, height },
        ),
{
    let len = src.len();
    if !holds_grid(len, width, height) {
        return Err(BlurError::InvalidGeometry { len, width, height });
    }
    let r = clamp_radius(radius);
    let o = Options::default();
    pass_rows(src, width, height, r, o, Update::Recomputed);
    pass_columns(src, width, height, r, o, Update::Recomputed);
    Ok(())
}

} // verus!
