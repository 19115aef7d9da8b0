//! The blur of one line of pixels, a row or a column, in place.
//!
//! The pixel at position `i` of the blurred line is what the window centred
//! on `i` gives out. Where the window reaches past an end of the line, the
//! pixel at that end stands in for what is not there.

use crate::blurstack::BlurStack;
use crate::columns::Line;
use crate::kernel::channel_is;
use crate::kernel::lemma_tent_sum_bound;
use crate::kernel::lemma_tent_sum_same_channel;
use crate::kernel::lemma_tent_sum_uniform;
use crate::kernel::lemma_tent_sum_within;
use crate::kernel::same_channel;
use crate::kernel::slide;
use crate::kernel::tent_sum;
use crate::kernel::within;
use crate::options::Divisor;
use crate::options::lemma_quotient_of_multiple;
use crate::options::lemma_quotients_close;
use crate::options::Options;
use crate::options::Scaler;
use crate::pixel::Channel;
use crate::pixel::channel;
use crate::pixel::lemma_channel_bound;
use crate::window::blurred;
use crate::window::lemma_blurred_channel;
use crate::window::lemma_step_is_recomputation;
use crate::window::lemma_uniform_is_recomputation;
use crate::window::resolve;
use crate::window::resolved;
use crate::window::Sums;
use crate::window::sums_after;
use crate::window::sums_of;
use crate::window::uniform_sums;
use crate::window::Window;
use vstd::prelude::*;

verus! {

/// The index `j` brought into `0..n`: indices before the line become the
/// first index, indices after it the last.
pub open spec fn clamp_index(j: int, n: int) -> int {
    if j < 0 {
        0
    } else if j >= n {
        n - 1
    } else {
        j
    }
}

/// The sample at index `j` of a line whose ends are replicated.
pub open spec fn sample(line: Seq<u32>, j: int) -> u32 {
    line[clamp_index(j, line.len() as int)]
}

/// The window of radius `r` centred on index `i`: the samples at
/// `i - r ..= i + r`.
pub open spec fn window_at(line: Seq<u32>, r: int, i: int) -> Seq<u32> {
    Seq::new((2 * r + 1) as nat, |k: int| sample(line, i - r + k))
}

/// The line blurred with radius `r`.
pub open spec fn blurred_line(line: Seq<u32>, r: int, o: Options) -> Seq<u32> {
    Seq::new(line.len(), |i: int| blurred(window_at(line, r, i), r, o))
}

/// The window centred on `i + 1` is the window centred on `i`, slid on by
/// the sample at `i + r + 1`.
pub proof fn lemma_window_slide(line: Seq<u32>, r: int, i: int)
    requires
        0 <= r,
    ensures
        slide(window_at(line, r, i), sample(line, i + r + 1)) == window_at(line, r, i + 1),
{
    assert(slide(window_at(line, r, i), sample(line, i + r + 1)) =~= window_at(line, r, i + 1));
}

/// The window that lies `r` places before the start of the line holds the
/// first pixel throughout.
pub proof fn lemma_window_before_start(line: Seq<u32>, r: int)
    requires
        0 <= r,
        line.len() >= 1,
    ensures
        window_at(line, r, -r) == Seq::new((2 * r + 1) as nat, |k: int| line[0]),
{
    assert(window_at(line, r, -r) =~= Seq::new((2 * r + 1) as nat, |k: int| line[0]));
}

/// The sums that the sliding window holds of channel `ch` when it is
/// centred on index `i`. They are made step by step: from the sums of the
/// window of equal samples that lies `r` places before the line, by one
/// `sums_after` for every place that the window has moved on.
pub open spec fn slid_sums(line: Seq<u32>, r: int, i: int, ch: Channel) -> Sums
    decreases i + r,
{
    if i <= -r {
        uniform_sums(channel(line[0], ch) as int, r)
    } else {
        sums_after(
            slid_sums(line, r, i - 1, ch),
            channel(sample(line, i - 1 - r), ch) as int,
            channel(sample(line, i), ch) as int,
            channel(sample(line, i + r), ch) as int,
        )
    }
}

/// Sliding and recomputing agree. At every index of every line, the sums
/// that the window has kept up to date step by step are the sums that are
/// computed afresh from the samples around that index. What is made of the
/// sums is therefore the same pixel, whichever way they were had.
pub proof fn lemma_sliding_is_recomputing(line: Seq<u32>, r: int, i: int, ch: Channel)
    requires
        line.len() >= 1,
        1 <= r,
        -r <= i,
    ensures
        slid_sums(line, r, i, ch) == sums_of(window_at(line, r, i), ch),
    decreases i + r,
{
    if i <= -r {
        lemma_window_before_start(line, r);
        lemma_uniform_is_recomputation(window_at(line, r, -r), line[0], ch, r);
    } else {
        let w = window_at(line, r, i - 1);
        lemma_sliding_is_recomputing(line, r, i - 1, ch);
        lemma_step_is_recomputation(w, sample(line, i + r), ch, r);
        lemma_window_slide(line, r, i - 1);
        assert(w[0] == sample(line, i - 1 - r));
        assert(w[r + 1] == sample(line, i));
    }
}

/// The pixel that the sliding window gives out at index `i`: made of the
/// sums it has kept up to date, and of the pixel in its middle.
pub open spec fn slid_pixel(line: Seq<u32>, r: int, i: int, o: Options) -> u32 {
    resolved(
        (
            slid_sums(line, r, i, Channel::Alpha).sum,
            slid_sums(line, r, i, Channel::Red).sum,
            slid_sums(line, r, i, Channel::Green).sum,
            slid_sums(line, r, i, Channel::Blue).sum,
        ),
        line[i],
        r,
        o,
    )
}

/// Sliding and recomputing give the same pixels: what the sliding window
/// gives out at an index of a line is the pixel of the blurred line there,
/// bit for bit.
pub proof fn lemma_slid_pixel(line: Seq<u32>, r: int, i: int, o: Options)
    requires
        1 <= r,
        0 <= i < line.len(),
    ensures
        slid_pixel(line, r, i, o) == blurred_line(line, r, o)[i],
{
    lemma_sliding_is_recomputing(line, r, i, Channel::Alpha);
    lemma_sliding_is_recomputing(line, r, i, Channel::Red);
    lemma_sliding_is_recomputing(line, r, i, Channel::Green);
    lemma_sliding_is_recomputing(line, r, i, Channel::Blue);
    assert(window_at(line, r, i)[r] == line[i]);
}

/// A channel of the blurred line depends on that channel of the line
/// alone: two lines that agree in channel `ch` agree in it when blurred.
pub proof fn lemma_line_same_channel(a: Seq<u32>, b: Seq<u32>, r: int, o: Options, ch: Channel)
    requires
        same_channel(a, b, ch),
        0 <= r <= 254,
    ensures
        same_channel(blurred_line(a, r, o), blurred_line(b, r, o), ch),
{
    let blurred_a = blurred_line(a, r, o);
    let blurred_b = blurred_line(b, r, o);
    assert forall|i: int| 0 <= i < a.len() implies channel(#[trigger] blurred_a[i], ch) == channel(
        blurred_b[i],
        ch,
    ) by {
        let wa = window_at(a, r, i);
        let wb = window_at(b, r, i);
        assert(same_channel(wa, wb, ch)) by {
            assert forall|k: int| 0 <= k < wa.len() implies channel(#[trigger] wa[k], ch)
                == channel(wb[k], ch) by {
                let j = clamp_index(i - r + k, a.len() as int);
                assert(channel(a[j], ch) == channel(b[j], ch));
            }
        }
        lemma_tent_sum_same_channel(wa, wb, ch);
        lemma_blurred_channel(wa, r, o, ch);
        lemma_blurred_channel(wb, r, o, ch);
    }
}

/// A channel that has one value along the whole line keeps it when the
/// line is blurred.
pub proof fn lemma_line_constant_channel(line: Seq<u32>, r: int, o: Options, ch: Channel, c: int)
    requires
        channel_is(line, ch, c),
        0 <= r <= 254,
    ensures
        channel_is(blurred_line(line, r, o), ch, c),
{
    let done = blurred_line(line, r, o);
    assert forall|i: int| 0 <= i < done.len() implies #[trigger] channel(done[i], ch) == c by {
        let w = window_at(line, r, i);
        assert(channel_is(w, ch, c)) by {
            assert forall|k: int| 0 <= k < w.len() implies #[trigger] channel(w[k], ch) == c by {
                let j = clamp_index(i - r + k, line.len() as int);
                assert(channel(line[j], ch) == c);
            }
        }
        assert(channel(line[0], ch) == c);
        lemma_channel_bound(line[0], ch);
        lemma_tent_sum_uniform(w, ch, c, r);
        lemma_quotient_of_multiple(c, r, o.divisor);
        lemma_blurred_channel(w, r, o, ch);
        assert(channel(w[r], ch) == c);
    }
}

/// Where a channel of every pixel of line `b` is that of line `a` or up to
/// `d` more, the same channel of `b` blurred with multiply-and-shift is that
/// of `a` blurred with exact division, or up to `d + 1` more.
pub proof fn lemma_line_close(
    a: Seq<u32>,
    b: Seq<u32>,
    r: int,
    blur_alpha: bool,
    ch: Channel,
    d: int,
)
    requires
        within(a, b, ch, d),
        0 <= d,
        1 <= r <= 254,
    ensures
        within(
            blurred_line(a, r, (Options { blur_alpha, divisor: Divisor::Exact })),
            blurred_line(b, r, (Options { blur_alpha, divisor: Divisor::MulShift })),
            ch,
            d + 1,
        ),
{
    let exact = Options { blur_alpha, divisor: Divisor::Exact };
    let shifted = Options { blur_alpha, divisor: Divisor::MulShift };
    let blurred_a = blurred_line(a, r, exact);
    let blurred_b = blurred_line(b, r, shifted);
    assert forall|i: int| 0 <= i < a.len() implies channel(#[trigger] blurred_a[i], ch) <= channel(
        blurred_b[i],
        ch,
    ) <= channel(blurred_a[i], ch) + d + 1 by {
        let wa = window_at(a, r, i);
        let wb = window_at(b, r, i);
        assert(within(wa, wb, ch, d)) by {
            assert forall|k: int| 0 <= k < wa.len() implies channel(#[trigger] wa[k], ch)
                <= channel(wb[k], ch) <= channel(wa[k], ch) + d by {
                let j = clamp_index(i - r + k, a.len() as int);
                assert(channel(a[j], ch) <= channel(b[j], ch) <= channel(a[j], ch) + d);
            }
        }
        lemma_tent_sum_within(wa, wb, ch, d, r);
        lemma_tent_sum_bound(wa, ch, r);
        lemma_tent_sum_bound(wb, ch, r);
        lemma_quotients_close(tent_sum(wa, ch), tent_sum(wb, ch), r, d);
        lemma_blurred_channel(wa, r, exact, ch);
        lemma_blurred_channel(wb, r, shifted, ch);
        assert(channel(wa[r], ch) <= channel(wb[r], ch) <= channel(wa[r], ch) + d);
    }
}

/// The next sample to enter the window, read from the buffer if the line
/// has one more cell ahead, else the last pixel of the line again.
fn take_ahead(src: &[u32], line: &Line, lead: &mut usize, lead_pos: &mut usize, last: u32) -> (x:
    u32)
    requires
        line.fits(src@.len() as int),
        *old(lead) < line.count,
        *old(lead_pos) == line.position(*old(lead) as int),
    ensures
        *final(lead) == if *old(lead) + 1 < line.count {
            *old(lead) + 1
        } else {
            *old(lead) as int
        },
        *final(lead_pos) == line.position(*final(lead) as int),
        x == if *old(lead) + 1 < line.count {
            src@[line.position(*final(lead) as int)]
        } else {
            last
        },
{
    if *lead + 1 < line.count {
        proof {
            line.lemma_position_step(*lead as int);
            line.lemma_position_in_bounds(src@.len() as int, *lead + 1);
            assert(*lead_pos + line.stride < src.len());
        }
        *lead = *lead + 1;
        *lead_pos = *lead_pos + line.stride;
        src[*lead_pos]
    } else {
        last
    }
}

/// Blurs the cells of `line` in `src`, in place, with the radius and the
/// way of dividing that `scaler` was made for, and leaves the rest of `src`
/// as it was. The weighted sums are kept up to date from one pixel to the
/// next.
pub fn blur_line(src: &mut [u32], line: &Line, scaler: &Scaler, blur_alpha: bool)
    requires
        line.fits(old(src)@.len() as int),
        line.count >= 1,
        scaler.wf(),
    ensures
        final(src)@ == line.scatter(
            old(src)@,
            blurred_line(
                line.cells(old(src)@),
                scaler.radius() as int,
                scaler.options(blur_alpha),
            ),
        ),
{
    let radius = scaler.radius();
    let ghost o = scaler.options(blur_alpha);
    proof {
        scaler.lemma_radius();
    }
    let ghost orig = src@;
    let ghost cells = line.cells(orig);
    let ghost r = radius as int;
    let ghost out = blurred_line(cells, r, o);
    let ghost len = orig.len() as int;
    let count = line.count;
    proof {
        line.lemma_position_in_bounds(len, 0);
        line.lemma_position_in_bounds(len, count - 1);
        assert(line.position(0) == line.start) by {
            assert(0 * (line.stride as int) == 0) by (nonlinear_arith);
        }
        assert((count - 1) * line.stride == line.position(count - 1) - line.start);
    }
    let first = src[line.start];
    let last = src[line.start + (count - 1) * line.stride];
    // read ahead
    let mut ahead: Vec<u32> = Vec::with_capacity(radius as usize);
    let mut lead: usize = 0;
    let mut lead_pos: usize = line.start;
    let mut t: u32 = 0;
    while t < radius
        invariant
            src@ == orig,
            line.fits(len),
            len == orig.len(),
            cells == line.cells(orig),
            count == line.count,
            count >= 1,
            r == radius,
            1 <= radius <= 254,
            t <= radius,
            last == orig[line.position(count - 1)],
            ahead@ == Seq::new(t as nat, |k: int| sample(cells, k + 1)),
            lead == clamp_index(t as int, count as int),
            lead_pos == line.position(lead as int),
        decreases radius - t,
    {
        let incoming = take_ahead(src, line, &mut lead, &mut lead_pos, last);
        ahead.push(incoming);
        proof {
            assert(incoming == sample(cells, t + 1));
            assert(ahead@ =~= Seq::new((t + 1) as nat, |k: int| sample(cells, k + 1)));
        }
        t += 1;
    }
    let mut win = Window::seed(first, ahead.as_slice());
    proof {
        assert(win@ =~= window_at(cells, r, 0));
    }
    let mut i: usize = 0;
    let mut pos: usize = line.start;
    while i < count
        invariant
            line.fits(len),
            len == orig.len(),
            src@.len() == len,
            cells == line.cells(orig),
            out == blurred_line(cells, r, o),
            count == line.count,
            count >= 1,
            r == radius,
            1 <= radius <= 254,
            last == orig[line.position(count - 1)],
            scaler.wf(),
            scaler.radius() == r,
            o == scaler.options(blur_alpha),
            i <= count,
            i < count ==> pos == line.position(i as int),
            win.wf(),
            win.radius() == r,
            win@ == window_at(cells, r, i as int),
            lead == clamp_index(i + r, count as int),
            lead_pos == line.position(lead as int),
            forall|k: int| 0 <= k < i ==> src@[#[trigger] line.position(k)] == out[k],
            forall|k: int| i <= k < count ==> src@[#[trigger] line.position(k)] == cells[k],
            forall|p: int| 0 <= p < len && !line.contains(p) ==> src@[p] == orig[p],
        decreases count - i,
    {
        let ghost before = src@;
        proof {
            line.lemma_position_in_bounds(len, i as int);
            line.lemma_contains_position(i as int);
        }
        src[pos] = win.current_output(scaler, blur_alpha);
        proof {
            assert forall|k: int| 0 <= k < count && k != i implies src@[#[trigger] line.position(
                k,
            )] == before[line.position(k)] by {
                if k < i {
                    line.lemma_position_monotone(k, i as int);
                } else {
                    line.lemma_position_monotone(i as int, k);
                }
                line.lemma_position_in_bounds(len, k);
            }
            assert(src@[line.position(i as int)] == out[i as int]);
        }
        let incoming = take_ahead(src, line, &mut lead, &mut lead_pos, last);
        proof {
            assert(lead == clamp_index(i + 1 + r, count as int));
            assert(incoming == sample(cells, i + r + 1));
            lemma_window_slide(cells, r, i as int);
        }
        win.advance(incoming);
        i += 1;
        if i < count {
            proof {
                line.lemma_position_step(i - 1);
                line.lemma_position_in_bounds(len, i as int);
            }
            pos += line.stride;
        }
    }
    proof {
        let done = line.scatter(orig, out);
        assert forall|p: int| 0 <= p < len implies src@[p] == done[p] by {
            if line.contains(p) {
                line.lemma_position_of_contained(p);
            }
        }
        assert(src@ =~= done);
    }
}

/// Blurs the cells of `line` in `src`, in place, with the radius and the
/// way of dividing that `scaler` was made for, and leaves the rest of `src`
/// as it was. The weighted sums are computed afresh from the window for
/// every pixel.
pub fn blur_line_recomputed(src: &mut [u32], line: &Line, scaler: &Scaler, blur_alpha: bool)
    requires
        line.fits(old(src)@.len() as int),
        line.count >= 1,
        scaler.wf(),
    ensures
        final(src)@ == line.scatter(
            old(src)@,
            blurred_line(
                line.cells(old(src)@),
                scaler.radius() as int,
                scaler.options(blur_alpha),
            ),
        ),
{
    let radius = scaler.radius();
    let ghost o = scaler.options(blur_alpha);
    proof {
        scaler.lemma_radius();
    }
    let ghost orig = src@;
    let ghost cells = line.cells(orig);
    let ghost r = radius as int;
    let ghost out = blurred_line(cells, r, o);
    let ghost len = orig.len() as int;
    let ghost seeded = window_at(cells, r, 0);
    let count = line.count;
    proof {
        line.lemma_position_in_bounds(len, 0);
        line.lemma_position_in_bounds(len, count - 1);
        assert(line.position(0) == line.start) by {
            assert(0 * (line.stride as int) == 0) by (nonlinear_arith);
        }
        assert((count - 1) * line.stride == line.position(count - 1) - line.start);
    }
    let first = src[line.start];
    let last = src[line.start + (count - 1) * line.stride];
    let mut queue = BlurStack::with_capacity(2 * (radius as usize) + 1);
    // fill with the first pixel
    let mut t: u32 = 0;
    while t <= radius
        invariant
            1 <= radius <= 254,
            r == radius,
            t <= radius + 1,
            count >= 1,
            cells.len() == count,
            first == cells[0],
            seeded == window_at(cells, r, 0),
            queue@ == seeded.subrange(0, t as int),
        decreases radius + 1 - t,
    {
        queue.push_back(first);
        proof {
            assert(queue@ =~= seeded.subrange(0, t + 1));
        }
        t += 1;
    }
    // fill with the pixels ahead
    let mut lead: usize = 0;
    let mut lead_pos: usize = line.start;
    let mut t: u32 = 0;
    while t < radius
        invariant
            src@ == orig,
            line.fits(len),
            len == orig.len(),
            cells == line.cells(orig),
            count == line.count,
            count >= 1,
            r == radius,
            1 <= radius <= 254,
            t <= radius,
            last == orig[line.position(count - 1)],
            seeded == window_at(cells, r, 0),
            queue@ == seeded.subrange(0, r + 1 + t),
            lead == clamp_index(t as int, count as int),
            lead_pos == line.position(lead as int),
        decreases radius - t,
    {
        let incoming = take_ahead(src, line, &mut lead, &mut lead_pos, last);
        queue.push_back(incoming);
        proof {
            assert(incoming == sample(cells, t + 1));
            assert(queue@ =~= seeded.subrange(0, r + 1 + t + 1));
        }
        t += 1;
    }
    proof {
        assert(queue@ =~= seeded);
    }
    let mut i: usize = 0;
    let mut pos: usize = line.start;
    while i < count
        invariant
            line.fits(len),
            len == orig.len(),
            src@.len() == len,
            cells == line.cells(orig),
            out == blurred_line(cells, r, o),
            count == line.count,
            count >= 1,
            r == radius,
            1 <= radius <= 254,
            last == orig[line.position(count - 1)],
            scaler.wf(),
            scaler.radius() == r,
            o == scaler.options(blur_alpha),
            i <= count,
            i < count ==> pos == line.position(i as int),
            queue@ == window_at(cells, r, i as int),
            lead == clamp_index(i + r, count as int),
            lead_pos == line.position(lead as int),
            forall|k: int| 0 <= k < i ==> src@[#[trigger] line.position(k)] == out[k],
            forall|k: int| i <= k < count ==> src@[#[trigger] line.position(k)] == cells[k],
            forall|p: int| 0 <= p < len && !line.contains(p) ==> src@[p] == orig[p],
        decreases count - i,
    {
        let ghost before = src@;
        let ghost window = queue@;
        proof {
            line.lemma_position_in_bounds(len, i as int);
            line.lemma_contains_position(i as int);
            lemma_tent_sum_bound(window, Channel::Alpha, r);
            lemma_tent_sum_bound(window, Channel::Red, r);
            lemma_tent_sum_bound(window, Channel::Green, r);
            lemma_tent_sum_bound(window, Channel::Blue, r);
        }
        // set pixel
        let sums = queue.sums();
        let center = src[pos];
        assert(center == window[r]);
        src[pos] = resolve(sums, center, scaler, blur_alpha);
        proof {
            assert forall|k: int| 0 <= k < count && k != i implies src@[#[trigger] line.position(
                k,
            )] == before[line.position(k)] by {
                if k < i {
                    line.lemma_position_monotone(k, i as int);
                } else {
                    line.lemma_position_monotone(i as int, k);
                }
                line.lemma_position_in_bounds(len, k);
            }
            assert(src@[line.position(i as int)] == out[i as int]);
        }
        // drop the trailing edge of the kernel
        let _ = queue.pop_front();
        // add the leading edge of the kernel
        let incoming = take_ahead(src, line, &mut lead, &mut lead_pos, last);
        queue.push_back(incoming);
        proof {
            assert(lead == clamp_index(i + 1 + r, count as int));
            assert(incoming == sample(cells, i + r + 1));
            lemma_window_slide(cells, r, i as int);
            assert(queue@ == slide(window, incoming));
        }
        i += 1;
        if i < count {
            proof {
                line.lemma_position_step(i - 1);
                line.lemma_position_in_bounds(len, i as int);
            }
            pos += line.stride;
        }
    }
    proof {
        let done = line.scatter(orig, out);
        assert forall|p: int| 0 <= p < len implies src@[p] == done[p] by {
            if line.contains(p) {
                line.lemma_position_of_contained(p);
            }
        }
        assert(src@ =~= done);
    }
}

} // verus!
