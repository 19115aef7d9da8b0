//! The sliding window: `2r + 1` samples and, per channel, three running sums
//! that are brought up to date in constant time when the window moves on.
//!
//! Per channel the window keeps the weighted sum of its samples, the plain
//! sum of its first `r + 1` samples (those whose weight falls at the next
//! step) and the plain sum of its last `r` samples (those whose weight
//! rises). One step subtracts the first plain sum from the weighted sum and
//! adds the second, then moves one sample from the second to the first.

use crate::kernel::channel_is;
use crate::kernel::divisor;
use crate::kernel::lemma_plain_sum_bound;
use crate::kernel::lemma_plain_sum_uniform;
use crate::kernel::lemma_slide;
use crate::kernel::lemma_tent_sum_bound;
use crate::kernel::lemma_tent_sum_uniform;
use crate::kernel::plain_sum;
use crate::kernel::slide;
use crate::kernel::tent_sum;
use crate::options::lemma_quotient_bound;
use crate::options::Options;
use crate::options::quotient;
use crate::options::Scaler;
use crate::pixel::alpha;
use crate::pixel::blue;
use crate::pixel::Channel;
use crate::pixel::channel;
use crate::pixel::green;
use crate::pixel::lemma_channel_bound;
use crate::pixel::lemma_channel_of_pack;
use crate::pixel::pack;
use crate::pixel::pixel;
use crate::pixel::red;
use std::collections::VecDeque;
use vstd::prelude::*;

verus! {

/// The pixel that a window `w` of radius `r` gives out: per channel the
/// weighted sum of the window, divided as `o.divisor` says; where alpha is
/// not blurred, the alpha of the sample in the middle.
pub open spec fn blurred(w: Seq<u32>, r: int, o: Options) -> u32 {
    resolved(
        (
            tent_sum(w, Channel::Alpha),
            tent_sum(w, Channel::Red),
            tent_sum(w, Channel::Green),
            tent_sum(w, Channel::Blue),
        ),
        w[r],
        r,
        o,
    )
}

/// The pixel made of the four weighted sums `sums`, alpha first, and of the
/// pixel `center` whose alpha is kept where alpha is not blurred.
pub open spec fn resolved(sums: (int, int, int, int), center: u32, r: int, o: Options) -> u32 {
    pack(
        if o.blur_alpha {
            quotient(sums.0, r, o.divisor) as u32
        } else {
            channel(center, Channel::Alpha)
        },
        quotient(sums.1, r, o.divisor) as u32,
        quotient(sums.2, r, o.divisor) as u32,
        quotient(sums.3, r, o.divisor) as u32,
    )
}

/// Divides the four weighted sums of a window and packs the pixel.
pub fn resolve(sums: (u32, u32, u32, u32), center: u32, scaler: &Scaler, blur_alpha: bool) -> (p:
    u32)
    requires
        scaler.wf(),
        sums.0 <= 255 * divisor(scaler.radius() as int),
        sums.1 <= 255 * divisor(scaler.radius() as int),
        sums.2 <= 255 * divisor(scaler.radius() as int),
        sums.3 <= 255 * divisor(scaler.radius() as int),
    ensures
        p == resolved(
            (sums.0 as int, sums.1 as int, sums.2 as int, sums.3 as int),
            center,
            scaler.radius() as int,
            scaler.options(blur_alpha),
        ),
{
    let a = if blur_alpha {
        scaler.scale(sums.0)
    } else {
        alpha(center)
    };
    pixel(a, scaler.scale(sums.1), scaler.scale(sums.2), scaler.scale(sums.3))
}

/// Channel `ch` of the pixel that a window `w` of radius `r` gives out.
pub open spec fn blurred_channel(w: Seq<u32>, r: int, o: Options, ch: Channel) -> int {
    if ch == Channel::Alpha && !o.blur_alpha {
        channel(w[r], Channel::Alpha) as int
    } else {
        quotient(tent_sum(w, ch), r, o.divisor)
    }
}

/// The channels of a blurred pixel do not run into each other: each is the
/// quotient of its own weighted sum, and a channel value.
pub proof fn lemma_blurred_channel(w: Seq<u32>, r: int, o: Options, ch: Channel)
    requires
        0 <= r <= 254,
        w.len() == 2 * r + 1,
    ensures
        channel(blurred(w, r, o), ch) == blurred_channel(w, r, o, ch),
        0 <= blurred_channel(w, r, o, ch) <= 255,
{
    lemma_tent_sum_bound(w, Channel::Alpha, r);
    lemma_tent_sum_bound(w, Channel::Red, r);
    lemma_tent_sum_bound(w, Channel::Green, r);
    lemma_tent_sum_bound(w, Channel::Blue, r);
    lemma_quotient_bound(tent_sum(w, Channel::Alpha), r, o.divisor);
    lemma_quotient_bound(tent_sum(w, Channel::Red), r, o.divisor);
    lemma_quotient_bound(tent_sum(w, Channel::Green), r, o.divisor);
    lemma_quotient_bound(tent_sum(w, Channel::Blue), r, o.divisor);
    lemma_channel_bound(w[r], Channel::Alpha);
    let a = if o.blur_alpha {
        quotient(tent_sum(w, Channel::Alpha), r, o.divisor) as u32
    } else {
        channel(w[r], Channel::Alpha)
    };
    lemma_channel_of_pack(
        a,
        quotient(tent_sum(w, Channel::Red), r, o.divisor) as u32,
        quotient(tent_sum(w, Channel::Green), r, o.divisor) as u32,
        quotient(tent_sum(w, Channel::Blue), r, o.divisor) as u32,
    );
}

/// The three sums that a sliding window keeps of one channel.
pub struct Sums {
    /// The weighted sum of the window.
    pub sum: int,
    /// The plain sum of the first `r + 1` samples: those that weigh one
    /// less after the next step.
    pub sum_out: int,
    /// The plain sum of the last `r` samples: those that weigh one more
    /// after the next step.
    pub sum_in: int,
}

/// The three sums of channel `ch`, computed afresh from the window `w`.
pub open spec fn sums_of(w: Seq<u32>, ch: Channel) -> Sums {
    let r = (w.len() / 2) as int;
    Sums {
        sum: tent_sum(w, ch),
        sum_out: plain_sum(w, ch, 0, r + 1),
        sum_in: plain_sum(w, ch, r + 1, 2 * r + 1),
    }
}

/// The three sums after one step, made from the sums `s` before it in a
/// fixed number of additions and subtractions: `left` is the value that
/// leaves the window, `center` the value that passes its middle, `incoming`
/// the value that enters.
pub open spec fn sums_after(s: Sums, left: int, center: int, incoming: int) -> Sums {
    Sums {
        sum: s.sum - s.sum_out + s.sum_in + incoming,
        sum_out: s.sum_out - left + center,
        sum_in: s.sum_in + incoming - center,
    }
}

/// The three sums of a window of radius `r` whose samples all have the
/// value `c`.
pub open spec fn uniform_sums(c: int, r: int) -> Sums {
    Sums { sum: c * divisor(r), sum_out: c * (r + 1), sum_in: c * r }
}

/// One step of the sliding window gives what recomputation gives. The sums
/// made from the sums of `w` by `sums_after` are the sums of the window that
/// `w` becomes when `x` enters it.
pub proof fn lemma_step_is_recomputation(w: Seq<u32>, x: u32, ch: Channel, r: int)
    requires
        1 <= r,
        w.len() == 2 * r + 1,
    ensures
        sums_after(
            sums_of(w, ch),
            channel(w[0], ch) as int,
            channel(w[r + 1], ch) as int,
            channel(x, ch) as int,
        ) == sums_of(slide(w, x), ch),
{
    lemma_slide(w, x, ch, r);
    assert(w.len() / 2 == r);
    assert(slide(w, x).len() / 2 == r);
}

/// The sums that a window of equal samples starts with are what
/// recomputation gives.
pub proof fn lemma_uniform_is_recomputation(w: Seq<u32>, p: u32, ch: Channel, r: int)
    requires
        0 <= r,
        w.len() == 2 * r + 1,
        forall|k: int| 0 <= k < w.len() ==> w[k] == p,
    ensures
        uniform_sums(channel(p, ch) as int, r) == sums_of(w, ch),
{
    let c = channel(p, ch) as int;
    assert(channel_is(w, ch, c)) by {
        assert forall|k: int| 0 <= k < w.len() implies #[trigger] channel(w[k], ch) == c by {
            assert(w[k] == p);
        }
    }
    lemma_tent_sum_uniform(w, ch, c, r);
    lemma_plain_sum_uniform(w, ch, c, 0, r + 1);
    lemma_plain_sum_uniform(w, ch, c, r + 1, 2 * r + 1);
    assert(w.len() / 2 == r);
}

/// Up to the largest radius the three sums of a window stay far below what
/// 32 bits hold, whatever the samples are.
pub proof fn lemma_sums_fit(w: Seq<u32>, ch: Channel, r: int)
    requires
        1 <= r <= 254,
        w.len() == 2 * r + 1,
    ensures
        0 <= sums_of(w, ch).sum <= 255 * 65025 < u32::MAX,
        0 <= sums_of(w, ch).sum_out <= 255 * 255 < u32::MAX,
        0 <= sums_of(w, ch).sum_in <= 255 * 254 < u32::MAX,
{
    lemma_tent_sum_bound(w, ch, r);
    lemma_plain_sum_bound(w, ch, 0, r + 1);
    lemma_plain_sum_bound(w, ch, r + 1, 2 * r + 1);
    assert(w.len() / 2 == r);
    assert(r * (r + 2) + 1 <= 65025) by (nonlinear_arith)
        requires
            1 <= r <= 254,
    ;
}

/// What `Running::advance` needs to know of one step.
proof fn lemma_step(w: Seq<u32>, x: u32, ch: Channel, r: int)
    requires
        1 <= r <= 254,
        w.len() == 2 * r + 1,
    ensures
        sums_after(
            sums_of(w, ch),
            channel(w[0], ch) as int,
            channel(w[r + 1], ch) as int,
            channel(x, ch) as int,
        ) == sums_of(slide(w, x), ch),
        0 <= sums_of(w, ch).sum <= 255 * 65025,
        0 <= sums_of(w, ch).sum_out <= 255 * 255,
        0 <= sums_of(w, ch).sum_in <= 255 * 254,
        0 <= sums_of(slide(w, x), ch).sum,
        0 <= sums_of(slide(w, x), ch).sum_out,
        0 <= sums_of(slide(w, x), ch).sum_in,
{
    lemma_step_is_recomputation(w, x, ch, r);
    lemma_sums_fit(w, ch, r);
    lemma_sums_fit(slide(w, x), ch, r);
}

/// The three running sums of one channel.
#[derive(Clone, Copy, Debug)]
struct Running {
    sum: u32,
    sum_out: u32,
    sum_in: u32,
}

impl Running {
    /// The sums as numbers.
    spec fn model(self) -> Sums {
        Sums { sum: self.sum as int, sum_out: self.sum_out as int, sum_in: self.sum_in as int }
    }

    /// The sums of a window of radius `radius` whose samples all have the
    /// value `c` in this channel.
    fn uniform(c: u32, radius: u32) -> (s: Running)
        requires
            c <= 255,
            1 <= radius <= 254,
        ensures
            s.model() == uniform_sums(c as int, radius as int),
    {
        proof {
            assert(radius * (radius + 2) + 1 <= 65025) by (nonlinear_arith)
                requires
                    1 <= radius <= 254,
            ;
            assert(c * (radius * (radius + 2) + 1) <= 255 * 65025 && c * (radius + 1) <= 255 * 255
                && c * radius <= 255 * 254) by (nonlinear_arith)
                requires
                    c <= 255,
                    1 <= radius <= 254,
                    radius * (radius + 2) + 1 <= 65025,
            ;
        }
        Running {
            sum: c * (radius * (radius + 2) + 1),
            sum_out: c * (radius + 1),
            sum_in: c * radius,
        }
    }

    /// The sums after one step in which the value `left` leaves the window,
    /// `center` passes its middle and `incoming` enters.
    fn advance(self, left: u32, center: u32, incoming: u32) -> (s: Running)
        requires
            self.sum <= 255 * 65025,
            self.sum_in <= 255 * 254,
            self.sum_out <= 255 * 255,
            left <= 255,
            center <= 255,
            incoming <= 255,
            0 <= sums_after(self.model(), left as int, center as int, incoming as int).sum,
            0 <= sums_after(self.model(), left as int, center as int, incoming as int).sum_out,
            0 <= sums_after(self.model(), left as int, center as int, incoming as int).sum_in,
        ensures
            s.model() == sums_after(self.model(), left as int, center as int, incoming as int),
    {
        let entering = self.sum_in + incoming;
        Running {
            sum: self.sum + entering - self.sum_out,
            sum_out: self.sum_out + center - left,
            sum_in: entering - center,
        }
    }
}

/// A window of `2r + 1` samples that slides along a line of pixels.
#[derive(Debug)]
pub struct Window {
    samples: VecDeque<u32>,
    radius: u32,
    alpha: Running,
    red: Running,
    green: Running,
    blue: Running,
}

impl View for Window {
    type V = Seq<u32>;

    /// The samples in the window, oldest first.
    closed spec fn view(&self) -> Seq<u32> {
        self.samples@
    }
}

impl Window {
    /// The radius of the window.
    pub closed spec fn radius(&self) -> int {
        self.radius as int
    }

    /// Whether the window holds `2r + 1` samples and its running sums are
    /// the sums of those samples.
    pub closed spec fn wf(&self) -> bool {
        &&& 1 <= self.radius <= 254
        &&& self.samples@.len() == 2 * self.radius + 1
        &&& self.alpha.model() == sums_of(self.samples@, Channel::Alpha)
        &&& self.red.model() == sums_of(self.samples@, Channel::Red)
        &&& self.green.model() == sums_of(self.samples@, Channel::Green)
        &&& self.blue.model() == sums_of(self.samples@, Channel::Blue)
    }

    /// A window of radius `radius` in which every sample is `p`.
    pub fn uniform(p: u32, radius: u32) -> (win: Window)
        requires
            1 <= radius <= 254,
        ensures
            win.wf(),
            win.radius() == radius,
            win@ == Seq::new((2 * radius + 1) as nat, |k: int| p),
    {
        let len: usize = 2 * (radius as usize) + 1;
        let mut samples: VecDeque<u32> = VecDeque::with_capacity(len);
        let mut k: usize = 0;
        while k < len
            invariant
                k <= len,
                samples@ == Seq::new(k as nat, |j: int| p),
            decreases len - k,
        {
            samples.push_back(p);
            k += 1;
        }
        let win = Window {
            samples,
            radius,
            alpha: Running::uniform(alpha(p), radius),
            red: Running::uniform(red(p), radius),
            green: Running::uniform(green(p), radius),
            blue: Running::uniform(blue(p), radius),
        };
        proof {
            let w = win.samples@;
            let r = radius as int;
            assert(w.len() / 2 == r);
            lemma_uniform_is_recomputation(w, p, Channel::Alpha, r);
            lemma_uniform_is_recomputation(w, p, Channel::Red, r);
            lemma_uniform_is_recomputation(w, p, Channel::Green, r);
            lemma_uniform_is_recomputation(w, p, Channel::Blue, r);
        }
        win
    }

    /// The window at the start of a line: `edge`, the first pixel of the
    /// line, fills the middle and all that lies before it, and the samples
    /// `ahead` fill what lies after it. The radius is the number of samples
    /// ahead. A line with fewer than that many pixels after its first is
    /// continued with its last pixel by whoever reads it.
    pub fn seed(edge: u32, ahead: &[u32]) -> (win: Window)
        requires
            1 <= ahead@.len() <= 254,
        ensures
            win.wf(),
            win.radius() == ahead@.len(),
            win@ == Seq::new((ahead@.len() + 1) as nat, |k: int| edge) + ahead@,
    {
        let n = ahead.len();
        let mut win = Window::uniform(edge, n as u32);
        let mut t: usize = 0;
        while t < n
            invariant
                n == ahead@.len(),
                1 <= n <= 254,
                t <= n,
                win.wf(),
                win.radius() == n,
                win@ == Seq::new((2 * n + 1 - t) as nat, |k: int| edge) + ahead@.subrange(
                    0,
                    t as int,
                ),
            decreases n - t,
        {
            win.advance(ahead[t]);
            proof {
                assert(win@ =~= Seq::new((2 * n - t) as nat, |k: int| edge) + ahead@.subrange(
                    0,
                    t + 1,
                ));
            }
            t += 1;
        }
        proof {
            assert(ahead@.subrange(0, n as int) =~= ahead@);
        }
        win
    }

    /// Slides the window on by one sample: the oldest sample leaves,
    /// `incoming` becomes the newest, and the running sums follow in a
    /// constant number of additions and subtractions.
    pub fn advance(&mut self, incoming: u32)
        requires
            old(self).wf(),
        ensures
            final(self).wf(),
            final(self).radius() == old(self).radius(),
            final(self)@ == slide(old(self)@, incoming),
    {
        let ghost w = self.samples@;
        let ghost r = self.radius as int;
        proof {
            lemma_step(w, incoming, Channel::Alpha, r);
            lemma_step(w, incoming, Channel::Red, r);
            lemma_step(w, incoming, Channel::Green, r);
            lemma_step(w, incoming, Channel::Blue, r);
        }
        let left = self.samples.pop_front().unwrap();
        let center = self.samples[self.radius as usize];
        self.samples.push_back(incoming);
        assert(left == w[0]);
        assert(center == w[r + 1]);
        assert(self.samples@ == slide(w, incoming));
        self.alpha = self.alpha.advance(alpha(left), alpha(center), alpha(incoming));
        self.red = self.red.advance(red(left), red(center), red(incoming));
        self.green = self.green.advance(green(left), green(center), green(incoming));
        self.blue = self.blue.advance(blue(left), blue(center), blue(incoming));
    }

    /// The weighted sums of the four channels, alpha first.
    pub fn sums(&self) -> (s: (u32, u32, u32, u32))
        requires
            self.wf(),
        ensures
            s.0 == tent_sum(self@, Channel::Alpha),
            s.1 == tent_sum(self@, Channel::Red),
            s.2 == tent_sum(self@, Channel::Green),
            s.3 == tent_sum(self@, Channel::Blue),
    {
        (self.alpha.sum, self.red.sum, self.green.sum, self.blue.sum)
    }

    /// The sample in the middle of the window.
    pub fn center(&self) -> (p: u32)
        requires
            self.wf(),
        ensures
            p == self@[self.radius()],
    {
        self.samples[self.radius as usize]
    }

    /// The blurred pixel for the position the window is centred on.
    pub fn current_output(&self, scaler: &Scaler, blur_alpha: bool) -> (p: u32)
        requires
            self.wf(),
            scaler.wf(),
            scaler.radius() == self.radius(),
        ensures
            p == blurred(self@, self.radius(), scaler.options(blur_alpha)),
    {
        proof {
            let r = self.radius as int;
            lemma_tent_sum_bound(self.samples@, Channel::Alpha, r);
            lemma_tent_sum_bound(self.samples@, Channel::Red, r);
            lemma_tent_sum_bound(self.samples@, Channel::Green, r);
            lemma_tent_sum_bound(self.samples@, Channel::Blue, r);
        }
        resolve(self.sums(), self.center(), scaler, blur_alpha)
    }
}

} // verus!
