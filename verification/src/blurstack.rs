//! The window as a plain queue whose weighted sums are computed afresh on
//! every request.

use crate::kernel::lemma_tent_sum_upto_bound;
use crate::kernel::lemma_tent_weight_bounds;
use crate::kernel::tent_sum;
use crate::kernel::tent_sum_upto;
use crate::kernel::tent_total_upto;
use crate::kernel::tent_weight;
use crate::pixel::alpha;
use crate::pixel::blue;
use crate::pixel::Channel;
use crate::pixel::green;
use crate::pixel::red;
use std::collections::VecDeque;
use vstd::prelude::*;
use vstd::std_specs::convert::FromSpecImpl;

verus! {

/// The longest queue whose sums are asked for: the window of the largest
/// radius.
pub const MAX_WINDOW: usize = 509;

/// A queue of pixels, oldest first.
#[derive(Debug)]
pub struct BlurStack(VecDeque<u32>);

impl View for BlurStack {
    type V = Seq<u32>;

    closed spec fn view(&self) -> Seq<u32> {
        self.0@
    }
}

/// The first `n` weights of a window add up to at most `n` times the middle
/// weight.
proof fn lemma_tent_total_upto_le(len: int, n: int)
    requires
        0 <= n <= len,
    ensures
        0 <= tent_total_upto(len, n) <= n * (len / 2 + 1),
    decreases n,
{
    if n > 0 {
        lemma_tent_total_upto_le(len, n - 1);
        lemma_tent_weight_bounds(len, n - 1);
        let top = len / 2 + 1;
        assert(n * top == (n - 1) * top + top) by (nonlinear_arith);
    } else {
        assert(0 * (len / 2 + 1) == 0) by (nonlinear_arith);
    }
}

/// The weighted sums of a queue of at most `MAX_WINDOW` pixels fit in 32
/// bits with room for one more term.
proof fn lemma_partial_sum_fits(w: Seq<u32>, ch: Channel, n: int)
    requires
        w.len() <= MAX_WINDOW,
        0 <= n <= w.len(),
    ensures
        0 <= tent_sum_upto(w, ch, n) <= 33_097_725,
{
    let len = w.len() as int;
    lemma_tent_sum_upto_bound(w, ch, n);
    lemma_tent_total_upto_le(len, n);
    assert(n * (len / 2 + 1) <= 509 * 255) by (nonlinear_arith)
        requires
            0 <= n <= 509,
            0 <= len / 2 + 1 <= 255,
    ;
}

impl BlurStack {
    /// The weighted sums of the four channels, alpha first, over the whole
    /// queue: the pixel at position `i` weighs `min(i + 1, 2 * (len / 2) + 1 - i)`.
    pub fn sums(&self) -> (s: (u32, u32, u32, u32))
        requires
            self@.len() <= MAX_WINDOW,
        ensures
            s.0 == tent_sum(self@, Channel::Alpha),
            s.1 == tent_sum(self@, Channel::Red),
            s.2 == tent_sum(self@, Channel::Green),
            s.3 == tent_sum(self@, Channel::Blue),
    {
        let len = self.0.len();
        let n = len / 2 + 1;
        let mut a: u32 = 0;
        let mut r: u32 = 0;
        let mut g: u32 = 0;
        let mut b: u32 = 0;
        let mut k: usize = 0;
        while k < len
            invariant
                len == self@.len(),
                len <= MAX_WINDOW,
                n == len / 2 + 1,
                k <= len,
                a == tent_sum_upto(self@, Channel::Alpha, k as int),
                r == tent_sum_upto(self@, Channel::Red, k as int),
                g == tent_sum_upto(self@, Channel::Green, k as int),
                b == tent_sum_upto(self@, Channel::Blue, k as int),
            decreases len - k,
        {
            let v = self.0[k];
            let weight: u32 = if k < n {
                (k + 1) as u32
            } else {
                (2 * n - 1 - k) as u32
            };
            proof {
                assert(weight == tent_weight(len as int, k as int));
                lemma_partial_sum_fits(self@, Channel::Alpha, k + 1);
                lemma_partial_sum_fits(self@, Channel::Red, k + 1);
                lemma_partial_sum_fits(self@, Channel::Green, k + 1);
                lemma_partial_sum_fits(self@, Channel::Blue, k + 1);
                lemma_partial_sum_fits(self@, Channel::Alpha, k as int);
                lemma_partial_sum_fits(self@, Channel::Red, k as int);
                lemma_partial_sum_fits(self@, Channel::Green, k as int);
                lemma_partial_sum_fits(self@, Channel::Blue, k as int);
            }
            a += weight * alpha(v);
            r += weight * red(v);
            g += weight * green(v);
            b += weight * blue(v);
            k += 1;
        }
        (a, r, g, b)
    }

    /// Takes the oldest pixel out, if there is one.
    pub fn pop_front(&mut self) -> (e: Option<u32>)
        ensures
            match e {
                Some(x) => {
                    &&& old(self)@.len() > 0
                    &&& x == old(self)@[0]
                    &&& final(self)@ == old(self)@.subrange(1, old(self)@.len() as int)
                },
                None => {
                    &&& old(self)@.len() == 0
                    &&& final(self)@ == old(self)@
                },
            },
    {
        self.0.pop_front()
    }

    /// Puts `e` in front of the oldest pixel.
    pub fn push_front(&mut self, e: u32)
        ensures
            final(self)@ == seq![e] + old(self)@,
    {
        self.0.push_front(e)
    }

    /// Puts `e` behind the newest pixel.
    pub fn push_back(&mut self, e: u32)
        ensures
            final(self)@ == old(self)@.push(e),
    {
        self.0.push_back(e)
    }

    /// An empty queue with room for `n` pixels.
    pub fn with_capacity(n: usize) -> (s: Self)
        ensures
            s@ == Seq::<u32>::empty(),
    {
        Self(VecDeque::with_capacity(n))
    }

    /// The number of pixels in the queue.
    pub fn len(&self) -> (n: usize)
        ensures
            n == self@.len(),
    {
        self.0.len()
    }
}

impl From<VecDeque<u32>> for BlurStack {
    /// The queue that holds the pixels of `v`, in their order.
    fn from(v: VecDeque<u32>) -> (s: Self)
        ensures
            s@ == v@,
    {
        Self(v)
    }
}

impl FromSpecImpl<VecDeque<u32>> for BlurStack {
    open spec fn obeys_from_spec() -> bool {
        true
    }

    closed spec fn from_spec(v: VecDeque<u32>) -> Self {
        BlurStack(v)
    }
}

impl Default for BlurStack {
    fn default() -> (s: Self)
        ensures
            s@ == Seq::<u32>::empty(),
    {
        Self(VecDeque::new())
    }
}

} // verus!
