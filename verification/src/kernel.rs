//! The tent kernel: what one window of samples weighs.
//!
//! A window of `2r + 1` samples is weighted `1, 2, .., r, r + 1, r, .., 2, 1`.
//! The weights add up to `(r + 1)^2 = r * (r + 2) + 1`, the divisor. This
//! module defines the weighted sum per channel and proves the identities the
//! sliding window rests on.

use crate::pixel::Channel;
use crate::pixel::channel;
use crate::pixel::lemma_channel_bound;
use vstd::prelude::*;

verus! {

/// The sum of the tent weights of a window of radius `r`.
pub open spec fn divisor(r: int) -> int {
    r * (r + 2) + 1
}

/// The weight of position `k` in a window of `len` samples: it rises by one
/// per position up to the middle and falls by one per position after it.
pub open spec fn tent_weight(len: int, k: int) -> int {
    let rising = k + 1;
    let falling = 2 * (len / 2) + 1 - k;
    if rising <= falling {
        rising
    } else {
        falling
    }
}

/// The sum of the first `n` tent weights of a window of `len` samples.
pub open spec fn tent_total_upto(len: int, n: int) -> int
    decreases n,
{
    if n <= 0 {
        0
    } else {
        tent_total_upto(len, n - 1) + tent_weight(len, n - 1)
    }
}

/// The weighted sum of channel `ch` over the first `n` samples of `w`.
pub open spec fn tent_sum_upto(w: Seq<u32>, ch: Channel, n: int) -> int
    decreases n,
{
    if n <= 0 {
        0
    } else {
        tent_sum_upto(w, ch, n - 1) + tent_weight(w.len() as int, n - 1) * channel(w[n - 1], ch)
    }
}

/// The weighted sum of channel `ch` over the whole window `w`.
pub open spec fn tent_sum(w: Seq<u32>, ch: Channel) -> int {
    tent_sum_upto(w, ch, w.len() as int)
}

/// The unweighted sum of channel `ch` over the samples `w[lo..hi]`.
pub open spec fn plain_sum(w: Seq<u32>, ch: Channel, lo: int, hi: int) -> int
    decreases hi - lo,
{
    if hi <= lo {
        0
    } else {
        plain_sum(w, ch, lo, hi - 1) + channel(w[hi - 1], ch)
    }
}

/// The window `w` after one step: its oldest sample dropped, `x` appended.
pub open spec fn slide(w: Seq<u32>, x: u32) -> Seq<u32> {
    w.subrange(1, w.len() as int).push(x)
}

/// Whether channel `ch` has the value `c` in every sample of `w`.
pub open spec fn channel_is(w: Seq<u32>, ch: Channel, c: int) -> bool {
    forall|k: int| 0 <= k < w.len() ==> #[trigger] channel(w[k], ch) == c
}

/// Whether `v` and `w` carry the same values in channel `ch`.
pub open spec fn same_channel(v: Seq<u32>, w: Seq<u32>, ch: Channel) -> bool {
    &&& v.len() == w.len()
    &&& forall|k: int| 0 <= k < v.len() ==> channel(#[trigger] v[k], ch) == channel(w[k], ch)
}

/// Whether `v` and `w` are of one length and channel `ch` of every sample
/// of `w` is that of `v` or up to `d` more.
pub open spec fn within(v: Seq<u32>, w: Seq<u32>, ch: Channel, d: int) -> bool {
    &&& v.len() == w.len()
    &&& forall|k: int|
        0 <= k < v.len() ==> channel(#[trigger] v[k], ch) <= channel(w[k], ch) <= channel(
            v[k],
            ch,
        ) + d
}

/// A product with the factor one.
proof fn lemma_mul_one(a: int, c: int)
    requires
        a == 1,
    ensures
        a * c == c,
{
}

/// A product grows with its second factor where the first is not negative.
proof fn lemma_mul_le(a: int, b: int, c: int)
    requires
        0 <= a,
        0 <= b <= c,
    ensures
        0 <= a * b <= a * c,
{
    assert(0 <= a * b <= a * c) by (nonlinear_arith)
        requires
            0 <= a,
            0 <= b <= c,
    ;
}

/// Twice the sum of the first `n` weights, in closed form.
proof fn lemma_tent_total_closed(r: int, n: int)
    requires
        0 <= r,
        0 <= n <= 2 * r + 1,
    ensures
        n <= r + 1 ==> 2 * tent_total_upto(2 * r + 1, n) == n * (n + 1),
        n >= r + 1 ==> 2 * tent_total_upto(2 * r + 1, n) == 2 * divisor(r) - (2 * r + 1 - n) * (2
            * r + 2 - n),
    decreases n,
{
    let len = 2 * r + 1;
    assert(len / 2 == r);
    if n > 0 {
        lemma_tent_total_closed(r, n - 1);
        let k = n - 1;
        if n <= r + 1 {
            assert(tent_weight(len, k) == n);
            assert(n * (n + 1) == (n - 1) * n + 2 * n) by (nonlinear_arith);
            if n == r + 1 {
                assert(2 * divisor(r) - (2 * r + 1 - n) * (2 * r + 2 - n) == n * (n + 1))
                    by (nonlinear_arith)
                    requires
                        n == r + 1,
                ;
            }
        } else {
            assert(tent_weight(len, k) == 2 * r + 1 - k);
            let m = 2 * r + 1 - n;
            assert((m + 1) * (m + 2) == m * (m + 1) + 2 * (m + 1)) by (nonlinear_arith);
        }
    } else {
        assert(0 * (0 + 1) == 0) by (nonlinear_arith);
    }
}

/// The tent weights of a window of radius `r` add up to the divisor.
pub proof fn lemma_tent_total(r: int)
    requires
        0 <= r,
    ensures
        tent_total_upto(2 * r + 1, 2 * r + 1) == divisor(r),
        divisor(r) == (r + 1) * (r + 1),
        divisor(r) >= 1,
{
    lemma_tent_total_closed(r, 2 * r + 1);
    assert((2 * r + 1 - (2 * r + 1)) * (2 * r + 2 - (2 * r + 1)) == 0) by (nonlinear_arith);
    assert(r * (r + 2) + 1 == (r + 1) * (r + 1)) by (nonlinear_arith);
    assert(r * (r + 2) >= 0) by (nonlinear_arith)
        requires
            0 <= r,
    ;
}

/// Every weight of a window is positive, and none exceeds the middle one.
pub proof fn lemma_tent_weight_bounds(len: int, k: int)
    requires
        0 <= k < len,
    ensures
        1 <= tent_weight(len, k) <= len / 2 + 1,
{
}

/// A partial weighted sum lies between zero and 255 times the weights used.
pub proof fn lemma_tent_sum_upto_bound(w: Seq<u32>, ch: Channel, n: int)
    requires
        0 <= n <= w.len(),
    ensures
        0 <= tent_sum_upto(w, ch, n) <= 255 * tent_total_upto(w.len() as int, n),
    decreases n,
{
    if n > 0 {
        lemma_tent_sum_upto_bound(w, ch, n - 1);
        lemma_tent_weight_bounds(w.len() as int, n - 1);
        lemma_channel_bound(w[n - 1], ch);
        lemma_mul_le(tent_weight(w.len() as int, n - 1), channel(w[n - 1], ch) as int, 255);
    }
}

/// The weighted sum of a full window of radius `r` is at most 255 times the
/// divisor: the quotient is again a channel value.
pub proof fn lemma_tent_sum_bound(w: Seq<u32>, ch: Channel, r: int)
    requires
        0 <= r,
        w.len() == 2 * r + 1,
    ensures
        0 <= tent_sum(w, ch) <= 255 * divisor(r),
{
    lemma_tent_sum_upto_bound(w, ch, w.len() as int);
    lemma_tent_total(r);
}

/// Where the first `n` samples agree on the value `c` of channel `ch`, their
/// weighted sum is `c` times the weights used.
proof fn lemma_tent_sum_upto_uniform(w: Seq<u32>, ch: Channel, c: int, n: int)
    requires
        0 <= n <= w.len(),
        forall|k: int| 0 <= k < n ==> #[trigger] channel(w[k], ch) == c,
    ensures
        tent_sum_upto(w, ch, n) == c * tent_total_upto(w.len() as int, n),
    decreases n,
{
    if n > 0 {
        lemma_tent_sum_upto_uniform(w, ch, c, n - 1);
        let t = tent_total_upto(w.len() as int, n - 1);
        let wt = tent_weight(w.len() as int, n - 1);
        assert(channel(w[n - 1], ch) == c);
        assert(c * (t + wt) == c * t + wt * c) by (nonlinear_arith);
    } else {
        assert(c * 0 == 0) by (nonlinear_arith);
    }
}

/// A window in which channel `ch` is `c` throughout sums to `c` times the
/// divisor.
pub proof fn lemma_tent_sum_uniform(w: Seq<u32>, ch: Channel, c: int, r: int)
    requires
        0 <= r,
        w.len() == 2 * r + 1,
        channel_is(w, ch, c),
    ensures
        tent_sum(w, ch) == c * divisor(r),
{
    lemma_tent_sum_upto_uniform(w, ch, c, w.len() as int);
    lemma_tent_total(r);
}

/// Two windows that agree in channel `ch` have the same weighted sum in it.
proof fn lemma_tent_sum_upto_same_channel(v: Seq<u32>, w: Seq<u32>, ch: Channel, n: int)
    requires
        same_channel(v, w, ch),
        0 <= n <= v.len(),
    ensures
        tent_sum_upto(v, ch, n) == tent_sum_upto(w, ch, n),
    decreases n,
{
    if n > 0 {
        lemma_tent_sum_upto_same_channel(v, w, ch, n - 1);
        assert(channel(v[n - 1], ch) == channel(w[n - 1], ch));
    }
}

/// The weighted sum of a channel depends on that channel alone.
pub proof fn lemma_tent_sum_same_channel(v: Seq<u32>, w: Seq<u32>, ch: Channel)
    requires
        same_channel(v, w, ch),
    ensures
        tent_sum(v, ch) == tent_sum(w, ch),
{
    lemma_tent_sum_upto_same_channel(v, w, ch, v.len() as int);
}

/// An unweighted sum of `hi - lo` samples lies between zero and 255 each.
pub proof fn lemma_plain_sum_bound(w: Seq<u32>, ch: Channel, lo: int, hi: int)
    requires
        0 <= lo <= hi <= w.len(),
    ensures
        0 <= plain_sum(w, ch, lo, hi) <= 255 * (hi - lo),
    decreases hi - lo,
{
    if lo < hi {
        lemma_plain_sum_bound(w, ch, lo, hi - 1);
        lemma_channel_bound(w[hi - 1], ch);
    }
}

/// Where the samples agree on `c`, their unweighted sum is `c` times their
/// number.
pub proof fn lemma_plain_sum_uniform(w: Seq<u32>, ch: Channel, c: int, lo: int, hi: int)
    requires
        0 <= lo <= hi <= w.len(),
        channel_is(w, ch, c),
    ensures
        plain_sum(w, ch, lo, hi) == c * (hi - lo),
    decreases hi - lo,
{
    if lo < hi {
        lemma_plain_sum_uniform(w, ch, c, lo, hi - 1);
        assert(channel(w[hi - 1], ch) == c);
        assert(c * (hi - lo) == c * (hi - 1 - lo) + c) by (nonlinear_arith);
    } else {
        assert(c * 0 == 0) by (nonlinear_arith);
    }
}

/// An unweighted sum with its first sample taken out in front.
proof fn lemma_plain_sum_peel_first(w: Seq<u32>, ch: Channel, lo: int, hi: int)
    requires
        0 <= lo < hi <= w.len(),
    ensures
        plain_sum(w, ch, lo, hi) == channel(w[lo], ch) + plain_sum(w, ch, lo + 1, hi),
    decreases hi - lo,
{
    if lo + 1 < hi {
        lemma_plain_sum_peel_first(w, ch, lo, hi - 1);
    } else {
        assert(plain_sum(w, ch, lo, lo) == 0);
        assert(plain_sum(w, ch, lo + 1, hi) == 0);
    }
}

/// Sums over the slid window are sums over the old one, one place later.
proof fn lemma_plain_sum_slide(w: Seq<u32>, x: u32, ch: Channel, lo: int, hi: int)
    requires
        0 <= lo <= hi < w.len(),
    ensures
        plain_sum(slide(w, x), ch, lo, hi) == plain_sum(w, ch, lo + 1, hi + 1),
    decreases hi - lo,
{
    if lo < hi {
        lemma_plain_sum_slide(w, x, ch, lo, hi - 1);
        assert(slide(w, x)[hi - 1] == w[hi]);
    }
}

/// The inductive core of the sliding identity: the first `m` terms of the
/// slid window against the first `m + 1` terms of the old one.
proof fn lemma_slide_upto(w: Seq<u32>, x: u32, ch: Channel, r: int, m: int)
    requires
        0 <= r,
        w.len() == 2 * r + 1,
        0 <= m <= 2 * r,
    ensures
        tent_sum_upto(slide(w, x), ch, m) == tent_sum_upto(w, ch, m + 1) - plain_sum(
            w,
            ch,
            0,
            if m <= r {
                m + 1
            } else {
                r + 1
            },
        ) + plain_sum(
            w,
            ch,
            r + 1,
            if m <= r {
                r + 1
            } else {
                m + 1
            },
        ),
    decreases m,
{
    let len = 2 * r + 1;
    let s = slide(w, x);
    assert(s.len() == len);
    assert(len / 2 == r);
    if m == 0 {
        assert(tent_sum_upto(w, ch, 1) == tent_sum_upto(w, ch, 0) + tent_weight(len, 0) * channel(
            w[0],
            ch,
        ));
        assert(tent_weight(len, 0) == 1);
        assert(plain_sum(w, ch, 0, 1) == plain_sum(w, ch, 0, 0) + channel(w[0], ch));
        lemma_mul_one(tent_weight(len, 0), channel(w[0], ch) as int);
    } else {
        lemma_slide_upto(w, x, ch, r, m - 1);
        let c = channel(w[m], ch) as int;
        let before = tent_weight(len, m - 1);
        let after = tent_weight(len, m);
        assert(s[m - 1] == w[m]);
        // one more term on each side
        assert(tent_sum_upto(s, ch, m) == tent_sum_upto(s, ch, m - 1) + before * c);
        assert(tent_sum_upto(w, ch, m + 1) == tent_sum_upto(w, ch, m) + after * c);
        if m <= r {
            assert(after == before + 1);
            assert(after * c == before * c + c) by (nonlinear_arith)
                requires
                    after == before + 1,
            ;
            assert(plain_sum(w, ch, 0, m + 1) == plain_sum(w, ch, 0, m) + c);
        } else {
            assert(before == after + 1);
            assert(before * c == after * c + c) by (nonlinear_arith)
                requires
                    before == after + 1,
            ;
            assert(plain_sum(w, ch, r + 1, m + 1) == plain_sum(w, ch, r + 1, m) + c);
        }
    }
}

/// The sliding identity. When a window of radius `r` moves on by one sample,
/// its weighted sum loses the plain sum of its first `r + 1` samples and
/// gains the plain sum of its last `r` samples and the incoming one; the two
/// plain sums each trade one sample at their ends. So the sum that is kept
/// up to date step by step and the sum that is computed afresh from the
/// window are the same number.
pub proof fn lemma_slide(w: Seq<u32>, x: u32, ch: Channel, r: int)
    requires
        0 <= r,
        w.len() == 2 * r + 1,
    ensures
        slide(w, x).len() == w.len(),
        tent_sum(slide(w, x), ch) == tent_sum(w, ch) - plain_sum(w, ch, 0, r + 1) + plain_sum(
            w,
            ch,
            r + 1,
            2 * r + 1,
        ) + channel(x, ch),
        r >= 1 ==> plain_sum(slide(w, x), ch, 0, r + 1) == plain_sum(w, ch, 0, r + 1) - channel(
            w[0],
            ch,
        ) + channel(w[r + 1], ch),
        r >= 1 ==> plain_sum(slide(w, x), ch, r + 1, 2 * r + 1) == plain_sum(
            w,
            ch,
            r + 1,
            2 * r + 1,
        ) - channel(w[r + 1], ch) + channel(x, ch),
{
    let len = 2 * r + 1;
    let s = slide(w, x);
    assert(len / 2 == r);
    lemma_slide_upto(w, x, ch, r, 2 * r);
    assert(s[2 * r] == x);
    assert(tent_weight(len, 2 * r) == 1);
    lemma_mul_one(tent_weight(len, 2 * r), channel(x, ch) as int);
    assert(tent_sum_upto(s, ch, len) == tent_sum_upto(s, ch, len - 1) + tent_weight(len, len - 1)
        * channel(s[len - 1], ch));
    if r >= 1 {
        lemma_plain_sum_slide(w, x, ch, 0, r + 1);
        lemma_plain_sum_peel_first(w, ch, 0, r + 2);
        assert(plain_sum(w, ch, 0, r + 2) == plain_sum(w, ch, 0, r + 1) + channel(w[r + 1], ch));
        lemma_plain_sum_peel_first(w, ch, 0, r + 1);
        // the trailing half
        lemma_plain_sum_slide(w, x, ch, r + 1, 2 * r);
        assert(plain_sum(s, ch, r + 1, 2 * r + 1) == plain_sum(s, ch, r + 1, 2 * r) + channel(
            s[2 * r],
            ch,
        ));
        lemma_plain_sum_peel_first(w, ch, r + 1, 2 * r + 1);
    }
}

/// Where a channel of every sample of `w` is that of `v` or up to `d` more,
/// a partial weighted sum of `w` is that of `v` or up to `d` times the
/// weights used more.
proof fn lemma_tent_sum_upto_within(v: Seq<u32>, w: Seq<u32>, ch: Channel, d: int, n: int)
    requires
        within(v, w, ch, d),
        0 <= d,
        0 <= n <= v.len(),
    ensures
        tent_sum_upto(v, ch, n) <= tent_sum_upto(w, ch, n) <= tent_sum_upto(v, ch, n) + d
            * tent_total_upto(v.len() as int, n),
    decreases n,
{
    if n > 0 {
        lemma_tent_sum_upto_within(v, w, ch, d, n - 1);
        lemma_tent_weight_bounds(v.len() as int, n - 1);
        let wt = tent_weight(v.len() as int, n - 1);
        let t = tent_total_upto(v.len() as int, n - 1);
        let cv = channel(v[n - 1], ch) as int;
        let cw = channel(w[n - 1], ch) as int;
        assert(cv <= cw <= cv + d);
        assert(wt * cv <= wt * cw <= wt * cv + d * wt) by (nonlinear_arith)
            requires
                1 <= wt,
                cv <= cw <= cv + d,
        ;
        assert(d * (t + wt) == d * t + d * wt) by (nonlinear_arith);
    } else {
        assert(d * 0 == 0) by (nonlinear_arith);
    }
}

/// Where a channel of every sample of `w` is that of `v` or up to `d` more,
/// the weighted sum of `w` is that of `v` or up to `d` times the divisor
/// more.
pub proof fn lemma_tent_sum_within(v: Seq<u32>, w: Seq<u32>, ch: Channel, d: int, r: int)
    requires
        within(v, w, ch, d),
        0 <= d,
        0 <= r,
        v.len() == 2 * r + 1,
    ensures
        tent_sum(v, ch) <= tent_sum(w, ch) <= tent_sum(v, ch) + d * divisor(r),
{
    lemma_tent_sum_upto_within(v, w, ch, d, v.len() as int);
    lemma_tent_total(r);
}

} // verus!
