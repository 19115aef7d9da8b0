//! Channel codec: four 8-bit channels packed into one 32-bit pixel.
//!
//! The layout is `0xAARRGGBB`: alpha in bits 24..32, red in bits 16..24,
//! green in bits 8..16 and blue in bits 0..8.

use vstd::prelude::*;

verus! {

/// One of the four channels of a packed pixel.
#[derive(Clone, Copy, Debug, PartialEq, Eq, Structural)]
pub enum Channel {
    /// Bits 24 to 31.
    Alpha,
    /// Bits 16 to 23.
    Red,
    /// Bits 8 to 15.
    Green,
    /// Bits 0 to 7.
    Blue,
}

/// The value of channel `ch` of pixel `p`, always in `0..=255`.
pub open spec fn channel(p: u32, ch: Channel) -> u32 {
    match ch {
        Channel::Alpha => (p >> 24) & 0xff,
        Channel::Red => (p >> 16) & 0xff,
        Channel::Green => (p >> 8) & 0xff,
        Channel::Blue => p & 0xff,
    }
}

/// The pixel whose channels are `a`, `r`, `g` and `b`.
///
/// Bits of an argument above its low eight run into the channels above it
/// (and are lost off the top), exactly as the shifts say.
pub open spec fn pack(a: u32, r: u32, g: u32, b: u32) -> u32 {
    a << 24 | r << 16 | g << 8 | b
}

/// Every channel fits in eight bits.
pub proof fn lemma_channel_bound(p: u32, ch: Channel)
    ensures
        channel(p, ch) <= 255,
{
    assert((p >> 24) & 0xff <= 255) by (bit_vector);
    assert((p >> 16) & 0xff <= 255) by (bit_vector);
    assert((p >> 8) & 0xff <= 255) by (bit_vector);
    assert(p & 0xff <= 255) by (bit_vector);
}

/// Extraction undoes packing: each channel of `pack(a, r, g, b)` is the
/// argument that was packed into it, provided all four fit in eight bits.
pub proof fn lemma_channel_of_pack(a: u32, r: u32, g: u32, b: u32)
    requires
        a <= 255,
        r <= 255,
        g <= 255,
        b <= 255,
    ensures
        channel(pack(a, r, g, b), Channel::Alpha) == a,
        channel(pack(a, r, g, b), Channel::Red) == r,
        channel(pack(a, r, g, b), Channel::Green) == g,
        channel(pack(a, r, g, b), Channel::Blue) == b,
{
    assert(((a << 24 | r << 16 | g << 8 | b) >> 24) & 0xff == a) by (bit_vector)
        requires
            a <= 255,
            r <= 255,
            g <= 255,
            b <= 255,
    ;
    assert(((a << 24 | r << 16 | g << 8 | b) >> 16) & 0xff == r) by (bit_vector)
        requires
            a <= 255,
            r <= 255,
            g <= 255,
            b <= 255,
    ;
    assert(((a << 24 | r << 16 | g << 8 | b) >> 8) & 0xff == g) by (bit_vector)
        requires
            a <= 255,
            r <= 255,
            g <= 255,
            b <= 255,
    ;
    assert((a << 24 | r << 16 | g << 8 | b) & 0xff == b) by (bit_vector)
        requires
            a <= 255,
            r <= 255,
            g <= 255,
            b <= 255,
    ;
}

/// Packing undoes extraction: a pixel is rebuilt from its four channels.
pub proof fn lemma_pack_of_channels(p: u32)
    ensures
        pack(
            channel(p, Channel::Alpha),
            channel(p, Channel::Red),
            channel(p, Channel::Green),
            channel(p, Channel::Blue),
        ) == p,
{
    assert((((p >> 24) & 0xff) << 24 | ((p >> 16) & 0xff) << 16 | ((p >> 8) & 0xff) << 8 | (p
        & 0xff)) == p) by (bit_vector);
}

/// Two pixels with the same four channels are the same pixel.
pub proof fn lemma_channels_determine_pixel(p: u32, q: u32)
    requires
        channel(p, Channel::Alpha) == channel(q, Channel::Alpha),
        channel(p, Channel::Red) == channel(q, Channel::Red),
        channel(p, Channel::Green) == channel(q, Channel::Green),
        channel(p, Channel::Blue) == channel(q, Channel::Blue),
    ensures
        p == q,
{
    lemma_pack_of_channels(p);
    lemma_pack_of_channels(q);
}

/// The alpha channel of `p`.
pub fn alpha(p: u32) -> (c: u32)
    ensures
        c == channel(p, Channel::Alpha),
        c <= 255,
{
    proof {
        lemma_channel_bound(p, Channel::Alpha);
    }
    (p >> 24) & 0xff
}

/// The red channel of `p`.
pub fn red(p: u32) -> (c: u32)
    ensures
        c == channel(p, Channel::Red),
        c <= 255,
{
    proof {
        lemma_channel_bound(p, Channel::Red);
    }
    (p >> 16) & 0xff
}

/// The green channel of `p`.
pub fn green(p: u32) -> (c: u32)
    ensures
        c == channel(p, Channel::Green),
        c <= 255,
{
    proof {
        lemma_channel_bound(p, Channel::Green);
    }
    (p >> 8) & 0xff
}

/// The blue channel of `p`.
pub fn blue(p: u32) -> (c: u32)
    ensures
        c == channel(p, Channel::Blue),
        c <= 255,
{
    proof {
        lemma_channel_bound(p, Channel::Blue);
    }
    p & 0xff
}

/// The channel `ch` of `p`.
pub fn extract(p: u32, ch: Channel) -> (c: u8)
    ensures
        c == channel(p, ch),
{
    let wide = match ch {
        Channel::Alpha => alpha(p),
        Channel::Red => red(p),
        Channel::Green => green(p),
        Channel::Blue => blue(p),
    };
    wide as u8
}

/// Packs four channels into one pixel.
pub fn pixel(a: u32, r: u32, g: u32, b: u32) -> (p: u32)
    ensures
        p == pack(a, r, g, b),
{
    a << 24 | r << 16 | g << 8 | b
}

} // verus!
