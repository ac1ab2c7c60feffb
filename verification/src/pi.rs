//! Network LED transport: operating parameters and per-frame payload encoding.
//!
//! The peer expects a one-time 28-byte big-endian parameter block on connect,
//! followed by one `3 * led_count`-byte RGB-triplet stream per update. This
//! module builds both byte sequences; the socket itself is driven by the
//! embedding application.

use vstd::prelude::*;

verus! {

/// A single RGB color, one byte per channel.
#[derive(Clone, Copy, PartialEq, Eq, Structural, Debug)]
pub struct Color {
    pub r: u8,
    pub g: u8,
    pub b: u8,
}

impl Color {
    /// The all-zero (black) color.
    pub fn default() -> (c: Color)
        ensures
            c.r == 0 && c.g == 0 && c.b == 0,
    {
        Color { r: 0, g: 0, b: 0 }
    }
}

/// Operating parameters sent once when a connection is established.
///
/// The per-channel multipliers and the temporal interpolation factor are
/// IEEE-754 single-precision values carried as their 32-bit patterns, so the
/// encoded block is a pure function of these integer fields.
#[derive(Clone, Copy, PartialEq, Eq, Structural, Debug)]
pub struct Params {
    /// Maximum brightness the peer may drive.
    pub max_b: u32,
    /// Number of LEDs the peer controls.
    pub num_l: u32,
    /// Red channel multiplier (bit pattern of an `f32`).
    pub mul_r: u32,
    /// Green channel multiplier (bit pattern of an `f32`).
    pub mul_g: u32,
    /// Blue channel multiplier (bit pattern of an `f32`).
    pub mul_b: u32,
    /// Temporal interpolation factor (bit pattern of an `f32`).
    pub lerp: u32,
    /// Updates per second the peer should expect.
    pub rate: u32,
}

/// The four big-endian bytes of a 32-bit word.
pub open spec fn spec_be32(x: u32) -> Seq<u8> {
    seq![
        (x / 0x1000000) as u8,
        ((x / 0x10000) % 0x100) as u8,
        ((x / 0x100) % 0x100) as u8,
        (x % 0x100) as u8,
    ]
}

/// The 28-byte handshake block: each parameter in declaration order,
/// big-endian.
pub open spec fn spec_params_bytes(p: Params) -> Seq<u8> {
    spec_be32(p.max_b) + spec_be32(p.num_l) + spec_be32(p.mul_r) + spec_be32(p.mul_g)
        + spec_be32(p.mul_b) + spec_be32(p.lerp) + spec_be32(p.rate)
}

/// Appends the big-endian bytes of `x` to `out`.
fn push_be32(out: &mut Vec<u8>, x: u32)
    ensures
        final(out)@ == old(out)@ + spec_be32(x),
{
    let b0: u8 = (x >> 24) as u8;
    let b1: u8 = ((x >> 16) & 0xff) as u8;
    let b2: u8 = ((x >> 8) & 0xff) as u8;
    let b3: u8 = (x & 0xff) as u8;
    proof {
        assert(b0 == (x / 0x1000000) as u8 && b1 == ((x / 0x10000) % 0x100) as u8 && b2 == ((
        x / 0x100) % 0x100) as u8 && b3 == (x % 0x100) as u8) by (bit_vector)
            requires
                b0 == (x >> 24) as u8 && b1 == ((x >> 16) & 0xff) as u8 && b2 == ((x >> 8)
                    & 0xff) as u8 && b3 == (x & 0xff) as u8,
        ;
    }
    out.push(b0);
    out.push(b1);
    out.push(b2);
    out.push(b3);
    proof {
        assert(out@ =~= old(out)@ + spec_be32(x));
    }
}

impl Params {
    /// Encodes the parameter block exactly as the peer reads it: the seven
    /// fields in declaration order, each as four big-endian bytes.
    pub fn to_be_bytes(&self) -> (r: Vec<u8>)
        ensures
            r@ == spec_params_bytes(*self),
            r@.len() == 28,
    {
        let mut out: Vec<u8> = Vec::new();
        push_be32(&mut out, self.max_b);
        push_be32(&mut out, self.num_l);
        push_be32(&mut out, self.mul_r);
        push_be32(&mut out, self.mul_g);
        push_be32(&mut out, self.mul_b);
        push_be32(&mut out, self.lerp);
        push_be32(&mut out, self.rate);
        proof {
            assert(out@ =~= spec_params_bytes(*self));
        }
        out
    }
}

/// The per-frame stream for a list of colors: consecutive `(r, g, b)`
/// triplets, one per LED, in list order.
pub open spec fn spec_frame_bytes(colors: Seq<Color>) -> Seq<u8>
    decreases colors.len(),
{
    if colors.len() == 0 {
        Seq::empty()
    } else {
        spec_frame_bytes(colors.drop_last()) + seq![
            colors.last().r,
            colors.last().g,
            colors.last().b,
        ]
    }
}

/// Encodes one frame of colors as the RGB-triplet stream the peer expects.
pub fn frame_bytes(colors: &Vec<Color>) -> (r: Vec<u8>)
    ensures
        r@ == spec_frame_bytes(colors@),
        r@.len() == 3 * colors@.len(),
{
    let mut out: Vec<u8> = Vec::new();
    let mut i: usize = 0;
    proof {
        assert(colors@.subrange(0, 0) =~= Seq::<Color>::empty());
    }
    while i < colors.len()
        invariant
            i <= colors@.len(),
            out@ == spec_frame_bytes(colors@.subrange(0, i as int)),
            out@.len() == 3 * i,
        decreases colors@.len() - i,
    {
        let c = colors[i];
        out.push(c.r);
        out.push(c.g);
        out.push(c.b);
        i = i + 1;
        proof {
            let pre = colors@.subrange(0, i - 1);
            let cur = colors@.subrange(0, i as int);
            assert(cur.drop_last() =~= pre);
            assert(cur.last() == colors@[i - 1]);
            assert(out@ =~= spec_frame_bytes(pre) + seq![cur.last().r, cur.last().g, cur.last().b]);
        }
    }
    proof {
        assert(colors@.subrange(0, colors@.len() as int) =~= colors@);
    }
    out
}

/// Each LED's triplet lands at byte offset `3 * i` of the frame stream.
pub proof fn lemma_frame_bytes_at(colors: Seq<Color>, i: int)
    requires
        0 <= i < colors.len(),
    ensures
        spec_frame_bytes(colors)[3 * i] == colors[i].r,
        spec_frame_bytes(colors)[3 * i + 1] == colors[i].g,
        spec_frame_bytes(colors)[3 * i + 2] == colors[i].b,
    decreases colors.len(),
{
    if i == colors.len() - 1 {
        assert(spec_frame_bytes(colors.drop_last()).len() == 3 * (colors.len() - 1)) by {
            lemma_frame_bytes_len(colors.drop_last());
        }
    } else {
        lemma_frame_bytes_at(colors.drop_last(), i);
        assert(spec_frame_bytes(colors.drop_last()).len() == 3 * (colors.len() - 1)) by {
            lemma_frame_bytes_len(colors.drop_last());
        }
        assert(colors.drop_last()[i] == colors[i]);
    }
}

/// The frame stream is three bytes per color.
pub proof fn lemma_frame_bytes_len(colors: Seq<Color>)
    ensures
        spec_frame_bytes(colors).len() == 3 * colors.len(),
    decreases colors.len(),
{
    if colors.len() > 0 {
        lemma_frame_bytes_len(colors.drop_last());
    }
}

} // verus!
