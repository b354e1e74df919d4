use vstd::prelude::*;

verus! {

/// A color with four 8-bit channels: red, green, blue and alpha.
#[derive(Clone, Copy, Debug, PartialEq, Eq, Structural)]
pub struct ColorPoint {
    pub r: u8,
    pub g: u8,
    pub b: u8,
    pub a: u8,
}

/// The square of the difference of two channel values.
pub open spec fn channel_gap_sq(x: u8, y: u8) -> int {
    (x as int - y as int) * (x as int - y as int)
}

/// The squared Euclidean distance between two colors over all four channels.
pub open spec fn dist_sq(p: ColorPoint, q: ColorPoint) -> int {
    channel_gap_sq(p.r, q.r) + channel_gap_sq(p.g, q.g) + channel_gap_sq(p.b, q.b)
        + channel_gap_sq(p.a, q.a)
}

impl ColorPoint {
    pub fn new(r: u8, g: u8, b: u8, a: u8) -> (p: ColorPoint)
        ensures
            p == (ColorPoint { r, g, b, a }),
    {
        ColorPoint { r, g, b, a }
    }

    /// The channels in the order red, green, blue, alpha.
    pub fn channels(&self) -> (c: [u8; 4])
        ensures
            c@ == seq![self.r, self.g, self.b, self.a],
    {
        [self.r, self.g, self.b, self.a]
    }
}

fn channel_gap_sq_exec(x: u8, y: u8) -> (s: u32)
    ensures
        s as int == channel_gap_sq(x, y),
        s <= 65025,
{
    let d: u32 = if x >= y {
        (x - y) as u32
    } else {
        (y - x) as u32
    };
    proof {
        assert(d * d <= 255 * 255) by (nonlinear_arith)
            requires
                d <= 255,
        ;
        assert((x as int - y as int) * (x as int - y as int) == d * d) by (nonlinear_arith)
            requires
                d == x - y || d == y - x,
        ;
    }
    d * d
}

/// Squared Euclidean distance between two colors. Its square root is the
/// Euclidean distance; since the root is monotone, comparing squared distances
/// orders colors exactly as comparing distances does.
pub fn squared_distance(p: &ColorPoint, q: &ColorPoint) -> (d: u32)
    ensures
        d as int == dist_sq(*p, *q),
{
    channel_gap_sq_exec(p.r, q.r) + channel_gap_sq_exec(p.g, q.g) + channel_gap_sq_exec(p.b, q.b)
        + channel_gap_sq_exec(p.a, q.a)
}

/// Distance is symmetric, and every color is at distance zero from itself
/// (and from no other color).
pub proof fn lemma_distance_symmetric_and_zero(p: ColorPoint, q: ColorPoint)
    ensures
        dist_sq(p, q) == dist_sq(q, p),
        dist_sq(p, p) == 0,
        dist_sq(p, q) >= 0,
        dist_sq(p, q) == 0 <==> p == q,
{
    assert(dist_sq(p, q) == dist_sq(q, p)) by (nonlinear_arith);
    assert(channel_gap_sq(p.r, q.r) >= 0) by (nonlinear_arith);
    assert(channel_gap_sq(p.g, q.g) >= 0) by (nonlinear_arith);
    assert(channel_gap_sq(p.b, q.b) >= 0) by (nonlinear_arith);
    assert(channel_gap_sq(p.a, q.a) >= 0) by (nonlinear_arith);
    assert(channel_gap_sq(p.r, q.r) == 0 ==> p.r == q.r) by (nonlinear_arith);
    assert(channel_gap_sq(p.g, q.g) == 0 ==> p.g == q.g) by (nonlinear_arith);
    assert(channel_gap_sq(p.b, q.b) == 0 ==> p.b == q.b) by (nonlinear_arith);
    assert(channel_gap_sq(p.a, q.a) == 0 ==> p.a == q.a) by (nonlinear_arith);
}

} // verus!
