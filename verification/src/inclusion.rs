//! The count of boundary crossings along a ray, by which a point is found
//! inside or outside a boundary.
use vstd::prelude::*;

verus! {

/// What the numeric side reports of one boundary segment `a -> b` seen from a
/// query point `c` along a ray `r`. With `s0 = r x (a - c)`, `s1 = r x (b - c)`,
/// `s2 = (a - c) x (b - c)` and `x = s2 / (s1 - s0)`, the position along the ray
/// at which the segment's line meets it.
#[derive(Clone, Copy, Debug, PartialEq, Eq, Structural)]
pub struct RayProbe {
    /// `|x|` is within tolerance of zero.
    pub at_origin: bool,
    /// `s0 * s1 < 0`: the end points lie strictly on opposite sides of the ray's line.
    pub straddles: bool,
    /// `x > 0`.
    pub ahead: bool,
    /// `s0 <= 0`.
    pub start_nonpos: bool,
    /// `s0 >= 0`.
    pub start_nonneg: bool,
    /// `s1 > 0`.
    pub end_pos: bool,
    /// `s1 < 0`.
    pub end_neg: bool,
}

/// What one boundary segment contributes to the crossing count.
#[derive(Clone, Copy, Debug, PartialEq, Eq, Structural)]
pub enum Crossing {
    /// The query point lies on the segment.
    OnEdge,
    /// The ray crosses the segment from its non-positive to its positive side.
    Up,
    /// The ray crosses the segment from its non-negative to its negative side.
    Down,
    /// The ray does not cross the segment.
    Miss,
}

/// The contribution of a segment, from what was measured of it.
pub open spec fn crossing_of(probe: RayProbe) -> Crossing {
    if probe.at_origin && probe.straddles {
        Crossing::OnEdge
    } else if probe.ahead && probe.start_nonpos && probe.end_pos {
        Crossing::Up
    } else if probe.ahead && probe.start_nonneg && probe.end_neg {
        Crossing::Down
    } else {
        Crossing::Miss
    }
}

/// What a contribution adds to the signed crossing count.
pub open spec fn weight(c: Crossing) -> int {
    match c {
        Crossing::Up => 1,
        Crossing::Down => -1,
        _ => 0,
    }
}

/// The signed crossing count of a run of contributions.
pub open spec fn net_crossings(cs: Seq<Crossing>) -> int
    decreases cs.len(),
{
    if cs.len() == 0 {
        0
    } else {
        net_crossings(cs.drop_last()) + weight(cs.last())
    }
}

/// Whether some contribution reports the query point on the boundary.
pub open spec fn touches_boundary(cs: Seq<Crossing>) -> bool {
    exists|k: int| 0 <= k < cs.len() && cs[k] == Crossing::OnEdge
}

/// The verdict on a run of contributions: inside exactly if no segment holds the
/// query point and the signed crossing count is positive.
pub open spec fn inside(cs: Seq<Crossing>) -> bool {
    !touches_boundary(cs) && net_crossings(cs) > 0
}

/// Classifies one boundary segment.
pub fn classify(probe: RayProbe) -> (c: Crossing)
    ensures
        c == crossing_of(probe),
{
    if probe.at_origin && probe.straddles {
        Crossing::OnEdge
    } else if probe.ahead && probe.start_nonpos && probe.end_pos {
        Crossing::Up
    } else if probe.ahead && probe.start_nonneg && probe.end_neg {
        Crossing::Down
    } else {
        Crossing::Miss
    }
}

} // verus!
