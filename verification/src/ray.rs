//! The crossing count in exact arithmetic: what the measurements along a ray are
//! where the coordinates are integers and the tolerance is zero, and what the
//! verdict then is for a point in the kernel of a boundary and for a point
//! beyond a line that the boundary does not reach; first of a ring of corners,
//! then of the verdicts of a boundary that is one closed loop.
use crate::inclusion::{
    crossing_of, inside, net_crossings, touches_boundary, weight, Crossing, RayProbe,
};
use crate::polyline::{closed_loop, lemma_closed_loop_at, Polyline};
use vstd::prelude::*;

verus! {

/// The cross product of two plane vectors.
pub open spec fn cross(a: (int, int), b: (int, int)) -> int {
    a.0 * b.1 - a.1 * b.0
}

/// What is measured of the segment `a -> b`, both taken from the query point,
/// along the ray `r`. The position along the ray is `s2 / (s1 - s0)`: it is
/// zero where `s2` is and the divisor is not, and positive where `s2` and the
/// divisor have one sign, or `s2` is positive and the divisor zero.
pub open spec fn exact_probe(r: (int, int), a: (int, int), b: (int, int)) -> RayProbe {
    let s0 = cross(r, a);
    let s1 = cross(r, b);
    let s2 = cross(a, b);
    RayProbe {
        at_origin: s2 == 0 && s1 != s0,
        straddles: (s0 < 0 && s1 > 0) || (s0 > 0 && s1 < 0),
        ahead: (s2 > 0 && s1 >= s0) || (s2 < 0 && s1 < s0),
        start_nonpos: s0 <= 0,
        start_nonneg: s0 >= 0,
        end_pos: s1 > 0,
        end_neg: s1 < 0,
    }
}

/// The corner that follows corner `i` on a ring of `n` corners.
pub open spec fn following(i: int, n: int) -> int {
    if i + 1 == n {
        0
    } else {
        i + 1
    }
}

/// What the segments of a ring contribute, in order. The corners are taken from
/// the query point.
pub open spec fn ring_crossings(r: (int, int), ring: Seq<(int, int)>) -> Seq<Crossing> {
    Seq::new(
        ring.len(),
        |i: int| crossing_of(exact_probe(r, ring[i], ring[following(i, ring.len() as int)])),
    )
}

/// The query point lies strictly to the left of every segment of the ring: it
/// is in the kernel of a ring that runs counterclockwise.
pub open spec fn in_kernel(ring: Seq<(int, int)>) -> bool {
    forall|i: int|
        0 <= i < ring.len() ==> cross(#[trigger] ring[i], ring[following(i, ring.len() as int)])
            > 0
}

/// The line of the ray passes through no corner of the ring.
pub open spec fn avoids_corners(r: (int, int), ring: Seq<(int, int)>) -> bool {
    forall|i: int| 0 <= i < ring.len() ==> cross(r, #[trigger] ring[i]) != 0
}

/// The ring lies strictly on the left of the line through the query point along `d`.
pub open spec fn beyond(d: (int, int), ring: Seq<(int, int)>) -> bool {
    forall|i: int| 0 <= i < ring.len() ==> cross(d, #[trigger] ring[i]) > 0
}

/// The product of two differences, multiplied out.
pub proof fn lemma_multiply_out(p: int, q: int, u: int, v: int)
    ensures
        (p - q) * (u - v) == p * u - p * v - q * u + q * v,
{
    assert((p - q) * (u - v) == p * u - p * v - q * u + q * v) by (nonlinear_arith);
}

/// A product of four factors does not depend on how they are paired.
pub proof fn lemma_pairings(a: int, b: int, c: int, d: int)
    ensures
        (a * b) * (c * d) == (a * d) * (c * b),
        (a * b) * (c * d) == (a * c) * (b * d),
        (a * b) * (c * d) == (a * c) * (d * b),
{
    assert((a * b) * (c * d) == (a * d) * (c * b)) by (nonlinear_arith);
    assert((a * b) * (c * d) == (a * c) * (b * d)) by (nonlinear_arith);
    assert((a * b) * (c * d) == (a * c) * (d * b)) by (nonlinear_arith);
}

/// The products of the cross products of four vectors are bound by one identity.
pub proof fn lemma_four_vectors(r: (int, int), d: (int, int), a: (int, int), b: (int, int))
    ensures
        cross(r, a) * cross(d, b) - cross(r, b) * cross(d, a) == cross(r, d) * cross(a, b),
{
    let (r0, r1) = r;
    let (d0, d1) = d;
    let (a0, a1) = a;
    let (b0, b1) = b;
    lemma_multiply_out(r0 * a1, r1 * a0, d0 * b1, d1 * b0);
    lemma_multiply_out(r0 * b1, r1 * b0, d0 * a1, d1 * a0);
    lemma_multiply_out(r0 * d1, r1 * d0, a0 * b1, a1 * b0);
    lemma_pairings(r0, a1, d0, b1);
    lemma_pairings(r1, a0, d1, b0);
    lemma_pairings(r0, a1, d1, b0);
    lemma_pairings(r1, a0, d0, b1);
    lemma_pairings(r0, b1, d1, a0);
    lemma_pairings(r1, b0, d0, a1);
}

/// The product of two numbers of one strict sign is positive, and that of two
/// of opposite strict signs is negative.
pub proof fn lemma_sign_of_product(x: int, y: int)
    ensures
        (x > 0 && y > 0) || (x < 0 && y < 0) ==> x * y > 0,
        (x > 0 && y < 0) || (x < 0 && y > 0) ==> x * y < 0,
        x == 0 || y == 0 ==> x * y == 0,
{
    assert((x > 0 && y > 0) || (x < 0 && y < 0) ==> x * y > 0) by (nonlinear_arith);
    assert((x > 0 && y < 0) || (x < 0 && y > 0) ==> x * y < 0) by (nonlinear_arith);
    assert(x == 0 || y == 0 ==> x * y == 0) by (nonlinear_arith);
}

/// On one side of a line through the origin, "counterclockwise of" is
/// transitive: where `a`, `b` and `c` lie strictly on one side of the line
/// along `r`, `b` counterclockwise of `a` and `c` of `b`, `c` is of `a`.
pub proof fn lemma_turn_is_transitive(r: (int, int), a: (int, int), b: (int, int), c: (int, int))
    requires
        (cross(r, a) > 0 && cross(r, b) > 0 && cross(r, c) > 0) || (cross(r, a) < 0 && cross(r, b)
            < 0 && cross(r, c) < 0),
        cross(a, b) > 0,
        cross(b, c) > 0,
    ensures
        cross(a, c) > 0,
{
    lemma_four_vectors(r, a, b, c);
    let x = cross(r, b);
    let y = cross(a, c);
    let p = cross(r, a) * cross(b, c);
    let q = cross(r, c) * cross(a, b);
    assert(cross(r, b) * cross(a, c) - cross(r, c) * cross(a, b) == cross(r, a) * cross(b, c));
    lemma_sign_of_product(cross(r, a), cross(b, c));
    lemma_sign_of_product(cross(r, c), cross(a, b));
    lemma_sign_of_product(x, y);
    assert(x * y == p + q);
}

/// The signed count of contributions that are all upward crossings or misses is
/// not negative, and positive where one of them is an upward crossing.
pub proof fn lemma_net_of_ups(cs: Seq<Crossing>)
    requires
        forall|i: int| 0 <= i < cs.len() ==> cs[i] == Crossing::Up || cs[i] == Crossing::Miss,
    ensures
        net_crossings(cs) >= 0,
        (exists|i: int| 0 <= i < cs.len() && cs[i] == Crossing::Up) ==> net_crossings(cs) > 0,
    decreases cs.len(),
{
    if cs.len() > 0 {
        let shorter = cs.drop_last();
        lemma_net_of_ups(shorter);
        if exists|i: int| 0 <= i < cs.len() && cs[i] == Crossing::Up {
            let i = choose|i: int| 0 <= i < cs.len() && cs[i] == Crossing::Up;
            if i < cs.len() - 1 {
                assert(shorter[i] == Crossing::Up);
            }
        }
    }
}

/// A ring holds the points of its kernel: where the query point lies strictly
/// to the left of every segment, and the ray's line passes through no corner,
/// the verdict is inside.
pub proof fn lemma_kernel_is_inside(r: (int, int), ring: Seq<(int, int)>)
    requires
        ring.len() > 0,
        in_kernel(ring),
        avoids_corners(r, ring),
    ensures
        inside(ring_crossings(r, ring)),
{
    let n = ring.len() as int;
    let cs = ring_crossings(r, ring);
    assert forall|i: int| 0 <= i < n implies (cs[i] == Crossing::Up || cs[i] == Crossing::Miss) && (
    cs[i] == Crossing::Up <==> cross(r, ring[i]) < 0 && cross(r, ring[following(i, n)]) > 0) by {
        assert(cross(ring[i], ring[following(i, n)]) > 0);
    }
    assert(!touches_boundary(cs));
    lemma_net_of_ups(cs);
    if !exists|i: int| 0 <= i < n && cs[i] == Crossing::Up {
        assert forall|i: int| 0 <= i < n implies !(cross(r, #[trigger] ring[i]) < 0 && cross(
            r,
            ring[following(i, n)],
        ) > 0) by {
            assert(!(cs[i] == Crossing::Up));
        }
        lemma_one_side(r, ring);
        lemma_fan(r, ring, n - 1);
        if n == 1 {
            assert(cross(ring[0], ring[following(0, n)]) > 0);
            assert(cross(ring[0], ring[0]) == 0) by (nonlinear_arith);
        } else {
            assert(cross(ring[n - 1], ring[following(n - 1, n)]) > 0);
            assert(cross(ring[0], ring[n - 1]) > 0);
            assert(cross(ring[n - 1], ring[0]) == -cross(ring[0], ring[n - 1])) by (nonlinear_arith);
        }
    }
}

/// A ring no segment of which passes from the right of the ray's line to its
/// left lies on one side of the line.
pub proof fn lemma_one_side(r: (int, int), ring: Seq<(int, int)>)
    requires
        ring.len() > 0,
        avoids_corners(r, ring),
        forall|i: int|
            0 <= i < ring.len() ==> !(cross(r, #[trigger] ring[i]) < 0 && cross(
                r,
                ring[following(i, ring.len() as int)],
            ) > 0),
    ensures
        (forall|i: int| 0 <= i < ring.len() ==> cross(r, #[trigger] ring[i]) > 0) || (forall|i: int|
            0 <= i < ring.len() ==> cross(r, #[trigger] ring[i]) < 0),
{
    let n = ring.len() as int;
    if exists|j: int| 0 <= j < n && cross(r, ring[j]) < 0 {
        let j = choose|j: int| 0 <= j < n && cross(r, ring[j]) < 0;
        lemma_stays_right(r, ring, j, n - 1);
        assert(following(n - 1, n) == 0);
        assert(cross(r, ring[0]) != 0);
        assert(cross(r, ring[0]) < 0);
        assert forall|i: int| 0 <= i < n implies cross(r, #[trigger] ring[i]) < 0 by {
            lemma_stays_right(r, ring, 0, i);
        }
    } else {
        assert forall|i: int| 0 <= i < n implies cross(r, #[trigger] ring[i]) > 0 by {
            assert(cross(r, ring[i]) != 0);
        }
    }
}

/// From a corner on the right of the ray's line, every later corner is on the
/// right, where no segment passes from the right to the left.
pub proof fn lemma_stays_right(r: (int, int), ring: Seq<(int, int)>, from: int, to: int)
    requires
        0 <= from <= to < ring.len(),
        avoids_corners(r, ring),
        cross(r, ring[from]) < 0,
        forall|i: int|
            0 <= i < ring.len() ==> !(cross(r, #[trigger] ring[i]) < 0 && cross(
                r,
                ring[following(i, ring.len() as int)],
            ) > 0),
    ensures
        cross(r, ring[to]) < 0,
    decreases to - from,
{
    if from < to {
        lemma_stays_right(r, ring, from, to - 1);
        assert(following(to - 1, ring.len() as int) == to);
        assert(!(cross(r, ring[to - 1]) < 0 && cross(r, ring[following(to - 1, ring.len() as int)])
            > 0));
        assert(cross(r, ring[to]) != 0);
    }
}

/// In a ring on one side of the ray's line, each segment of which turns
/// counterclockwise, every corner is counterclockwise of the first.
pub proof fn lemma_fan(r: (int, int), ring: Seq<(int, int)>, k: int)
    requires
        0 <= k < ring.len(),
        in_kernel(ring),
        (forall|i: int| 0 <= i < ring.len() ==> cross(r, #[trigger] ring[i]) > 0) || (forall|i: int|
            0 <= i < ring.len() ==> cross(r, #[trigger] ring[i]) < 0),
    ensures
        k >= 1 ==> cross(ring[0], ring[k]) > 0,
    decreases k,
{
    if k >= 2 {
        lemma_fan(r, ring, k - 1);
        assert(following(k - 1, ring.len() as int) == k);
        assert(cross(ring[k - 1], ring[following(k - 1, ring.len() as int)]) > 0);
        assert(cross(r, ring[0]) != 0 && cross(r, ring[k - 1]) != 0 && cross(r, ring[k]) != 0);
        lemma_turn_is_transitive(r, ring[0], ring[k - 1], ring[k]);
    } else if k == 1 {
        assert(following(0, ring.len() as int) == 1);
        assert(cross(ring[0], ring[following(0, ring.len() as int)]) > 0);
    }
}

/// One if the number is positive, else zero.
pub open spec fn positive(x: int) -> int {
    if x > 0 {
        1
    } else {
        0
    }
}

/// The side of the ray's line on which corner `k` lies, corner `n` being the first again.
pub open spec fn side(r: (int, int), ring: Seq<(int, int)>, k: int) -> int {
    cross(
        r,
        ring[if k == ring.len() {
            0
        } else {
            k
        }],
    )
}

/// A ring holds no point beyond a line that it does not reach: where the whole
/// ring lies strictly on one side of a line through the query point, and the
/// ray's line passes through no corner, the verdict is outside, with as many
/// crossings downward as upward.
pub proof fn lemma_beyond_is_outside(r: (int, int), d: (int, int), ring: Seq<(int, int)>)
    requires
        ring.len() > 0,
        beyond(d, ring),
        avoids_corners(r, ring),
    ensures
        !touches_boundary(ring_crossings(r, ring)),
        net_crossings(ring_crossings(r, ring)) == 0,
        !inside(ring_crossings(r, ring)),
{
    let n = ring.len() as int;
    let cs = ring_crossings(r, ring);
    let turn = cross(d, r);
    assert forall|i: int| 0 <= i < n implies cs[i] != Crossing::OnEdge && weight(#[trigger] cs[i])
        == (if turn > 0 {
        positive(side(r, ring, i + 1)) - positive(side(r, ring, i))
    } else {
        0
    }) by {
        let a = ring[i];
        let b = ring[following(i, n)];
        assert(side(r, ring, i + 1) == cross(r, b));
        assert(side(r, ring, i) == cross(r, a));
        assert(cross(r, a) != 0 && cross(r, b) != 0);
        assert(cross(d, a) > 0 && cross(d, b) > 0);
        lemma_four_vectors(r, d, a, b);
        lemma_sign_of_product(cross(r, a), cross(d, b));
        lemma_sign_of_product(cross(r, b), cross(d, a));
        lemma_sign_of_product(cross(r, d), cross(a, b));
        assert(cross(r, d) == -turn) by (nonlinear_arith)
            requires
                turn == d.0 * r.1 - d.1 * r.0,
                cross(r, d) == r.0 * d.1 - r.1 * d.0,
        ;
    }
    assert(!touches_boundary(cs));
    lemma_telescope(r, ring, turn, cs, n);
    assert(cs.take(n) =~= cs);
}

/// The signed count over the first `k` segments of a ring is the difference of
/// the sides of corner `k` and of the first corner, where the ray points to the
/// side of the ring, and zero where it points away.
pub proof fn lemma_telescope(
    r: (int, int),
    ring: Seq<(int, int)>,
    turn: int,
    cs: Seq<Crossing>,
    k: int,
)
    requires
        0 <= k <= ring.len(),
        cs.len() == ring.len(),
        forall|i: int|
            0 <= i < ring.len() ==> weight(#[trigger] cs[i]) == (if turn > 0 {
                positive(side(r, ring, i + 1)) - positive(side(r, ring, i))
            } else {
                0
            }),
    ensures
        net_crossings(cs.take(k)) == (if turn > 0 {
            positive(side(r, ring, k)) - positive(side(r, ring, 0))
        } else {
            0
        }),
    decreases k,
{
    if k > 0 {
        lemma_telescope(r, ring, turn, cs, k - 1);
        assert(cs.take(k).drop_last() =~= cs.take(k - 1));
        assert(cs.take(k).last() == cs[k - 1]);
    }
}

/// The vector from `c` to `a`.
pub open spec fn from_to(c: (int, int), a: (int, int)) -> (int, int) {
    (a.0 - c.0, a.1 - c.1)
}

/// The measuring function works as on exact numbers: with `xy` the
/// coordinates of a point and `ray` the direction of the ray from a query
/// point, it measures what `exact_probe` says.
pub open spec fn probe_exact<P, F: Fn(&P, &P, &P) -> RayProbe>(
    probe: &F,
    xy: spec_fn(P) -> (int, int),
    ray: spec_fn(P) -> (int, int),
) -> bool {
    forall|c: &P, a: &P, b: &P, m: RayProbe| #[trigger]
        call_ensures(*probe, (c, a, b), m) ==> m == exact_probe(
            ray(*c),
            from_to(xy(*c), xy(*a)),
            from_to(xy(*c), xy(*b)),
        )
}

/// The points of a boundary, taken from the query point `c`.
pub open spec fn ring_around<P>(polyline: &Polyline<P>, c: P, xy: spec_fn(P) -> (int, int)) -> Seq<
    (int, int),
> {
    Seq::new(polyline.positions@.len(), |i: int| from_to(xy(c), xy(polyline.positions@[i])))
}

/// The boundary is one closed loop through all its points, in order.
pub open spec fn single_loop<P>(polyline: &Polyline<P>) -> bool {
    polyline.positions@.len() > 0 && polyline.indices@ == closed_loop(
        0,
        polyline.positions@.len() as int,
    )
}

/// Where measuring is exact, and no segment holds the query point, a record of
/// measuring a single loop gives the contributions of its ring.
proof fn lemma_measured_ring<P: Copy, F: Fn(&P, &P, &P) -> RayProbe>(
    polyline: &Polyline<P>,
    c: &P,
    probe: &F,
    xy: spec_fn(P) -> (int, int),
    ray: spec_fn(P) -> (int, int),
    probes: Seq<RayProbe>,
)
    requires
        single_loop(polyline),
        probe_exact(probe, xy, ray),
        polyline.measured(c, probe, probes),
        !touches_boundary(ring_crossings(ray(*c), ring_around(polyline, *c, xy))),
    ensures
        probes.map_values(|p: RayProbe| crossing_of(p)) == ring_crossings(
            ray(*c),
            ring_around(polyline, *c, xy),
        ),
{
    let n = polyline.positions@.len() as int;
    let ring = ring_around(polyline, *c, xy);
    let rc = ring_crossings(ray(*c), ring);
    let cs = probes.map_values(|p: RayProbe| crossing_of(p));
    assert(polyline.positions.len() == polyline.positions@.len());
    assert forall|k: int| 0 <= k < probes.len() implies cs[k] == rc[k] by {
        lemma_closed_loop_at(0, n, k);
        assert(polyline.indices@[k].0 == k);
        assert(polyline.indices@[k].1 == following(k, n));
        assert(call_ensures(
            *probe,
            (
                c,
                &polyline.positions@[polyline.indices@[k].0 as int],
                &polyline.positions@[polyline.indices@[k].1 as int],
            ),
            probes[k],
        ));
    }
    if probes.len() < n {
        let last = probes.len() - 1;
        assert(cs[last] == Crossing::OnEdge);
        assert(rc[last] == Crossing::OnEdge);
    }
    assert(cs =~= rc);
}

/// A single loop holds the points of its kernel: where measuring is exact, the
/// query point lies strictly to the left of every segment, and the ray's line
/// passes through no point of the boundary, every verdict is inside.
pub proof fn lemma_loop_holds_its_kernel<P: Copy, F: Fn(&P, &P, &P) -> RayProbe>(
    polyline: &Polyline<P>,
    c: &P,
    probe: &F,
    xy: spec_fn(P) -> (int, int),
    ray: spec_fn(P) -> (int, int),
    res: bool,
)
    requires
        single_loop(polyline),
        probe_exact(probe, xy, ray),
        in_kernel(ring_around(polyline, *c, xy)),
        avoids_corners(ray(*c), ring_around(polyline, *c, xy)),
        polyline.included(c, probe, res),
    ensures
        res,
{
    let ring = ring_around(polyline, *c, xy);
    lemma_kernel_is_inside(ray(*c), ring);
    let probes = choose|probes: Seq<RayProbe>| #[trigger]
        polyline.measured(c, probe, probes) && res == inside(
            probes.map_values(|p: RayProbe| crossing_of(p)),
        );
    lemma_measured_ring(polyline, c, probe, xy, ray, probes);
}

/// A single loop holds no point beyond a line that it does not reach: where
/// measuring is exact, the whole boundary lies strictly on one side of a line
/// through the query point, and the ray's line passes through no point of the
/// boundary, every verdict is outside.
pub proof fn lemma_loop_holds_nothing_beyond<P: Copy, F: Fn(&P, &P, &P) -> RayProbe>(
    polyline: &Polyline<P>,
    c: &P,
    probe: &F,
    xy: spec_fn(P) -> (int, int),
    ray: spec_fn(P) -> (int, int),
    d: (int, int),
    res: bool,
)
    requires
        single_loop(polyline),
        probe_exact(probe, xy, ray),
        beyond(d, ring_around(polyline, *c, xy)),
        avoids_corners(ray(*c), ring_around(polyline, *c, xy)),
        polyline.included(c, probe, res),
    ensures
        !res,
{
    let ring = ring_around(polyline, *c, xy);
    lemma_beyond_is_outside(ray(*c), d, ring);
    let probes = choose|probes: Seq<RayProbe>| #[trigger]
        polyline.measured(c, probe, probes) && res == inside(
            probes.map_values(|p: RayProbe| crossing_of(p)),
        );
    lemma_measured_ring(polyline, c, probe, xy, ray, probes);
}

} // verus!
