//! The boundary of a face in the parameter plane: points and segments, the
//! projection of wires into it, and the test of whether it holds a point.
use crate::inclusion::{
    classify, crossing_of, inside, net_crossings, touches_boundary, Crossing, RayProbe,
};
use crate::polyline_curve::{wire_view, PolylineCurve};
use crate::seam::{
    distance, image, lemma_unwrapped_single_valued, lemma_unwrapped_within_half_period, order_at,
    seam_single_valued, shift_of, unwrap_axis, unwrapped, Axis, PeriodShift, SeamOrder,
};
use vstd::arithmetic::div_mod::{lemma_mod_self_0, lemma_small_mod};
use vstd::prelude::*;

verus! {

/// The points of an edge's polyline that enter a wire's loop: all but the last,
/// which the next edge brings as its first.
pub open spec fn kept<Q>(edge: Seq<Q>) -> Seq<Q> {
    if edge.len() == 0 {
        edge
    } else {
        edge.drop_last()
    }
}

/// The points of the first `e` edges of a wire, in order, each with the mark of
/// whether it is the first point of its edge.
pub open spec fn wire_points<Q>(wire: Seq<Seq<Q>>, e: int) -> Seq<(Q, bool)>
    decreases e,
{
    if e <= 0 {
        Seq::empty()
    } else {
        wire_points(wire, e - 1) + Seq::new(
            kept(wire[e - 1]).len(),
            |j: int| (kept(wire[e - 1])[j], j == 0),
        )
    }
}

/// The segments of a closed loop through `n` consecutive points, the first of
/// which has the index `start`.
pub open spec fn closed_loop(start: int, n: int) -> Seq<(usize, usize)> {
    Seq::new(n as nat, |i: int| ((start + i) as usize, (start + (i + 1) % n) as usize))
}

/// The hint for the point at `k`: none for the first point of an edge, else the
/// point placed before it.
pub open spec fn hint_at<P>(placed: Seq<P>, k: int, first_of_edge: bool) -> Option<P> {
    if first_of_edge || k <= 0 {
        None
    } else {
        Some(placed[k - 1])
    }
}

/// The point placed before the one at `k`, if any.
pub open spec fn previous_at<P>(placed: Seq<P>, k: int) -> Option<P> {
    if k <= 0 {
        None
    } else {
        Some(placed[k - 1])
    }
}

/// `out` is a projection of `pt`: `sp` found parameters for it from the hint, and
/// these were unwrapped against `previous`, first along `u`, then along `v`.
pub open spec fn projected<
    S,
    Q,
    P,
    T,
    F: Fn(&S, Q, Option<P>) -> Option<P>,
    G: Fn(Axis, P, T, P) -> SeamOrder,
    H: Fn(Axis, P, T, PeriodShift) -> P,
>(
    surface: &S,
    periods: (Option<T>, Option<T>),
    sp: &F,
    order: &G,
    apply: &H,
    pt: Q,
    hint: Option<P>,
    previous: Option<P>,
    out: P,
) -> bool {
    exists|raw: P, mid: P|
        #![trigger call_ensures(*sp, (surface, pt, hint), Some(raw)), unwrapped(Axis::V, periods.1, mid, previous, order, apply, out)]
        call_ensures(*sp, (surface, pt, hint), Some(raw)) && unwrapped(
            Axis::U,
            periods.0,
            raw,
            previous,
            order,
            apply,
            mid,
        ) && unwrapped(Axis::V, periods.1, mid, previous, order, apply, out)
}

/// Every point of `placed` is a projection of the wire point at its place.
pub open spec fn projects<
    S,
    Q,
    P,
    T,
    F: Fn(&S, Q, Option<P>) -> Option<P>,
    G: Fn(Axis, P, T, P) -> SeamOrder,
    H: Fn(Axis, P, T, PeriodShift) -> P,
>(
    surface: &S,
    periods: (Option<T>, Option<T>),
    sp: &F,
    order: &G,
    apply: &H,
    pts: Seq<(Q, bool)>,
    placed: Seq<P>,
) -> bool {
    &&& placed.len() <= pts.len()
    &&& forall|k: int|
        0 <= k < placed.len() ==> projected(
            surface,
            periods,
            sp,
            order,
            apply,
            (#[trigger] pts[k]).0,
            hint_at(placed, k, pts[k].1),
            previous_at(placed, k),
            placed[k],
        )
}

/// `sp` found no parameters for the wire point that follows those placed.
pub open spec fn rejected<S, Q, P, F: Fn(&S, Q, Option<P>) -> Option<P>>(
    surface: &S,
    sp: &F,
    pts: Seq<(Q, bool)>,
    placed: Seq<P>,
) -> bool {
    let at = placed.len() as int;
    at < pts.len() && call_ensures(
        *sp,
        (surface, pts[at].0, hint_at(placed, at, pts[at].1)),
        None::<P>,
    )
}

/// The points of the first `e` edges are the first of those of the first `n` edges.
pub proof fn lemma_wire_points_prefix<Q>(wire: Seq<Seq<Q>>, e: int, n: int)
    requires
        0 <= e <= n,
    ensures
        wire_points(wire, e).len() <= wire_points(wire, n).len(),
        forall|k: int|
            0 <= k < wire_points(wire, e).len() ==> wire_points(wire, n)[k] == wire_points(wire, e)[k],
    decreases n - e,
{
    if e < n {
        lemma_wire_points_prefix(wire, e, n - 1);
    }
}

/// Where the points of edge `e` stand among the points of the first `n` edges.
pub proof fn lemma_wire_point_at<Q>(wire: Seq<Seq<Q>>, e: int, j: int, n: int)
    requires
        0 <= e < n,
        0 <= j < kept(wire[e]).len(),
    ensures
        wire_points(wire, e + 1).len() == wire_points(wire, e).len() + kept(wire[e]).len(),
        wire_points(wire, e + 1).len() <= wire_points(wire, n).len(),
        wire_points(wire, n)[wire_points(wire, e).len() + j] == (kept(wire[e])[j], j == 0),
{
    lemma_wire_points_prefix(wire, e + 1, n);
    assert(wire_points(wire, e + 1)[wire_points(wire, e).len() + j] == (kept(wire[e])[j], j == 0));
}

/// The segment at `i` of a closed loop through `n` points.
pub proof fn lemma_closed_loop_at(start: int, n: int, i: int)
    requires
        0 <= start,
        0 <= i < n,
        start + n <= usize::MAX,
    ensures
        closed_loop(start, n)[i].0 == start + i,
        closed_loop(start, n)[i].1 == start + (if i + 1 == n {
            0
        } else {
            i + 1
        }),
        closed_loop(start, n)[i].0 < start + n,
        closed_loop(start, n)[i].1 < start + n,
{
    if i + 1 == n {
        lemma_mod_self_0(n);
    } else {
        lemma_small_mod((i + 1) as nat, n as nat);
    }
}

/// One more projected point keeps a run of projections one.
pub proof fn lemma_projects_push<
    S,
    Q,
    P,
    T,
    F: Fn(&S, Q, Option<P>) -> Option<P>,
    G: Fn(Axis, P, T, P) -> SeamOrder,
    H: Fn(Axis, P, T, PeriodShift) -> P,
>(
    surface: &S,
    periods: (Option<T>, Option<T>),
    sp: &F,
    order: &G,
    apply: &H,
    pts: Seq<(Q, bool)>,
    placed: Seq<P>,
    out: P,
)
    requires
        projects(surface, periods, sp, order, apply, pts, placed),
        placed.len() < pts.len(),
        projected(
            surface,
            periods,
            sp,
            order,
            apply,
            pts[placed.len() as int].0,
            hint_at(placed, placed.len() as int, pts[placed.len() as int].1),
            previous_at(placed, placed.len() as int),
            out,
        ),
    ensures
        projects(surface, periods, sp, order, apply, pts, placed.push(out)),
{
    let longer = placed.push(out);
    assert forall|k: int| 0 <= k < longer.len() implies projected(
        surface,
        periods,
        sp,
        order,
        apply,
        (#[trigger] pts[k]).0,
        hint_at(longer, k, pts[k].1),
        previous_at(longer, k),
        longer[k],
    ) by {
        assert(hint_at(longer, k, pts[k].1) == hint_at(placed, k, pts[k].1));
        assert(previous_at(longer, k) == previous_at(placed, k));
        if k < placed.len() {
            assert(longer[k] == placed[k]);
        }
    }
}

/// Projects one point: finds its parameters and unwraps them along both axes.
pub fn project_point<S, Q, P: Copy, T: Copy, F, G, H>(
    surface: &S,
    periods: (Option<T>, Option<T>),
    sp: &F,
    order: &G,
    apply: &H,
    pt: Q,
    hint: Option<P>,
    previous: Option<P>,
) -> (res: Option<P>) where
    F: Fn(&S, Q, Option<P>) -> Option<P>,
    G: Fn(Axis, P, T, P) -> SeamOrder,
    H: Fn(Axis, P, T, PeriodShift) -> P,

    requires
        forall|s: &S, q: Q, h: Option<P>| call_requires(*sp, (s, q, h)),
        forall|a: Axis, h: P, p: T, q: P| call_requires(*order, (a, h, p, q)),
        forall|a: Axis, h: P, p: T, q: P, o: SeamOrder|
            call_ensures(*order, (a, h, p, q), o) ==> !o.cyclic(),
        forall|a: Axis, h: P, p: T, s: PeriodShift| call_requires(*apply, (a, h, p, s)),
    ensures
        match res {
            Some(out) => projected(surface, periods, sp, order, apply, pt, hint, previous, out),
            None => call_ensures(*sp, (surface, pt, hint), None::<P>),
        },
{
    match sp(surface, pt, hint) {
        None => None,
        Some(raw) => {
            let mid = unwrap_axis(Axis::U, periods.0, raw, previous, order, apply);
            let out = unwrap_axis(Axis::V, periods.1, mid, previous, order, apply);
            Some(out)
        },
    }
}

/// A closed loop is connected and closed: each segment ends where the next
/// begins, and the last ends where the first begins.
pub proof fn lemma_closed_loop_connects(start: int, n: int, i: int)
    requires
        0 <= start,
        0 <= i < n,
        start + n <= usize::MAX,
    ensures
        0 <= (i + 1) % n < n,
        closed_loop(start, n)[i].1 == closed_loop(start, n)[(i + 1) % n].0,
{
    if i + 1 == n {
        lemma_mod_self_0(n);
    } else {
        lemma_small_mod((i + 1) as nat, n as nat);
    }
    lemma_closed_loop_at(start, n, i);
    lemma_closed_loop_at(start, n, (i + 1) % n);
}

/// The functions that compare and move coordinates work as on exact numbers:
/// with `u` the first coordinate of a point and `per` the length of a period,
/// `order` compares the true distances along `u`, `apply` along `u` moves by
/// the period, and `apply` along `v` leaves `u` as it is.
pub open spec fn seam_exact<
    P,
    T,
    G: Fn(Axis, P, T, P) -> SeamOrder, H: Fn(Axis,
    P,
    T,
    PeriodShift) -> P,
>(
    order: &G,
    apply: &H,
    u: spec_fn(P) -> int,
    per: spec_fn(T) -> int,
) -> bool {
    &&& forall|h: P, p: T, q: P, o: SeamOrder| #[trigger]
        call_ensures(*order, (Axis::U, h, p, q), o) ==> o == order_at(u(h), per(p), u(q))
    &&& forall|h: P, p: T, s: PeriodShift, out: P| #[trigger]
        call_ensures(*apply, (Axis::U, h, p, s), out) ==> u(out) == image(u(h), per(p), s)
    &&& forall|h: P, p: T, s: PeriodShift, out: P| #[trigger]
        call_ensures(*apply, (Axis::V, h, p, s), out) ==> u(out) == u(h)
}

/// On a surface periodic in `u`, the points of a projected wire follow each
/// other within half a period, also across the seam: where comparing and moving
/// are exact, and the parameters found for each point lie within a period and a
/// half of the point placed before it.
pub proof fn lemma_wire_within_half_period<
    S,
    Q,
    P,
    T,
    F: Fn(&S, Q, Option<P>) -> Option<P>,
    G: Fn(Axis, P, T, P) -> SeamOrder,
    H: Fn(Axis, P, T, PeriodShift) -> P,
>(
    surface: &S,
    periods: (Option<T>, Option<T>),
    sp: &F,
    order: &G,
    apply: &H,
    pts: Seq<(Q, bool)>,
    placed: Seq<P>,
    u: spec_fn(P) -> int,
    per: spec_fn(T) -> int,
)
    requires
        projects(surface, periods, sp, order, apply, pts, placed),
        periods.0.is_some(),
        per(periods.0.unwrap()) > 0,
        seam_exact(order, apply, u, per),
        forall|k: int, raw: P|
            1 <= k < placed.len() && #[trigger] call_ensures(
                *sp,
                (surface, pts[k].0, hint_at(placed, k, pts[k].1)),
                Some(raw),
            ) ==> 2 * distance(u(raw), u(placed[k - 1])) <= 3 * per(periods.0.unwrap()),
    ensures
        forall|k: int|
            1 <= k < placed.len() ==> 2 * distance(u(#[trigger] placed[k]), u(placed[k - 1]))
                <= per(periods.0.unwrap()),
{
    let p = periods.0.unwrap();
    assert forall|k: int| 1 <= k < placed.len() implies 2 * distance(
        u(#[trigger] placed[k]),
        u(placed[k - 1]),
    ) <= per(p) by {
        let q = placed[k - 1];
        let out = placed[k];
        assert(projected(
            surface,
            periods,
            sp,
            order,
            apply,
            pts[k].0,
            hint_at(placed, k, pts[k].1),
            previous_at(placed, k),
            out,
        ));
        let (raw, mid) = choose|raw: P, mid: P|
            call_ensures(*sp, (surface, pts[k].0, hint_at(placed, k, pts[k].1)), Some(raw))
                && unwrapped(Axis::U, periods.0, raw, previous_at(placed, k), order, apply, mid)
                && unwrapped(Axis::V, periods.1, mid, previous_at(placed, k), order, apply, out);
        assert(previous_at(placed, k) == Some(q));
        let o = choose|o: SeamOrder| #[trigger]
            call_ensures(*order, (Axis::U, raw, p, q), o) && if shift_of(o) == PeriodShift::Keep {
                mid == raw
            } else {
                call_ensures(*apply, (Axis::U, raw, p, shift_of(o)), mid)
            };
        assert(o == order_at(u(raw), per(p), u(q)));
        assert(u(mid) == image(u(raw), per(p), shift_of(o)));
        lemma_unwrapped_within_half_period(u(raw), per(p), u(q));
        assert(u(out) == u(mid));
    }
}

/// The same of a wire that was added to a polyline: the points that the wire
/// brought follow each other within half a period.
pub proof fn lemma_added_wire_within_half_period<
    S,
    Q,
    P: Copy,
    T,
    F: Fn(&S, Q, Option<P>) -> Option<P>,
    G: Fn(Axis, P, T, P) -> SeamOrder,
    H: Fn(Axis, P, T, PeriodShift) -> P,
>(
    before: &Polyline<P>,
    after: &Polyline<P>,
    res: bool,
    surface: &S,
    wire: Seq<Seq<Q>>,
    periods: (Option<T>, Option<T>),
    sp: &F,
    order: &G,
    apply: &H,
    u: spec_fn(P) -> int,
    per: spec_fn(T) -> int,
)
    requires
        before.added(after, res, surface, wire, periods, sp, order, apply),
        periods.0.is_some(),
        per(periods.0.unwrap()) > 0,
        seam_exact(order, apply, u, per),
        ({
            let pts = wire_points(wire, wire.len() as int);
            let placed = after.positions@.skip(before.positions@.len() as int);
            forall|k: int, raw: P|
                1 <= k < placed.len() && #[trigger] call_ensures(
                    *sp,
                    (surface, pts[k].0, hint_at(placed, k, pts[k].1)),
                    Some(raw),
                ) ==> 2 * distance(u(raw), u(placed[k - 1])) <= 3 * per(periods.0.unwrap())
        }),
    ensures
        ({
            let placed = after.positions@.skip(before.positions@.len() as int);
            forall|k: int|
                1 <= k < placed.len() ==> 2 * distance(u(#[trigger] placed[k]), u(placed[k - 1]))
                    <= per(periods.0.unwrap())
        }),
{
    lemma_wire_within_half_period(
        surface,
        periods,
        sp,
        order,
        apply,
        wire_points(wire, wire.len() as int),
        after.positions@.skip(before.positions@.len() as int),
        u,
        per,
    );
}

/// The search of parameters gives one result for one argument.
pub open spec fn search_single_valued<S, Q, P, F: Fn(&S, Q, Option<P>) -> Option<P>>(sp: &F) -> bool {
    forall|s: &S, q: Q, h: Option<P>, x: Option<P>, y: Option<P>|
        #![trigger call_ensures(*sp, (s, q, h), x), call_ensures(*sp, (s, q, h), y)]
        call_ensures(*sp, (s, q, h), x) && call_ensures(*sp, (s, q, h), y) ==> x == y
}

/// Where the caller's functions give one result for one argument, a point has
/// one projection.
pub proof fn lemma_projected_single_valued<
    S,
    Q,
    P,
    T,
    F: Fn(&S, Q, Option<P>) -> Option<P>,
    G: Fn(Axis, P, T, P) -> SeamOrder,
    H: Fn(Axis, P, T, PeriodShift) -> P,
>(
    surface: &S,
    periods: (Option<T>, Option<T>),
    sp: &F,
    order: &G,
    apply: &H,
    pt: Q,
    hint: Option<P>,
    previous: Option<P>,
    one: P,
    other: P,
)
    requires
        search_single_valued(sp),
        seam_single_valued(order, apply),
        projected(surface, periods, sp, order, apply, pt, hint, previous, one),
        projected(surface, periods, sp, order, apply, pt, hint, previous, other),
    ensures
        one == other,
{
    let (raw1, mid1) = choose|raw: P, mid: P|
        call_ensures(*sp, (surface, pt, hint), Some(raw)) && unwrapped(
            Axis::U,
            periods.0,
            raw,
            previous,
            order,
            apply,
            mid,
        ) && unwrapped(Axis::V, periods.1, mid, previous, order, apply, one);
    let (raw2, mid2) = choose|raw: P, mid: P|
        call_ensures(*sp, (surface, pt, hint), Some(raw)) && unwrapped(
            Axis::U,
            periods.0,
            raw,
            previous,
            order,
            apply,
            mid,
        ) && unwrapped(Axis::V, periods.1, mid, previous, order, apply, other);
    assert(Some(raw1) == Some(raw2));
    lemma_unwrapped_single_valued(Axis::U, periods.0, raw1, previous, order, apply, mid1, mid2);
    lemma_unwrapped_single_valued(Axis::V, periods.1, mid1, previous, order, apply, one, other);
}

/// Where the caller's functions give one result for one argument, two runs of
/// projections of the same points agree as far as both go.
pub proof fn lemma_projects_single_valued<
    S,
    Q,
    P,
    T,
    F: Fn(&S, Q, Option<P>) -> Option<P>,
    G: Fn(Axis, P, T, P) -> SeamOrder,
    H: Fn(Axis, P, T, PeriodShift) -> P,
>(
    surface: &S,
    periods: (Option<T>, Option<T>),
    sp: &F,
    order: &G,
    apply: &H,
    pts: Seq<(Q, bool)>,
    one: Seq<P>,
    other: Seq<P>,
    k: int,
)
    requires
        search_single_valued(sp),
        seam_single_valued(order, apply),
        projects(surface, periods, sp, order, apply, pts, one),
        projects(surface, periods, sp, order, apply, pts, other),
        0 <= k <= one.len(),
        k <= other.len(),
    ensures
        forall|i: int| 0 <= i < k ==> one[i] == other[i],
    decreases k,
{
    if k > 0 {
        lemma_projects_single_valued(surface, periods, sp, order, apply, pts, one, other, k - 1);
        let i = k - 1;
        assert(pts[i] == pts[i]);
        assert(hint_at(one, i, pts[i].1) == hint_at(other, i, pts[i].1));
        assert(previous_at(one, i) == previous_at(other, i));
        lemma_projected_single_valued(
            surface,
            periods,
            sp,
            order,
            apply,
            pts[i].0,
            hint_at(one, i, pts[i].1),
            previous_at(one, i),
            one[i],
            other[i],
        );
    }
}

/// Where the caller's functions give one result for one argument, adding a wire
/// has one outcome: from polylines with the same points and segments, two
/// additions of the same wire both succeed or both fail, and leave the same
/// points and segments.
pub proof fn lemma_added_single_valued<
    S,
    Q,
    P: Copy,
    T,
    F: Fn(&S, Q, Option<P>) -> Option<P>,
    G: Fn(Axis, P, T, P) -> SeamOrder,
    H: Fn(Axis, P, T, PeriodShift) -> P,
>(
    surface: &S,
    wire: Seq<Seq<Q>>,
    periods: (Option<T>, Option<T>),
    sp: &F,
    order: &G,
    apply: &H,
    before1: &Polyline<P>,
    after1: &Polyline<P>,
    res1: bool,
    before2: &Polyline<P>,
    after2: &Polyline<P>,
    res2: bool,
)
    requires
        search_single_valued(sp),
        seam_single_valued(order, apply),
        before1.positions@ == before2.positions@,
        before1.indices@ == before2.indices@,
        before1.added(after1, res1, surface, wire, periods, sp, order, apply),
        before2.added(after2, res2, surface, wire, periods, sp, order, apply),
    ensures
        res1 == res2,
        after1.positions@ == after2.positions@,
        after1.indices@ == after2.indices@,
{
    let len = before1.positions@.len() as int;
    let pts = wire_points(wire, wire.len() as int);
    let one = after1.positions@.skip(len);
    let other = after2.positions@.skip(len);
    if one.len() <= other.len() {
        lemma_projects_single_valued(surface, periods, sp, order, apply, pts, one, other, one.len() as int);
        if one.len() < other.len() {
            lemma_longer_run_is_not_rejected(surface, periods, sp, order, apply, pts, one, other);
        }
    } else {
        lemma_projects_single_valued(surface, periods, sp, order, apply, pts, one, other, other.len() as int);
        lemma_longer_run_is_not_rejected(surface, periods, sp, order, apply, pts, other, one);
    }
    assert(one =~= other);
    assert(after1.positions@ =~= after1.positions@.take(len) + one);
    assert(after2.positions@ =~= after2.positions@.take(len) + other);
}

/// Where the search gives one result for one argument, a run of projections
/// that stopped short of another was not stopped by the search.
pub proof fn lemma_longer_run_is_not_rejected<
    S,
    Q,
    P,
    T,
    F: Fn(&S, Q, Option<P>) -> Option<P>,
    G: Fn(Axis, P, T, P) -> SeamOrder,
    H: Fn(Axis, P, T, PeriodShift) -> P,
>(
    surface: &S,
    periods: (Option<T>, Option<T>),
    sp: &F,
    order: &G,
    apply: &H,
    pts: Seq<(Q, bool)>,
    short: Seq<P>,
    long: Seq<P>,
)
    requires
        search_single_valued(sp),
        projects(surface, periods, sp, order, apply, pts, long),
        short.len() < long.len(),
        forall|i: int| 0 <= i < short.len() ==> short[i] == long[i],
    ensures
        !rejected(surface, sp, pts, short),
{
    let at = short.len() as int;
    assert(pts[at] == pts[at]);
    assert(projected(
        surface,
        periods,
        sp,
        order,
        apply,
        pts[at].0,
        hint_at(long, at, pts[at].1),
        previous_at(long, at),
        long[at],
    ));
    let (raw, mid) = choose|raw: P, mid: P|
        call_ensures(*sp, (surface, pts[at].0, hint_at(long, at, pts[at].1)), Some(raw))
            && unwrapped(Axis::U, periods.0, raw, previous_at(long, at), order, apply, mid)
            && unwrapped(Axis::V, periods.1, mid, previous_at(long, at), order, apply, long[at]);
    assert(hint_at(long, at, pts[at].1) == hint_at(short, at, pts[at].1));
    if rejected(surface, sp, pts, short) {
        assert(Some(raw) == None::<P>);
    }
}

/// A polyline in the parameter plane, not always connected: points, and segments
/// given as pairs of indices into the points.
#[derive(Clone, Debug)]
pub struct Polyline<P> {
    pub positions: Vec<P>,
    pub indices: Vec<(usize, usize)>,
}

impl<P: Copy> Polyline<P> {
    /// Both end points of every segment exist.
    pub open spec fn wf(&self) -> bool {
        forall|k: int|
            0 <= k < self.indices@.len() ==> (#[trigger] self.indices@[k]).0 < self.positions@.len()
                && self.indices@[k].1 < self.positions@.len()
    }

    /// The polyline without points or segments.
    pub fn new() -> (res: Polyline<P>)
        ensures
            res.positions@.len() == 0,
            res.indices@.len() == 0,
            res.wf(),
    {
        Polyline { positions: Vec::new(), indices: Vec::new() }
    }

    /// Tells whether both end points of every segment exist.
    pub fn is_well_formed(&self) -> (res: bool)
        ensures
            res == self.wf(),
    {
        let n = self.positions.len();
        let mut k: usize = 0;
        while k < self.indices.len()
            invariant
                n == self.positions@.len(),
                k <= self.indices@.len(),
                forall|j: int|
                    0 <= j < k ==> (#[trigger] self.indices@[j]).0 < n && self.indices@[j].1 < n,
            decreases self.indices@.len() - k,
        {
            let seg = self.indices[k];
            if seg.0 >= n || seg.1 >= n {
                return false;
            }
            k = k + 1;
        }
        true
    }

    /// `after` is this polyline with a wire added, with the outcome `res`: the
    /// points of `after` past those of this polyline are projections of the wire's
    /// points, in order, up to the first that `sp` rejected, or to the end; `res`
    /// tells whether the end was reached; and the segments of `after` past those
    /// of this polyline are a closed loop through the points that were placed.
    pub open spec fn added<S, Q, T, F, G, H>(
        &self,
        after: &Polyline<P>,
        res: bool,
        surface: &S,
        wire: Seq<Seq<Q>>,
        periods: (Option<T>, Option<T>),
        sp: &F,
        order: &G,
        apply: &H,
    ) -> bool where
        F: Fn(&S, Q, Option<P>) -> Option<P>,
        G: Fn(Axis, P, T, P) -> SeamOrder,
        H: Fn(Axis, P, T, PeriodShift) -> P,
     {
        let len = self.positions@.len() as int;
        let pts = wire_points(wire, wire.len() as int);
        let placed = after.positions@.skip(len);
        &&& after.positions@.len() >= len
        &&& after.positions@.take(len) == self.positions@
        &&& projects(surface, periods, sp, order, apply, pts, placed)
        &&& res <==> placed.len() == pts.len()
        &&& !res ==> rejected(surface, sp, pts, placed)
        &&& after.indices@ == self.indices@ + closed_loop(len, placed.len() as int)
    }

    /// Projects a wire into the parameter plane of `surface` and appends it as a
    /// closed loop. The wire is given by the polylines of its edges, each already
    /// oriented; of each, every point but the last is projected by `sp`, with the
    /// point placed before it as the hint unless it is the first of its edge, and
    /// unwrapped along the periodic axes against the point placed before it.
    /// Returns `false`, and stops projecting, at the first point for which `sp`
    /// finds no parameters; the loop then runs through the points placed so far.
    pub fn add_wire<S, Q: Copy, T: Copy, F, G, H>(
        &mut self,
        surface: &S,
        wire: &Vec<PolylineCurve<Q>>,
        periods: (Option<T>, Option<T>),
        sp: &F,
        order: &G,
        apply: &H,
    ) -> (res: bool) where
        F: Fn(&S, Q, Option<P>) -> Option<P>,
        G: Fn(Axis, P, T, P) -> SeamOrder,
        H: Fn(Axis, P, T, PeriodShift) -> P,

        requires
            forall|s: &S, q: Q, h: Option<P>| call_requires(*sp, (s, q, h)),
            forall|a: Axis, h: P, p: T, q: P| call_requires(*order, (a, h, p, q)),
            forall|a: Axis, h: P, p: T, q: P, o: SeamOrder|
                call_ensures(*order, (a, h, p, q), o) ==> !o.cyclic(),
            forall|a: Axis, h: P, p: T, s: PeriodShift| call_requires(*apply, (a, h, p, s)),
        ensures
            old(self).added(
                final(self),
                res,
                surface,
                wire_view(wire@),
                periods,
                sp,
                order,
                apply,
            ),
            old(self).wf() ==> final(self).wf(),
    {
        let len = self.positions.len();
        let n = wire.len();
        let ghost wv = wire_view(wire@);
        let ghost pts = wire_points(wv, n as int);
        let mut previous: Option<P> = None;
        let mut ok = true;
        let mut e: usize = 0;
        assert(self.positions@.skip(len as int) =~= Seq::<P>::empty());
        assert(self.positions@.take(len as int) =~= old(self).positions@);
        while e < n && ok
            invariant
                n == wire@.len(),
                len == old(self).positions@.len(),
                wv == wire_view(wire@),
                pts == wire_points(wv, n as int),
                e <= n,
                self.positions@.len() >= len,
                self.positions@.take(len as int) == old(self).positions@,
                self.indices@ == old(self).indices@,
                forall|s: &S, q: Q, h: Option<P>| call_requires(*sp, (s, q, h)),
                forall|a: Axis, h: P, p: T, q: P| call_requires(*order, (a, h, p, q)),
                forall|a: Axis, h: P, p: T, q: P, o: SeamOrder|
                    call_ensures(*order, (a, h, p, q), o) ==> !o.cyclic(),
                forall|a: Axis, h: P, p: T, s: PeriodShift| call_requires(*apply, (a, h, p, s)),
                projects(surface, periods, sp, order, apply, pts, self.positions@.skip(len as int)),
                previous == previous_at(
                    self.positions@.skip(len as int),
                    self.positions@.len() - len,
                ),
                ok ==> self.positions@.len() - len == wire_points(wv, e as int).len(),
                !ok ==> self.positions@.len() - len < pts.len() && rejected(
                    surface,
                    sp,
                    pts,
                    self.positions@.skip(len as int),
                ),
            decreases n - e,
        {
            let edge = &wire[e];
            proof {
                lemma_wire_points_prefix(wv, e as int + 1, n as int);
                assert(wv[e as int] == edge@);
                assert forall|j: int| 0 <= j < kept(edge@).len() implies pts[self.positions@.len()
                    - len + j] == (kept(edge@)[j], j == 0) by {
                    lemma_wire_point_at(wv, e as int, j, n as int);
                }
                if kept(edge@).len() > 0 {
                    lemma_wire_point_at(wv, e as int, 0, n as int);
                }
            }
            let (done, last) = self.project_edge(
                surface,
                edge,
                periods,
                sp,
                order,
                apply,
                previous,
                Ghost(len as int),
                Ghost(pts),
            );
            previous = last;
            if !done {
                ok = false;
            }
            e = e + 1;
        }
        let placed = self.positions.len() - len;
        self.close_loop(len, placed);
        ok
    }

    /// Projects the points of one edge but its last, stopping at the first that
    /// `sp` rejects. `pts` holds the points of the whole wire; those of this edge
    /// follow the points placed so far past `len`.
    fn project_edge<S, Q: Copy, T: Copy, F, G, H>(
        &mut self,
        surface: &S,
        edge: &PolylineCurve<Q>,
        periods: (Option<T>, Option<T>),
        sp: &F,
        order: &G,
        apply: &H,
        previous: Option<P>,
        Ghost(len): Ghost<int>,
        Ghost(pts): Ghost<Seq<(Q, bool)>>,
    ) -> (res: (bool, Option<P>)) where
        F: Fn(&S, Q, Option<P>) -> Option<P>,
        G: Fn(Axis, P, T, P) -> SeamOrder,
        H: Fn(Axis, P, T, PeriodShift) -> P,

        requires
            0 <= len <= old(self).positions@.len(),
            old(self).positions@.len() - len + kept(edge@).len() <= pts.len(),
            forall|j: int|
                0 <= j < kept(edge@).len() ==> pts[old(self).positions@.len() - len + j] == (
                    kept(edge@)[j],
                    j == 0,
                ),
            projects(surface, periods, sp, order, apply, pts, old(self).positions@.skip(len)),
            previous == previous_at(
                old(self).positions@.skip(len),
                old(self).positions@.len() - len,
            ),
            forall|s: &S, q: Q, h: Option<P>| call_requires(*sp, (s, q, h)),
            forall|a: Axis, h: P, p: T, q: P| call_requires(*order, (a, h, p, q)),
            forall|a: Axis, h: P, p: T, q: P, o: SeamOrder|
                call_ensures(*order, (a, h, p, q), o) ==> !o.cyclic(),
            forall|a: Axis, h: P, p: T, s: PeriodShift| call_requires(*apply, (a, h, p, s)),
        ensures
            final(self).indices@ == old(self).indices@,
            final(self).positions@.len() >= old(self).positions@.len(),
            final(self).positions@.take(old(self).positions@.len() as int) == old(
                self,
            ).positions@,
            projects(surface, periods, sp, order, apply, pts, final(self).positions@.skip(len)),
            res.1 == previous_at(
                final(self).positions@.skip(len),
                final(self).positions@.len() - len,
            ),
            res.0 ==> final(self).positions@.len() == old(self).positions@.len() + kept(
                edge@,
            ).len(),
            !res.0 ==> final(self).positions@.len() < old(self).positions@.len() + kept(
                edge@,
            ).len() && rejected(surface, sp, pts, final(self).positions@.skip(len)),
    {
        let total = edge.len();
        let m: usize = if total == 0 {
            0
        } else {
            total - 1
        };
        let ghost base = self.positions@.take(len);
        let ghost start = self.positions@.len() - len;
        let ghost mut placed: Seq<P> = self.positions@.skip(len);
        let mut previous = previous;
        let mut hint: Option<P> = None;
        let mut ok = true;
        let mut j: usize = 0;
        assert(self.positions@ =~= base + placed);
        while j < m && ok
            invariant
                m == kept(edge@).len(),
                j <= m,
                base.len() == len,
                start + m <= pts.len(),
                forall|i: int| 0 <= i < m ==> pts[start + i] == (kept(edge@)[i], i == 0),
                self.positions@ == base + placed,
                self.positions@.len() >= old(self).positions@.len(),
                self.positions@.take(old(self).positions@.len() as int) == old(self).positions@,
                self.indices@ == old(self).indices@,
                forall|s: &S, q: Q, h: Option<P>| call_requires(*sp, (s, q, h)),
                forall|a: Axis, h: P, p: T, q: P| call_requires(*order, (a, h, p, q)),
                forall|a: Axis, h: P, p: T, q: P, o: SeamOrder|
                    call_ensures(*order, (a, h, p, q), o) ==> !o.cyclic(),
                forall|a: Axis, h: P, p: T, s: PeriodShift| call_requires(*apply, (a, h, p, s)),
                projects(surface, periods, sp, order, apply, pts, placed),
                previous == previous_at(placed, placed.len() as int),
                placed.len() == start + j,
                hint == hint_at(placed, placed.len() as int, j == 0),
                !ok ==> j < m && rejected(surface, sp, pts, placed),
            decreases
                    if ok {
                        m - j + 1
                    } else {
                        0
                    },
        {
            let pt = edge.0[j];
            proof {
                assert(kept(edge@)[j as int] == edge@[j as int]);
                assert(pts[start + j] == (kept(edge@)[j as int], j == 0));
            }
            match project_point(surface, periods, sp, order, apply, pt, hint, previous) {
                None => {
                    ok = false;
                },
                Some(out) => {
                    self.positions.push(out);
                    proof {
                        let before = placed;
                        placed = placed.push(out);
                        assert(self.positions@ =~= base + placed);
                        assert(self.positions@.take(old(self).positions@.len() as int) =~= old(
                            self,
                        ).positions@);
                        lemma_projects_push(surface, periods, sp, order, apply, pts, before, out);
                    }
                    hint = Some(out);
                    previous = Some(out);
                    j = j + 1;
                },
            }
        }
        assert(self.positions@.skip(len) =~= placed);
        (ok, previous)
    }

    /// Appends the segments of a closed loop through the `n` points from `start`.
    fn close_loop(&mut self, start: usize, n: usize)
        requires
            start + n <= usize::MAX,
        ensures
            final(self).positions@ == old(self).positions@,
            final(self).indices@ == old(self).indices@ + closed_loop(start as int, n as int),
            old(self).wf() && start + n <= old(self).positions@.len() ==> final(self).wf(),
    {
        let mut i: usize = 0;
        let ghost target = closed_loop(start as int, n as int);
        assert(self.indices@ =~= old(self).indices@ + target.take(0));
        while i < n
            invariant
                i <= n,
                start + n <= usize::MAX,
                target == closed_loop(start as int, n as int),
                self.positions@ == old(self).positions@,
                self.indices@ == old(self).indices@ + target.take(i as int),
            decreases n - i,
        {
            let next: usize = if i + 1 == n {
                0
            } else {
                i + 1
            };
            proof {
                lemma_closed_loop_at(start as int, n as int, i as int);
            }
            self.indices.push((start + i, start + next));
            proof {
                assert(target.take(i as int + 1) =~= target.take(i as int).push(target[i as int]));
                assert(self.indices@ =~= old(self).indices@ + target.take(i as int + 1));
            }
            i = i + 1;
        }
        proof {
            assert(target.take(n as int) =~= target);
            if old(self).wf() && start + n <= old(self).positions@.len() {
                assert forall|k: int| 0 <= k < self.indices@.len() implies (
                #[trigger] self.indices@[k]).0 < self.positions@.len() && self.indices@[k].1
                    < self.positions@.len() by {
                    if k >= old(self).indices@.len() {
                        lemma_closed_loop_at(start as int, n as int, k - old(self).indices@.len());
                    } else {
                        assert(self.indices@[k] == old(self).indices@[k]);
                    }
                }
            }
        }
    }

    /// `probes` is a record of measuring the segments in order from `c` with
    /// `probe`, up to and including the first segment found to hold `c`, or to the end.
    pub open spec fn measured<F: Fn(&P, &P, &P) -> RayProbe>(
        &self,
        c: &P,
        probe: &F,
        probes: Seq<RayProbe>,
    ) -> bool {
        &&& probes.len() <= self.indices@.len()
        &&& forall|k: int|
            0 <= k < probes.len() ==> call_ensures(
                *probe,
                (c, &self.positions@[self.indices@[k].0 as int], &self.positions@[self.indices@[k].1 as int]),
                #[trigger] probes[k],
            )
        &&& forall|k: int|
            0 <= k < probes.len() - 1 ==> crossing_of(#[trigger] probes[k]) != Crossing::OnEdge
        &&& probes.len() == self.indices@.len() || (probes.len() > 0 && crossing_of(probes.last())
            == Crossing::OnEdge)
    }

    /// `res` is a verdict on `c`: that of some record of measuring the segments
    /// from `c`.
    pub open spec fn included<F: Fn(&P, &P, &P) -> RayProbe>(
        &self,
        c: &P,
        probe: &F,
        res: bool,
    ) -> bool {
        exists|probes: Seq<RayProbe>| #[trigger]
            self.measured(c, probe, probes) && res == inside(
                probes.map_values(|p: RayProbe| crossing_of(p)),
            )
    }

    /// Whether `c` lies in the domain whose boundary is this polyline, by the
    /// parity of the boundary segments that a ray from `c` crosses. `probe`
    /// measures one segment `(c, a, b)`. A point found on a segment counts as outside.
    pub fn includes<F: Fn(&P, &P, &P) -> RayProbe>(&self, c: &P, probe: &F) -> (res: bool)
        requires
            self.wf(),
            forall|c: &P, a: &P, b: &P| call_requires(*probe, (c, a, b)),
        ensures
            self.included(c, probe, res),
    {
        let n = self.indices.len();
        let mut ups: usize = 0;
        let mut downs: usize = 0;
        let mut k: usize = 0;
        let ghost mut probes: Seq<RayProbe> = Seq::empty();
        while k < n
            invariant
                self.wf(),
                n == self.indices@.len(),
                k <= n,
                ups <= k,
                downs <= k,
                probes.len() == k,
                forall|c: &P, a: &P, b: &P| call_requires(*probe, (c, a, b)),
                forall|j: int|
                    0 <= j < k ==> call_ensures(
                        *probe,
                        (
                            c,
                            &self.positions@[self.indices@[j].0 as int],
                            &self.positions@[self.indices@[j].1 as int],
                        ),
                        #[trigger] probes[j],
                    ),
                forall|j: int| 0 <= j < k ==> crossing_of(#[trigger] probes[j]) != Crossing::OnEdge,
                net_crossings(probes.map_values(|p: RayProbe| crossing_of(p))) == ups - downs,
            decreases n - k,
        {
            let seg = self.indices[k];
            let measured = probe(c, &self.positions[seg.0], &self.positions[seg.1]);
            let ghost before = probes.map_values(|p: RayProbe| crossing_of(p));
            proof {
                probes = probes.push(measured);
                let after = probes.map_values(|p: RayProbe| crossing_of(p));
                assert(after.drop_last() =~= before);
                assert(after.last() == crossing_of(measured));
            }
            match classify(measured) {
                Crossing::OnEdge => {
                    proof {
                        let cs = probes.map_values(|p: RayProbe| crossing_of(p));
                        assert(cs[k as int] == Crossing::OnEdge);
                        assert(touches_boundary(cs));
                        assert(self.measured(c, probe, probes));
                    }
                    return false;
                },
                Crossing::Up => {
                    ups = ups + 1;
                },
                Crossing::Down => {
                    downs = downs + 1;
                },
                Crossing::Miss => {},
            }
            k = k + 1;
        }
        proof {
            let cs = probes.map_values(|p: RayProbe| crossing_of(p));
            assert(!touches_boundary(cs));
            assert(self.measured(c, probe, probes));
        }
        ups > downs
    }
}

} // verus!
