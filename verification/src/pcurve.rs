//! The curve on a surface: a plane curve composed with a surface, with its
//! derivatives by the chain rule and its parameter searches in two stages.
use vstd::prelude::*;

verus! {

/// A curve on a surface: a curve in the parameter plane composed with a surface map.
#[derive(Clone, Copy, Debug, PartialEq, Eq)]
pub struct PCurve<C, S> {
    curve: C,
    surface: S,
}

impl<C, S> PCurve<C, S> {
    /// The plane curve of the composition.
    pub closed spec fn curve_spec(&self) -> C {
        self.curve
    }

    /// The surface of the composition.
    pub closed spec fn surface_spec(&self) -> S {
        self.surface
    }

    /// Composes `curve`, which runs in the parameter plane of `surface`, with `surface`.
    pub fn new(curve: C, surface: S) -> (res: PCurve<C, S>)
        ensures
            res.curve_spec() == curve,
            res.surface_spec() == surface,
    {
        PCurve { curve, surface }
    }

    /// The plane curve.
    pub fn curve(&self) -> (res: &C)
        ensures
            *res == self.curve_spec(),
    {
        &self.curve
    }

    /// The surface.
    pub fn surface(&self) -> (res: &S)
        ensures
            *res == self.surface_spec(),
    {
        &self.surface
    }
}

/// The number of steps into which a range of parameters is divided when it is
/// searched before an iteration starts.
pub const PRESEARCH_DIVISION: usize = 50;

/// A hint for the search of a parameter on a curve.
pub enum SPHint1D<T> {
    /// A parameter near the answer.
    Parameter(T),
    /// A range of parameters that holds the answer.
    Range(T, T),
    /// No hint.
    NoHint,
}

impl<T: Copy> Copy for SPHint1D<T> {

}

impl<T: Copy> Clone for SPHint1D<T> {
    fn clone(&self) -> (res: Self)
        ensures
            res == *self,
    {
        *self
    }
}

/// A hint for the search of parameters on a surface.
pub enum SPHint2D<T> {
    /// Parameters near the answer.
    Parameter(T, T),
    /// Ranges of the two parameters that hold the answer.
    Range((T, T), (T, T)),
    /// No hint.
    NoHint,
}

/// `out` is the box `b` widened to hold the point `p`: each lower bound is what
/// `lesser` made of it and the point's coordinate, each upper bound what
/// `greater` made.
pub open spec fn widened<T, L: Fn(T, T) -> T, G: Fn(T, T) -> T>(
    lesser: &L,
    greater: &G,
    b: ((T, T), (T, T)),
    p: (T, T),
    out: ((T, T), (T, T)),
) -> bool {
    &&& call_ensures(*lesser, (b.0.0, p.0), out.0.0)
    &&& call_ensures(*greater, (b.0.1, p.0), out.0.1)
    &&& call_ensures(*lesser, (b.1.0, p.1), out.1.0)
    &&& call_ensures(*greater, (b.1.1, p.1), out.1.1)
}

/// `after` is the box `before` after step `i` of growing it around samples of a
/// plane curve over the range from `x` to `y`: widened to hold the curve's point
/// at the parameter that `at` gave for the step.
pub open spec fn box_step<C, T, CS, AT, L, G>(
    curve: &C,
    x: T,
    y: T,
    i: int,
    subs: &CS,
    at: &AT,
    lesser: &L,
    greater: &G,
    before: ((T, T), (T, T)),
    after: ((T, T), (T, T)),
) -> bool where CS: Fn(&C, T) -> (T, T), AT: Fn(T, T, usize) -> T, L: Fn(T, T) -> T, G: Fn(T, T) -> T {
    exists|t: T, p: (T, T)|
        #![trigger call_ensures(*at, (x, y, i as usize), t), call_ensures(*subs, (curve, t), p)]
        call_ensures(*at, (x, y, i as usize), t) && call_ensures(*subs, (curve, t), p) && widened(
            lesser,
            greater,
            before,
            p,
            after,
        )
}

/// `boxes` records how a box was grown around samples of a plane curve over the
/// range from `x` to `y`: it starts as the point at `y`, and step `i` of
/// `PRESEARCH_DIVISION` widens it to hold the point at the parameter that `at`
/// gave for that step.
pub open spec fn box_grown<C, T, CS, AT, L, G>(
    curve: &C,
    x: T,
    y: T,
    subs: &CS,
    at: &AT,
    lesser: &L,
    greater: &G,
    boxes: Seq<((T, T), (T, T))>,
) -> bool where CS: Fn(&C, T) -> (T, T), AT: Fn(T, T, usize) -> T, L: Fn(T, T) -> T, G: Fn(T, T) -> T {
    &&& boxes.len() == PRESEARCH_DIVISION + 1
    &&& exists|p: (T, T)| #[trigger]
        call_ensures(*subs, (curve, y), p) && boxes[0] == ((p.0, p.0), (p.1, p.1))
    &&& forall|i: int|
        0 <= i < PRESEARCH_DIVISION ==> #[trigger] box_step(
            curve,
            x,
            y,
            i,
            subs,
            at,
            lesser,
            greater,
            boxes[i],
            boxes[i + 1],
        )
}

/// `shint` is the hint for the surface that belongs to the hint `hint` for the
/// composed curve: a parameter becomes the plane curve's point at it, a range
/// becomes a box grown around samples of the plane curve over it, and no hint
/// stays none.
pub open spec fn hint_lifted<C, T, CS, AT, L, G>(
    curve: &C,
    hint: SPHint1D<T>,
    subs: &CS,
    at: &AT,
    lesser: &L,
    greater: &G,
    shint: SPHint2D<T>,
) -> bool where CS: Fn(&C, T) -> (T, T), AT: Fn(T, T, usize) -> T, L: Fn(T, T) -> T, G: Fn(T, T) -> T {
    match hint {
        SPHint1D::Parameter(h) => exists|p: (T, T)| #[trigger]
            call_ensures(*subs, (curve, h), p) && shint == SPHint2D::Parameter(p.0, p.1),
        SPHint1D::Range(x, y) => exists|boxes: Seq<((T, T), (T, T))>| #[trigger]
            box_grown(curve, x, y, subs, at, lesser, greater, boxes) && shint == SPHint2D::Range(
                boxes.last().0,
                boxes.last().1,
            ),
        SPHint1D::NoHint => shint == SPHint2D::<T>::NoHint,
    }
}

impl<C, S> PCurve<C, S> {
    /// Turns a hint for the composed curve into one for the surface.
    pub fn lift_hint<T: Copy, CS, AT, L, G>(
        &self,
        hint: SPHint1D<T>,
        subs: &CS,
        at: &AT,
        lesser: &L,
        greater: &G,
    ) -> (shint: SPHint2D<T>) where
        CS: Fn(&C, T) -> (T, T),
        AT: Fn(T, T, usize) -> T,
        L: Fn(T, T) -> T,
        G: Fn(T, T) -> T,

        requires
            forall|c: &C, t: T| call_requires(*subs, (c, t)),
            forall|x: T, y: T, i: usize| call_requires(*at, (x, y, i)),
            forall|a: T, b: T| call_requires(*lesser, (a, b)),
            forall|a: T, b: T| call_requires(*greater, (a, b)),
        ensures
            hint_lifted(&self.curve_spec(), hint, subs, at, lesser, greater, shint),
    {
        match hint {
            SPHint1D::Parameter(h) => {
                let p = subs(&self.curve, h);
                SPHint2D::Parameter(p.0, p.1)
            },
            SPHint1D::Range(x, y) => {
                let p = subs(&self.curve, y);
                let mut ranges = ((p.0, p.0), (p.1, p.1));
                let ghost mut boxes: Seq<((T, T), (T, T))> = seq![ranges];
                let mut i: usize = 0;
                while i < PRESEARCH_DIVISION
                    invariant
                        i <= PRESEARCH_DIVISION,
                        forall|c: &C, t: T| call_requires(*subs, (c, t)),
                        forall|x: T, y: T, i: usize| call_requires(*at, (x, y, i)),
                        forall|a: T, b: T| call_requires(*lesser, (a, b)),
                        forall|a: T, b: T| call_requires(*greater, (a, b)),
                        boxes.len() == i + 1,
                        boxes.last() == ranges,
                        call_ensures(*subs, (&self.curve, y), p),
                        boxes[0] == ((p.0, p.0), (p.1, p.1)),
                        forall|k: int|
                            0 <= k < i ==> #[trigger] box_step(
                                &self.curve,
                                x,
                                y,
                                k,
                                subs,
                                at,
                                lesser,
                                greater,
                                boxes[k],
                                boxes[k + 1],
                            ),
                    decreases PRESEARCH_DIVISION - i,
                {
                    let t = at(x, y, i);
                    let q = subs(&self.curve, t);
                    let next = (
                        (lesser(ranges.0.0, q.0), greater(ranges.0.1, q.0)),
                        (lesser(ranges.1.0, q.1), greater(ranges.1.1, q.1)),
                    );
                    proof {
                        let before = boxes;
                        boxes = boxes.push(next);
                        assert(widened(lesser, greater, boxes[i as int], q, boxes[i as int + 1]));
                        assert(box_step(
                            &self.curve,
                            x,
                            y,
                            i as int,
                            subs,
                            at,
                            lesser,
                            greater,
                            boxes[i as int],
                            boxes[i as int + 1],
                        ));
                        assert forall|k: int| 0 <= k < i + 1 implies #[trigger] box_step(
                            &self.curve,
                            x,
                            y,
                            k,
                            subs,
                            at,
                            lesser,
                            greater,
                            boxes[k],
                            boxes[k + 1],
                        ) by {
                            if k < i {
                                assert(boxes[k] == before[k] && boxes[k + 1] == before[k + 1]);
                                assert(box_step(
                                    &self.curve,
                                    x,
                                    y,
                                    k,
                                    subs,
                                    at,
                                    lesser,
                                    greater,
                                    before[k],
                                    before[k + 1],
                                ));
                            }
                        }
                    }
                    ranges = next;
                    i = i + 1;
                }
                proof {
                    assert(box_grown(&self.curve, x, y, subs, at, lesser, greater, boxes));
                }
                SPHint2D::Range(ranges.0, ranges.1)
            },
            SPHint1D::NoHint => SPHint2D::NoHint,
        }
    }

    /// `res` is an outcome of the search in two stages from the surface hint
    /// `shint`: none where the surface search found no parameters for the point,
    /// else what the curve search found for those parameters with the hint `hint`.
    pub open spec fn searched<T, Q, SS, CP>(
        &self,
        point: Q,
        hint: SPHint1D<T>,
        shint: SPHint2D<T>,
        trials: usize,
        surface_search: &SS,
        curve_search: &CP,
        res: Option<T>,
    ) -> bool where
        SS: Fn(&S, Q, SPHint2D<T>, usize) -> Option<(T, T)>,
        CP: Fn(&C, (T, T), SPHint1D<T>, usize) -> Option<T>,
     {
        ||| res.is_none() && call_ensures(
            *surface_search,
            (&self.surface_spec(), point, shint, trials),
            None::<(T, T)>,
        )
        ||| exists|uv: (T, T)| #[trigger]
            call_ensures(*surface_search, (&self.surface_spec(), point, shint, trials), Some(uv))
                && call_ensures(*curve_search, (&self.curve_spec(), uv, hint, trials), res)
    }

    /// Searches the parameter at which the composed curve passes through
    /// `point`: first the parameters of the point on the surface, then the
    /// parameter of the plane curve at those. Both searches get `trials`.
    pub fn search_parameter<T: Copy, Q, CS, AT, L, G, SS, CP>(
        &self,
        point: Q,
        hint: SPHint1D<T>,
        trials: usize,
        subs: &CS,
        at: &AT,
        lesser: &L,
        greater: &G,
        surface_search: &SS,
        curve_search: &CP,
    ) -> (res: Option<T>) where
        CS: Fn(&C, T) -> (T, T),
        AT: Fn(T, T, usize) -> T,
        L: Fn(T, T) -> T,
        G: Fn(T, T) -> T,
        SS: Fn(&S, Q, SPHint2D<T>, usize) -> Option<(T, T)>,
        CP: Fn(&C, (T, T), SPHint1D<T>, usize) -> Option<T>,

        requires
            forall|c: &C, t: T| call_requires(*subs, (c, t)),
            forall|x: T, y: T, i: usize| call_requires(*at, (x, y, i)),
            forall|a: T, b: T| call_requires(*lesser, (a, b)),
            forall|a: T, b: T| call_requires(*greater, (a, b)),
            forall|s: &S, q: Q, h: SPHint2D<T>, n: usize|
                call_requires(*surface_search, (s, q, h, n)),
            forall|c: &C, p: (T, T), h: SPHint1D<T>, n: usize|
                call_requires(*curve_search, (c, p, h, n)),
        ensures
            exists|shint: SPHint2D<T>| #[trigger]
                hint_lifted(&self.curve_spec(), hint, subs, at, lesser, greater, shint)
                    && self.searched(
                    point,
                    hint,
                    shint,
                    trials,
                    surface_search,
                    curve_search,
                    res,
                ),
    {
        let shint = self.lift_hint(hint, subs, at, lesser, greater);
        match surface_search(&self.surface, point, shint, trials) {
            None => None,
            Some(uv) => curve_search(&self.curve, uv, hint, trials),
        }
    }

    /// `start` is the parameter from which the iteration to the nearest point
    /// starts: the hinted parameter, or what `presearch` found in the hinted
    /// range, or in the whole range of the curve where there is no hint.
    pub open spec fn seeded<T, Q, PS, PR>(
        &self,
        point: Q,
        hint: SPHint1D<T>,
        presearch: &PS,
        range: &PR,
        start: T,
    ) -> bool where PS: Fn(&PCurve<C, S>, Q, (T, T), usize) -> T, PR: Fn(&C) -> (T, T) {
        match hint {
            SPHint1D::Parameter(h) => start == h,
            SPHint1D::Range(x, y) => call_ensures(
                *presearch,
                (self, point, (x, y), PRESEARCH_DIVISION),
                start,
            ),
            SPHint1D::NoHint => exists|whole: (T, T)| #[trigger]
                call_ensures(*range, (&self.curve_spec(),), whole) && call_ensures(
                    *presearch,
                    (self, point, whole, PRESEARCH_DIVISION),
                    start,
                ),
        }
    }

    /// Searches the parameter at which the composed curve comes nearest to
    /// `point`, by an iteration of at most `trials` steps from a start chosen
    /// by the hint.
    pub fn search_nearest_parameter<T: Copy, Q: Copy, PS, PR, NP>(
        &self,
        point: Q,
        hint: SPHint1D<T>,
        trials: usize,
        presearch: &PS,
        range: &PR,
        nearest: &NP,
    ) -> (res: Option<T>) where
        PS: Fn(&PCurve<C, S>, Q, (T, T), usize) -> T,
        PR: Fn(&C) -> (T, T),
        NP: Fn(&PCurve<C, S>, Q, T, usize) -> Option<T>,

        requires
            forall|c: &PCurve<C, S>, q: Q, r: (T, T), n: usize|
                call_requires(*presearch, (c, q, r, n)),
            forall|c: &C| call_requires(*range, (c,)),
            forall|c: &PCurve<C, S>, q: Q, t: T, n: usize| call_requires(*nearest, (c, q, t, n)),
        ensures
            exists|start: T| #[trigger]
                self.seeded(point, hint, presearch, range, start) && call_ensures(
                    *nearest,
                    (self, point, start, trials),
                    res,
                ),
    {
        let start = match hint {
            SPHint1D::Parameter(h) => h,
            SPHint1D::Range(x, y) => presearch(self, point, (x, y), PRESEARCH_DIVISION),
            SPHint1D::NoHint => {
                let whole = range(&self.curve);
                let found = presearch(self, point, whole, PRESEARCH_DIVISION);
                assert(call_ensures(*range, (&self.curve_spec(),), whole) && call_ensures(
                    *presearch,
                    (self, point, whole, PRESEARCH_DIVISION),
                    found,
                ));
                found
            },
        };
        assert(self.seeded(point, hint, presearch, range, start));
        nearest(self, point, start, trials)
    }

    /// Reverses the direction of the composed curve by inverting the plane
    /// curve; the surface stays as it is.
    pub fn invert<I: Fn(&C) -> C>(&mut self, inverted: &I)
        requires
            forall|c: &C| call_requires(*inverted, (c,)),
        ensures
            final(self).surface_spec() == old(self).surface_spec(),
            call_ensures(*inverted, (&old(self).curve_spec(),), final(self).curve_spec()),
    {
        self.curve = inverted(&self.curve);
    }
}

/// What is asked of a plane curve at a parameter: its point, its first
/// derivative or its second.
#[derive(Clone, Copy, Debug, PartialEq, Eq, Structural)]
pub enum CurveOrder {
    Point,
    First,
    Second,
}

/// A partial derivative of a surface.
#[derive(Clone, Copy, Debug, PartialEq, Eq, Structural)]
pub enum Partial {
    U,
    V,
    UU,
    UV,
    VV,
}

/// `out` is a partial derivative of the surface at `pt`, scaled by `k`.
pub open spec fn scaled_partial<S, T, W, PD, SC>(
    surface: &S,
    partial: &PD,
    scale: &SC,
    which: Partial,
    pt: (T, T),
    k: T,
    out: W,
) -> bool where PD: Fn(&S, Partial, T, T) -> W, SC: Fn(W, T) -> W {
    exists|v: W|
        #![trigger call_ensures(*partial, (surface, which, pt.0, pt.1), v), call_ensures(*scale, (v, k), out)]
        call_ensures(*partial, (surface, which, pt.0, pt.1), v) && call_ensures(
            *scale,
            (v, k),
            out,
        )
}

/// `out` is a partial derivative of the surface at `pt`, scaled by `k1` and then
/// by `k2`.
pub open spec fn twice_scaled_partial<S, T, W, PD, SC>(
    surface: &S,
    partial: &PD,
    scale: &SC,
    which: Partial,
    pt: (T, T),
    k1: T,
    k2: T,
    out: W,
) -> bool where PD: Fn(&S, Partial, T, T) -> W, SC: Fn(W, T) -> W {
    exists|m: W|
        #![trigger scaled_partial(surface, partial, scale, which, pt, k1, m), call_ensures(*scale, (m, k2), out)]
        scaled_partial(surface, partial, scale, which, pt, k1, m) && call_ensures(
            *scale,
            (m, k2),
            out,
        )
}

/// `out` is the first derivative of the composition where the plane curve has
/// the point `pt` and the derivative `d`: `Su * d.0 + Sv * d.1`.
pub open spec fn chain_first<S, T, W, PD, SC, PL>(
    surface: &S,
    partial: &PD,
    scale: &SC,
    plus: &PL,
    pt: (T, T),
    d: (T, T),
    out: W,
) -> bool where PD: Fn(&S, Partial, T, T) -> W, SC: Fn(W, T) -> W, PL: Fn(W, W) -> W {
    exists|a: W, b: W|
        #![trigger scaled_partial(surface, partial, scale, Partial::U, pt, d.0, a), scaled_partial(surface, partial, scale, Partial::V, pt, d.1, b)]
        scaled_partial(surface, partial, scale, Partial::U, pt, d.0, a) && scaled_partial(
            surface,
            partial,
            scale,
            Partial::V,
            pt,
            d.1,
            b,
        ) && call_ensures(*plus, (a, b), out)
}

/// `out` is the part of the second derivative of the composition that is
/// quadratic in the plane curve's derivative `d`:
/// `Suu * d.0 * d.0 + 2 * (Suv * d.0 * d.1) + Svv * d.1 * d.1`, the doubling
/// done by adding the term to itself.
pub open spec fn chain_quadratic<S, T, W, PD, SC, PL>(
    surface: &S,
    partial: &PD,
    scale: &SC,
    plus: &PL,
    pt: (T, T),
    d: (T, T),
    out: W,
) -> bool where PD: Fn(&S, Partial, T, T) -> W, SC: Fn(W, T) -> W, PL: Fn(W, W) -> W {
    exists|a: W, b: W, c: W, twice: W, sum: W|
        #![trigger twice_scaled_partial(surface, partial, scale, Partial::UU, pt, d.0, d.0, a), twice_scaled_partial(surface, partial, scale, Partial::UV, pt, d.0, d.1, b), twice_scaled_partial(surface, partial, scale, Partial::VV, pt, d.1, d.1, c), call_ensures(*plus, (b, b), twice), call_ensures(*plus, (a, twice), sum)]
        {
            &&& twice_scaled_partial(surface, partial, scale, Partial::UU, pt, d.0, d.0, a)
            &&& twice_scaled_partial(surface, partial, scale, Partial::UV, pt, d.0, d.1, b)
            &&& twice_scaled_partial(surface, partial, scale, Partial::VV, pt, d.1, d.1, c)
            &&& call_ensures(*plus, (b, b), twice)
            &&& call_ensures(*plus, (a, twice), sum)
            &&& call_ensures(*plus, (sum, c), out)
        }
}

/// `out` is the second derivative of the composition where the plane curve
/// has the point `pt`, the derivative `d` and the second derivative `dd`: the
/// quadratic part, then `+ Su * dd.0 + Sv * dd.1`.
pub open spec fn chain_second<S, T, W, PD, SC, PL>(
    surface: &S,
    partial: &PD,
    scale: &SC,
    plus: &PL,
    pt: (T, T),
    d: (T, T),
    dd: (T, T),
    out: W,
) -> bool where PD: Fn(&S, Partial, T, T) -> W, SC: Fn(W, T) -> W, PL: Fn(W, W) -> W {
    exists|q: W, a: W, b: W, sum: W|
        #![trigger chain_quadratic(surface, partial, scale, plus, pt, d, q), scaled_partial(surface, partial, scale, Partial::U, pt, dd.0, a), scaled_partial(surface, partial, scale, Partial::V, pt, dd.1, b), call_ensures(*plus, (q, a), sum)]
        {
            &&& chain_quadratic(surface, partial, scale, plus, pt, d, q)
            &&& scaled_partial(surface, partial, scale, Partial::U, pt, dd.0, a)
            &&& scaled_partial(surface, partial, scale, Partial::V, pt, dd.1, b)
            &&& call_ensures(*plus, (q, a), sum)
            &&& call_ensures(*plus, (sum, b), out)
        }
}

/// A partial derivative of the surface at `pt`, scaled by `k`.
fn scale_partial<S, T: Copy, W, PD, SC>(
    surface: &S,
    partial: &PD,
    scale: &SC,
    which: Partial,
    pt: (T, T),
    k: T,
) -> (out: W) where PD: Fn(&S, Partial, T, T) -> W, SC: Fn(W, T) -> W
    requires
        forall|s: &S, w: Partial, u: T, v: T| call_requires(*partial, (s, w, u, v)),
        forall|v: W, k: T| call_requires(*scale, (v, k)),
    ensures
        scaled_partial(surface, partial, scale, which, pt, k, out),
{
    let v = partial(surface, which, pt.0, pt.1);
    scale(v, k)
}

/// A partial derivative of the surface at `pt`, scaled by `k1` and then by `k2`.
fn scale_partial_twice<S, T: Copy, W, PD, SC>(
    surface: &S,
    partial: &PD,
    scale: &SC,
    which: Partial,
    pt: (T, T),
    k1: T,
    k2: T,
) -> (out: W) where PD: Fn(&S, Partial, T, T) -> W, SC: Fn(W, T) -> W
    requires
        forall|s: &S, w: Partial, u: T, v: T| call_requires(*partial, (s, w, u, v)),
        forall|v: W, k: T| call_requires(*scale, (v, k)),
    ensures
        twice_scaled_partial(surface, partial, scale, which, pt, k1, k2, out),
{
    let m = scale_partial(surface, partial, scale, which, pt, k1);
    scale(m, k2)
}

impl<C, S> PCurve<C, S> {
    /// `res` is a point of the composed curve at `t`: a point of the surface at
    /// a point of the plane curve at `t`.
    pub open spec fn point_at<T, Q, CA, SS>(
        &self,
        t: T,
        curve_at: &CA,
        surface_subs: &SS,
        res: Q,
    ) -> bool where CA: Fn(&C, CurveOrder, T) -> (T, T), SS: Fn(&S, T, T) -> Q {
        exists|pt: (T, T)| #[trigger]
            call_ensures(*curve_at, (&self.curve_spec(), CurveOrder::Point, t), pt) && call_ensures(
                *surface_subs,
                (&self.surface_spec(), pt.0, pt.1),
                res,
            )
    }

    /// The composed curve runs backwards where its plane curve does: where the
    /// plane curve of `after` has at every parameter the point that the plane
    /// curve of `before` has at the mirrored parameter, and the surface is the
    /// same, a point of `after` at `t` is a point of `before` at the mirrored `t`.
    pub proof fn lemma_inverted_runs_backwards<T, Q, CA, SS>(
        before: &PCurve<C, S>,
        after: &PCurve<C, S>,
        curve_at: &CA,
        surface_subs: &SS,
        mirrored: spec_fn(T) -> T,
        t: T,
        res: Q,
    ) where CA: Fn(&C, CurveOrder, T) -> (T, T), SS: Fn(&S, T, T) -> Q
        requires
            after.surface_spec() == before.surface_spec(),
            forall|s: T, pt: (T, T)| #[trigger]
                call_ensures(*curve_at, (&after.curve_spec(), CurveOrder::Point, s), pt)
                    ==> call_ensures(
                    *curve_at,
                    (&before.curve_spec(), CurveOrder::Point, mirrored(s)),
                    pt,
                ),
            after.point_at(t, curve_at, surface_subs, res),
        ensures
            before.point_at(mirrored(t), curve_at, surface_subs, res),
    {
        let pt = choose|pt: (T, T)| #[trigger]
            call_ensures(*curve_at, (&after.curve_spec(), CurveOrder::Point, t), pt)
                && call_ensures(*surface_subs, (&after.surface_spec(), pt.0, pt.1), res);
        assert(call_ensures(
            *curve_at,
            (&before.curve_spec(), CurveOrder::Point, mirrored(t)),
            pt,
        ));
    }

    /// The point of the composed curve at `t`: the surface's point at the plane
    /// curve's point.
    pub fn subs<T: Copy, Q, CA, SS>(&self, t: T, curve_at: &CA, surface_subs: &SS) -> (res: Q) where
        CA: Fn(&C, CurveOrder, T) -> (T, T),
        SS: Fn(&S, T, T) -> Q,

        requires
            forall|c: &C, o: CurveOrder, t: T| call_requires(*curve_at, (c, o, t)),
            forall|s: &S, u: T, v: T| call_requires(*surface_subs, (s, u, v)),
        ensures
            self.point_at(t, curve_at, surface_subs, res),
    {
        let pt = curve_at(&self.curve, CurveOrder::Point, t);
        surface_subs(&self.surface, pt.0, pt.1)
    }

    /// The first derivative of the composed curve at `t`, by the chain rule.
    pub fn der<T: Copy, W, CA, PD, SC, PL>(
        &self,
        t: T,
        curve_at: &CA,
        partial: &PD,
        scale: &SC,
        plus: &PL,
    ) -> (res: W) where
        CA: Fn(&C, CurveOrder, T) -> (T, T),
        PD: Fn(&S, Partial, T, T) -> W,
        SC: Fn(W, T) -> W,
        PL: Fn(W, W) -> W,

        requires
            forall|c: &C, o: CurveOrder, t: T| call_requires(*curve_at, (c, o, t)),
            forall|s: &S, w: Partial, u: T, v: T| call_requires(*partial, (s, w, u, v)),
            forall|v: W, k: T| call_requires(*scale, (v, k)),
            forall|a: W, b: W| call_requires(*plus, (a, b)),
        ensures
            exists|pt: (T, T), d: (T, T)|
                #![trigger call_ensures(*curve_at, (&self.curve_spec(), CurveOrder::Point, t), pt), call_ensures(*curve_at, (&self.curve_spec(), CurveOrder::First, t), d)]
                call_ensures(*curve_at, (&self.curve_spec(), CurveOrder::Point, t), pt)
                    && call_ensures(*curve_at, (&self.curve_spec(), CurveOrder::First, t), d)
                    && chain_first(&self.surface_spec(), partial, scale, plus, pt, d, res),
    {
        let pt = curve_at(&self.curve, CurveOrder::Point, t);
        let d = curve_at(&self.curve, CurveOrder::First, t);
        let a = scale_partial(&self.surface, partial, scale, Partial::U, pt, d.0);
        let b = scale_partial(&self.surface, partial, scale, Partial::V, pt, d.1);
        plus(a, b)
    }

    /// The second derivative of the composed curve at `t`, by the chain rule.
    pub fn der2<T: Copy, W: Copy, CA, PD, SC, PL>(
        &self,
        t: T,
        curve_at: &CA,
        partial: &PD,
        scale: &SC,
        plus: &PL,
    ) -> (res: W) where
        CA: Fn(&C, CurveOrder, T) -> (T, T),
        PD: Fn(&S, Partial, T, T) -> W,
        SC: Fn(W, T) -> W,
        PL: Fn(W, W) -> W,

        requires
            forall|c: &C, o: CurveOrder, t: T| call_requires(*curve_at, (c, o, t)),
            forall|s: &S, w: Partial, u: T, v: T| call_requires(*partial, (s, w, u, v)),
            forall|v: W, k: T| call_requires(*scale, (v, k)),
            forall|a: W, b: W| call_requires(*plus, (a, b)),
        ensures
            exists|pt: (T, T), d: (T, T), dd: (T, T)|
                #![trigger call_ensures(*curve_at, (&self.curve_spec(), CurveOrder::Point, t), pt), call_ensures(*curve_at, (&self.curve_spec(), CurveOrder::First, t), d), call_ensures(*curve_at, (&self.curve_spec(), CurveOrder::Second, t), dd)]
                call_ensures(*curve_at, (&self.curve_spec(), CurveOrder::Point, t), pt)
                    && call_ensures(*curve_at, (&self.curve_spec(), CurveOrder::First, t), d)
                    && call_ensures(*curve_at, (&self.curve_spec(), CurveOrder::Second, t), dd)
                    && chain_second(&self.surface_spec(), partial, scale, plus, pt, d, dd, res),
    {
        let pt = curve_at(&self.curve, CurveOrder::Point, t);
        let d = curve_at(&self.curve, CurveOrder::First, t);
        let dd = curve_at(&self.curve, CurveOrder::Second, t);
        let a = scale_partial_twice(&self.surface, partial, scale, Partial::UU, pt, d.0, d.0);
        let b = scale_partial_twice(&self.surface, partial, scale, Partial::UV, pt, d.0, d.1);
        let twice = plus(b, b);
        let sum = plus(a, twice);
        let c = scale_partial_twice(&self.surface, partial, scale, Partial::VV, pt, d.1, d.1);
        let q = plus(sum, c);
        assert(chain_quadratic(&self.surface, partial, scale, plus, pt, d, q));
        let e = scale_partial(&self.surface, partial, scale, Partial::U, pt, dd.0);
        let f = scale_partial(&self.surface, partial, scale, Partial::V, pt, dd.1);
        let sum2 = plus(q, e);
        plus(sum2, f)
    }

    /// The range of parameters of the composed curve: that of the plane curve.
    pub fn parameter_range<T, PR: Fn(&C) -> (T, T)>(&self, range: &PR) -> (res: (T, T))
        requires
            forall|c: &C| call_requires(*range, (c,)),
        ensures
            call_ensures(*range, (&self.curve_spec(),), res),
    {
        range(&self.curve)
    }
}

} // verus!
