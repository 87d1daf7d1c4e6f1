//! Unwrapping of periodic parameters: which of the images of a coordinate, one
//! period apart, continues a run of points across the seam of a surface.
use vstd::prelude::*;

verus! {

/// Which image of a periodic coordinate to take: the value itself, the value one
/// period lower, or the value one period higher.
#[derive(Clone, Copy, Debug, PartialEq, Eq, Structural)]
pub enum PeriodShift {
    Keep,
    Minus,
    Plus,
}

/// How the three images of a periodic coordinate `h` compare in distance to the
/// previous coordinate `q`, for a period `p`: with `d0 = |h - q|`,
/// `d1 = |h - p - q|` and `d2 = |h + p - q|`, the three strict comparisons
/// `d0 < d1`, `d1 < d2` and `d2 < d0`.
#[derive(Clone, Copy, Debug, PartialEq, Eq, Structural)]
pub struct SeamOrder {
    pub keep_lt_minus: bool,
    pub minus_lt_plus: bool,
    pub plus_lt_keep: bool,
}

impl SeamOrder {
    /// The three comparisons cannot all hold of a strict order: `d0 < d1 < d2 < d0`.
    pub open spec fn cyclic(self) -> bool {
        self.keep_lt_minus && self.minus_lt_plus && self.plus_lt_keep
    }

    /// The comparisons that three distances give.
    pub open spec fn of_distances(d0: int, d1: int, d2: int) -> SeamOrder {
        SeamOrder { keep_lt_minus: d0 < d1, minus_lt_plus: d1 < d2, plus_lt_keep: d2 < d0 }
    }
}

/// The image that the comparisons select.
pub open spec fn shift_of(order: SeamOrder) -> PeriodShift {
    if !order.keep_lt_minus && order.minus_lt_plus {
        PeriodShift::Minus
    } else if !order.minus_lt_plus && order.plus_lt_keep {
        PeriodShift::Plus
    } else {
        PeriodShift::Keep
    }
}

/// The distance, among three, that belongs to a shift.
pub open spec fn distance_of(shift: PeriodShift, d0: int, d1: int, d2: int) -> int {
    match shift {
        PeriodShift::Keep => d0,
        PeriodShift::Minus => d1,
        PeriodShift::Plus => d2,
    }
}

/// Selects the image of a periodic coordinate that lies nearest to the previous one.
pub fn choose_shift(order: SeamOrder) -> (shift: PeriodShift)
    requires
        !order.cyclic(),
    ensures
        shift == shift_of(order),
{
    if !order.keep_lt_minus && order.minus_lt_plus {
        PeriodShift::Minus
    } else if !order.minus_lt_plus && order.plus_lt_keep {
        PeriodShift::Plus
    } else {
        PeriodShift::Keep
    }
}

/// Comparisons taken from three distances are never cyclic.
pub proof fn lemma_distances_not_cyclic(d0: int, d1: int, d2: int)
    ensures
        !SeamOrder::of_distances(d0, d1, d2).cyclic(),
{
}

/// The selected image is a nearest one: its distance to the previous coordinate is
/// no greater than that of either other image.
pub proof fn lemma_shift_is_nearest(d0: int, d1: int, d2: int)
    ensures
        ({
            let chosen = distance_of(shift_of(SeamOrder::of_distances(d0, d1, d2)), d0, d1, d2);
            chosen <= d0 && chosen <= d1 && chosen <= d2
        }),
{
}

/// The distance of two coordinates.
pub open spec fn distance(a: int, b: int) -> int {
    if a >= b {
        a - b
    } else {
        b - a
    }
}

/// The image of the coordinate `h` that a shift selects, for the period `p`.
pub open spec fn image(h: int, p: int, shift: PeriodShift) -> int {
    match shift {
        PeriodShift::Keep => h,
        PeriodShift::Minus => h - p,
        PeriodShift::Plus => h + p,
    }
}

/// How the images of `h` compare in distance to `q`, for the period `p`.
pub open spec fn order_at(h: int, p: int, q: int) -> SeamOrder {
    SeamOrder::of_distances(distance(h, q), distance(h - p, q), distance(h + p, q))
}

/// Across a seam, consecutive coordinates stay within half a period: where a
/// coordinate is no farther than a period and a half from the previous one, the
/// image selected for it is no farther than half a period.
pub proof fn lemma_unwrapped_within_half_period(h: int, p: int, q: int)
    requires
        p > 0,
        2 * distance(h, q) <= 3 * p,
    ensures
        2 * distance(image(h, p, shift_of(order_at(h, p, q))), q) <= p,
{
    lemma_shift_is_nearest(distance(h, q), distance(h - p, q), distance(h + p, q));
}

/// One of the two coordinates of the parameter plane.
#[derive(Clone, Copy, Debug, PartialEq, Eq, Structural)]
pub enum Axis {
    U,
    V,
}

/// `out` is `value` unwrapped along `axis` against `previous`: where the axis has a
/// period and a previous point exists, `order` compared the three images of
/// `value` and `apply` moved `value` to the selected one, unless that is `value`
/// itself; elsewhere `out` is `value`.
pub open spec fn unwrapped<
    P,
    T,
    G: Fn(Axis, P, T, P) -> SeamOrder, H: Fn(Axis,
    P,
    T,
    PeriodShift) -> P,
>(
    axis: Axis,
    period: Option<T>,
    value: P,
    previous: Option<P>,
    order: &G,
    apply: &H,
    out: P,
) -> bool {
    match (period, previous) {
        (Some(p), Some(q)) => exists|o: SeamOrder| #[trigger]
            call_ensures(*order, (axis, value, p, q), o) && if shift_of(o) == PeriodShift::Keep {
                out == value
            } else {
                call_ensures(*apply, (axis, value, p, shift_of(o)), out)
            },
        _ => out == value,
    }
}

/// Unwraps `value` along `axis` against the previous point, if the axis is periodic
/// and there is a previous point.
pub fn unwrap_axis<
    P: Copy,
    T: Copy,
    G: Fn(Axis, P, T, P) -> SeamOrder, H: Fn(Axis,
    P,
    T,
    PeriodShift) -> P,
>(
    axis: Axis,
    period: Option<T>,
    value: P,
    previous: Option<P>,
    order: &G,
    apply: &H,
) -> (out: P)
    requires
        forall|a: Axis, h: P, p: T, q: P| call_requires(*order, (a, h, p, q)),
        forall|a: Axis, h: P, p: T, q: P, o: SeamOrder|
            call_ensures(*order, (a, h, p, q), o) ==> !o.cyclic(),
        forall|a: Axis, h: P, p: T, s: PeriodShift| call_requires(*apply, (a, h, p, s)),
    ensures
        unwrapped(axis, period, value, previous, order, apply, out),
{
    match (period, previous) {
        (Some(p), Some(q)) => {
            let o = order(axis, value, p, q);
            match choose_shift(o) {
                PeriodShift::Keep => value,
                PeriodShift::Minus => apply(axis, value, p, PeriodShift::Minus),
                PeriodShift::Plus => apply(axis, value, p, PeriodShift::Plus),
            }
        },
        _ => value,
    }
}

/// The functions that compare and move coordinates give one result for one
/// argument.
pub open spec fn seam_single_valued<
    P,
    T,
    G: Fn(Axis, P, T, P) -> SeamOrder, H: Fn(Axis,
    P,
    T,
    PeriodShift) -> P,
>(
    order: &G,
    apply: &H,
) -> bool {
    &&& forall|a: Axis, h: P, p: T, q: P, x: SeamOrder, y: SeamOrder|
        #![trigger call_ensures(*order, (a, h, p, q), x), call_ensures(*order, (a, h, p, q), y)]
        call_ensures(*order, (a, h, p, q), x) && call_ensures(*order, (a, h, p, q), y) ==> x == y
    &&& forall|a: Axis, h: P, p: T, s: PeriodShift, x: P, y: P|
        #![trigger call_ensures(*apply, (a, h, p, s), x), call_ensures(*apply, (a, h, p, s), y)]
        call_ensures(*apply, (a, h, p, s), x) && call_ensures(*apply, (a, h, p, s), y) ==> x == y
}

/// Where comparing and moving give one result for one argument, so does unwrapping.
pub proof fn lemma_unwrapped_single_valued<
    P,
    T,
    G: Fn(Axis, P, T, P) -> SeamOrder, H: Fn(Axis,
    P,
    T,
    PeriodShift) -> P,
>(
    axis: Axis,
    period: Option<T>,
    value: P,
    previous: Option<P>,
    order: &G,
    apply: &H,
    one: P,
    other: P,
)
    requires
        seam_single_valued(order, apply),
        unwrapped(axis, period, value, previous, order, apply, one),
        unwrapped(axis, period, value, previous, order, apply, other),
    ensures
        one == other,
{
    match (period, previous) {
        (Some(p), Some(q)) => {
            let x = choose|o: SeamOrder| #[trigger]
                call_ensures(*order, (axis, value, p, q), o) && if shift_of(o)
                    == PeriodShift::Keep {
                    one == value
                } else {
                    call_ensures(*apply, (axis, value, p, shift_of(o)), one)
                };
            let y = choose|o: SeamOrder| #[trigger]
                call_ensures(*order, (axis, value, p, q), o) && if shift_of(o)
                    == PeriodShift::Keep {
                    other == value
                } else {
                    call_ensures(*apply, (axis, value, p, shift_of(o)), other)
                };
            assert(x == y);
        },
        _ => {},
    }
}

} // verus!
