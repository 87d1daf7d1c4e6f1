//! The search of parameters on a surface with a hint that may mislead.
use vstd::prelude::*;

verus! {

/// The number of steps given to each search of parameters on a surface.
pub const SEARCH_TRIALS: usize = 100;

/// `res` is an outcome of searching with a hint and then, where that found
/// nothing, without one: what the first search found, or else what the second did.
pub open spec fn searched_twice<S, Q, P, F: Fn(&S, Q, Option<P>, usize) -> Option<P>>(
    surface: &S,
    point: Q,
    hint: Option<P>,
    search: &F,
    res: Option<P>,
) -> bool {
    ||| res.is_some() && call_ensures(*search, (surface, point, hint, SEARCH_TRIALS), res)
    ||| call_ensures(*search, (surface, point, hint, SEARCH_TRIALS), None::<P>) && call_ensures(
        *search,
        (surface, point, None::<P>, SEARCH_TRIALS),
        res,
    )
}

/// Searches the parameters of a point on a surface, first from the hint, and
/// where that fails once more without a hint.
pub fn by_search_parameter<S, Q: Copy, P, F: Fn(&S, Q, Option<P>, usize) -> Option<P>>(
    surface: &S,
    point: Q,
    hint: Option<P>,
    search: &F,
) -> (res: Option<P>)
    requires
        forall|s: &S, q: Q, h: Option<P>, n: usize| call_requires(*search, (s, q, h, n)),
    ensures
        searched_twice(surface, point, hint, search, res),
{
    match search(surface, point, hint, SEARCH_TRIALS) {
        Some(found) => Some(found),
        None => search(surface, point, None, SEARCH_TRIALS),
    }
}

/// Searches the parameters nearest to a point on a surface, where `nearest`
/// is such a search: first from the hint, and where that fails once more
/// without a hint.
pub fn by_search_nearest_parameter<S, Q: Copy, P, F: Fn(&S, Q, Option<P>, usize) -> Option<P>>(
    surface: &S,
    point: Q,
    hint: Option<P>,
    nearest: &F,
) -> (res: Option<P>)
    requires
        forall|s: &S, q: Q, h: Option<P>, n: usize| call_requires(*nearest, (s, q, h, n)),
    ensures
        searched_twice(surface, point, hint, nearest, res),
{
    by_search_parameter(surface, point, hint, nearest)
}

} // verus!
