//! Insertion of a boundary, and of sampling points of the interior, into a
//! triangulation: which constraints are attempted, in which order, and what
//! happens when one is refused. The triangulation is the caller's, and is
//! worked on through the caller's functions.
use crate::inclusion::RayProbe;
use crate::polyline::Polyline;
use vstd::prelude::*;

verus! {

/// The start held over before segment `k`: set when an attempt fails, kept while
/// attempts fail, cleared when one succeeds. `legal[i]` says whether the attempt
/// at segment `i` succeeded.
pub open spec fn pending_before(indices: Seq<(usize, usize)>, legal: Seq<bool>, k: int) -> Option<
    usize,
>
    decreases k,
{
    if k <= 0 {
        None
    } else if legal[k - 1] {
        None
    } else {
        Some(
            match pending_before(indices, legal, k - 1) {
                Some(p) => p,
                None => indices[k - 1].0,
            },
        )
    }
}

/// The start of the constraint attempted at segment `k`: the start held over, or
/// else the segment's own.
pub open spec fn origin(indices: Seq<(usize, usize)>, legal: Seq<bool>, k: int) -> usize {
    match pending_before(indices, legal, k) {
        Some(p) => p,
        None => indices[k].0,
    }
}

/// The constraints added over the first `k` segments, in order: at each segment
/// whose attempt succeeded, the one from the attempt's start to the segment's end.
pub open spec fn constraints(indices: Seq<(usize, usize)>, legal: Seq<bool>, k: int) -> Seq<
    (usize, usize),
>
    decreases k,
{
    if k <= 0 {
        Seq::empty()
    } else if legal[k - 1] {
        constraints(indices, legal, k - 1).push((origin(indices, legal, k - 1), indices[k - 1].1))
    } else {
        constraints(indices, legal, k - 1)
    }
}

/// An attempt to constrain `from -> to` ended as `legal` says: it fails where an
/// end has no handle or `can_add` refuses, and where it succeeds `add_constraint` was called.
pub open spec fn attempted<TR, H, L: Fn(&TR, H, H) -> bool, A: Fn(&TR, H, H) -> bool>(
    triangulation: &TR,
    handles: Seq<Option<H>>,
    from: int,
    to: int,
    can_add: &L,
    add_constraint: &A,
    legal: bool,
) -> bool {
    match (handles[from], handles[to]) {
        (Some(a), Some(b)) => call_ensures(*can_add, (triangulation, a, b), legal) && (legal ==> exists|r: bool|
            call_ensures(*add_constraint, (triangulation, a, b), r)),
        _ => !legal,
    }
}

/// What inserting a boundary into a triangulation gave.
#[derive(Clone, Debug)]
pub struct Inserted<H> {
    /// For each point of the polyline its handle in the triangulation, or none
    /// where the triangulation refused the point.
    pub handles: Vec<Option<H>>,
    /// The constraints added, as pairs of indices into the polyline's points.
    pub constraints: Vec<(usize, usize)>,
}

impl<P: Copy> Polyline<P> {
    /// `res` is what inserting this boundary into a triangulation gave: for
    /// each point what `insert` gave for it, and the constraints that the walk
    /// over the segments added, for some outcomes `legal` of its attempts.
    pub open spec fn inserted_to<TR, H, I, L, A>(
        &self,
        triangulation: &TR,
        insert: &I,
        can_add: &L,
        add_constraint: &A,
        res: &Inserted<H>,
    ) -> bool where
        I: Fn(&TR, &P) -> Option<H>,
        L: Fn(&TR, H, H) -> bool,
        A: Fn(&TR, H, H) -> bool,
     {
        &&& res.handles@.len() == self.positions@.len()
        &&& forall|i: int|
            0 <= i < self.positions@.len() ==> call_ensures(
                *insert,
                (triangulation, &self.positions@[i]),
                #[trigger] res.handles@[i],
            )
        &&& exists|legal: Seq<bool>|
            {
                &&& legal.len() == self.indices@.len()
                &&& forall|k: int|
                    0 <= k < legal.len() ==> attempted(
                        triangulation,
                        res.handles@,
                        origin(self.indices@, legal, k) as int,
                        self.indices@[k].1 as int,
                        can_add,
                        add_constraint,
                        #[trigger] legal[k],
                    )
                &&& res.constraints@ == constraints(
                    self.indices@,
                    legal,
                    self.indices@.len() as int,
                )
            }
    }

    /// Inserts the points into a triangulation and adds the segments as
    /// constraints. `insert` places a point and gives its handle; `can_add` tells
    /// whether a constraint between two handles crosses none that exists; `add_constraint`
    /// adds it. A segment whose constraint cannot be added leaves its start
    /// pending, and the following segments are then attempted from that start,
    /// until one succeeds.
    pub fn insert_to<TR, H: Copy, I, L, A>(
        &self,
        triangulation: &TR,
        insert: &I,
        can_add: &L,
        add_constraint: &A,
    ) -> (res: Inserted<H>) where
        I: Fn(&TR, &P) -> Option<H>,
        L: Fn(&TR, H, H) -> bool,
        A: Fn(&TR, H, H) -> bool,

        requires
            self.wf(),
            forall|t: &TR, p: &P| call_requires(*insert, (t, p)),
            forall|t: &TR, a: H, b: H| call_requires(*can_add, (t, a, b)),
            forall|t: &TR, a: H, b: H| call_requires(*add_constraint, (t, a, b)),
        ensures
            self.inserted_to(triangulation, insert, can_add, add_constraint, &res),
    {
        let handles = self.insert_points(triangulation, insert);
        let n = self.indices.len();
        let mut added: Vec<(usize, usize)> = Vec::new();
        let mut pending: Option<usize> = None;
        let ghost mut legal: Seq<bool> = Seq::empty();
        let mut k: usize = 0;
        while k < n
            invariant
                self.wf(),
                n == self.indices@.len(),
                k <= n,
                handles@.len() == self.positions@.len(),
                forall|t: &TR, a: H, b: H| call_requires(*can_add, (t, a, b)),
                forall|t: &TR, a: H, b: H| call_requires(*add_constraint, (t, a, b)),
                legal.len() == k,
                pending == pending_before(self.indices@, legal, k as int),
                pending matches Some(p) ==> p < self.positions@.len(),
                forall|i: int|
                    0 <= i < k ==> attempted(
                        triangulation,
                        handles@,
                        origin(self.indices@, legal, i) as int,
                        self.indices@[i].1 as int,
                        can_add,
                        add_constraint,
                        #[trigger] legal[i],
                    ),
                added@ == constraints(self.indices@, legal, k as int),
            decreases n - k,
        {
            let seg = self.indices[k];
            let from = match pending {
                Some(p) => p,
                None => seg.0,
            };
            let ok = match (handles[from], handles[seg.1]) {
                (Some(a), Some(b)) => {
                    if can_add(triangulation, a, b) {
                        let _ = add_constraint(triangulation, a, b);
                        true
                    } else {
                        false
                    }
                },
                _ => false,
            };
            proof {
                let before = legal;
                legal = legal.push(ok);
                lemma_pending_extends(self.indices@, before, legal, k as int);
                assert forall|i: int| 0 <= i < k + 1 implies attempted(
                    triangulation,
                    handles@,
                    origin(self.indices@, legal, i) as int,
                    self.indices@[i].1 as int,
                    can_add,
                    add_constraint,
                    #[trigger] legal[i],
                ) by {
                    if i < k {
                        assert(legal[i] == before[i]);
                    }
                }
            }
            if ok {
                added.push((from, seg.1));
                pending = None;
            } else {
                pending = Some(from);
            }
            k = k + 1;
        }
        Inserted { handles, constraints: added }
    }

    /// Inserts every point, in order, keeping what `insert` gave for each.
    fn insert_points<TR, H: Copy, I: Fn(&TR, &P) -> Option<H>>(
        &self,
        triangulation: &TR,
        insert: &I,
    ) -> (handles: Vec<Option<H>>)
        requires
            forall|t: &TR, p: &P| call_requires(*insert, (t, p)),
        ensures
            handles@.len() == self.positions@.len(),
            forall|i: int|
                0 <= i < self.positions@.len() ==> call_ensures(
                    *insert,
                    (triangulation, &self.positions@[i]),
                    #[trigger] handles@[i],
                ),
    {
        let n = self.positions.len();
        let mut handles: Vec<Option<H>> = Vec::new();
        let mut i: usize = 0;
        while i < n
            invariant
                n == self.positions@.len(),
                i <= n,
                handles@.len() == i,
                forall|t: &TR, p: &P| call_requires(*insert, (t, p)),
                forall|j: int|
                    0 <= j < i ==> call_ensures(
                        *insert,
                        (triangulation, &self.positions@[j]),
                        #[trigger] handles@[j],
                    ),
            decreases n - i,
        {
            let h = insert(triangulation, &self.positions[i]);
            handles.push(h);
            i = i + 1;
        }
        handles
    }
}

/// Where every attempt succeeds, the constraints are the segments, and no start
/// is ever held over.
pub proof fn lemma_all_legal_keeps_segments(indices: Seq<(usize, usize)>, legal: Seq<bool>, k: int)
    requires
        0 <= k <= indices.len(),
        k <= legal.len(),
        forall|i: int| 0 <= i < k ==> legal[i],
    ensures
        pending_before(indices, legal, k) == None::<usize>,
        constraints(indices, legal, k) == indices.take(k),
    decreases k,
{
    if k > 0 {
        lemma_all_legal_keeps_segments(indices, legal, k - 1);
        assert(indices.take(k) =~= indices.take(k - 1).push(indices[k - 1]));
    } else {
        assert(indices.take(0) =~= Seq::<(usize, usize)>::empty());
    }
}

/// No more constraints are added than there are segments, and each ends where
/// a segment ends.
pub proof fn lemma_constraints_end_at_segments(
    indices: Seq<(usize, usize)>,
    legal: Seq<bool>,
    k: int,
)
    requires
        0 <= k <= indices.len(),
        k <= legal.len(),
    ensures
        constraints(indices, legal, k).len() <= k,
        forall|c: int|
            0 <= c < constraints(indices, legal, k).len() ==> exists|i: int|
                0 <= i < k && legal[i] && #[trigger] constraints(indices, legal, k)[c] == (
                    origin(indices, legal, i),
                    indices[i].1,
                ),
    decreases k,
{
    if k > 0 {
        lemma_constraints_end_at_segments(indices, legal, k - 1);
        let before = constraints(indices, legal, k - 1);
        let now = constraints(indices, legal, k);
        assert forall|c: int| 0 <= c < now.len() implies exists|i: int|
            0 <= i < k && legal[i] && #[trigger] now[c] == (
                origin(indices, legal, i),
                indices[i].1,
            ) by {
            if c < before.len() {
                let i = choose|i: int|
                    0 <= i < k - 1 && legal[i] && before[c] == (
                        origin(indices, legal, i),
                        indices[i].1,
                    );
                assert(0 <= i < k && legal[i] && now[c] == (
                    origin(indices, legal, i),
                    indices[i].1,
                ));
            } else {
                assert(legal[k - 1] && now[c] == (
                    origin(indices, legal, k - 1),
                    indices[k - 1].1,
                ));
            }
        }
    }
}

/// Outcomes of later attempts change nothing of what was pending or added before.
pub proof fn lemma_pending_extends(
    indices: Seq<(usize, usize)>,
    legal: Seq<bool>,
    longer: Seq<bool>,
    k: int,
)
    requires
        0 <= k <= legal.len() <= longer.len(),
        forall|i: int| 0 <= i < legal.len() ==> legal[i] == longer[i],
    ensures
        pending_before(indices, longer, k) == pending_before(indices, legal, k),
        constraints(indices, longer, k) == constraints(indices, legal, k),
        forall|i: int|
            0 <= i <= k ==> #[trigger] pending_before(indices, longer, i) == pending_before(
                indices,
                legal,
                i,
            ),
    decreases k,
{
    if k > 0 {
        lemma_pending_extends(indices, legal, longer, k - 1);
    }
}

/// Those of the first `k` points of a row of samples that `keep` marks, in order.
pub open spec fn row_kept<P>(pts: Seq<P>, keep: Seq<bool>, k: int) -> Seq<P>
    decreases k,
{
    if k <= 0 {
        Seq::empty()
    } else if keep[k - 1] {
        row_kept(pts, keep, k - 1).push(pts[k - 1])
    } else {
        row_kept(pts, keep, k - 1)
    }
}

/// Those of the points of the first `r` rows of samples that `keep` marks, row
/// after row.
pub open spec fn grid_kept<P>(pts: Seq<Seq<P>>, keep: Seq<Seq<bool>>, r: int) -> Seq<P>
    decreases r,
{
    if r <= 0 {
        Seq::empty()
    } else {
        grid_kept(pts, keep, r - 1) + row_kept(pts[r - 1], keep[r - 1], pts[r - 1].len() as int)
    }
}

/// `pts` is a row of samples at `u`, one for each value of `vdiv`, as `point`
/// made them, and `keep` holds for each a verdict of the boundary on it.
pub open spec fn row_sampled<P: Copy, T, MK: Fn(T, T) -> P, F: Fn(&P, &P, &P) -> RayProbe>(
    boundary: &Polyline<P>,
    u: T,
    vdiv: Seq<T>,
    point: &MK,
    probe: &F,
    pts: Seq<P>,
    keep: Seq<bool>,
) -> bool {
    &&& pts.len() == vdiv.len()
    &&& keep.len() == vdiv.len()
    &&& forall|c: int|
        0 <= c < vdiv.len() ==> call_ensures(*point, (u, vdiv[c]), #[trigger] pts[c])
            && boundary.included(&pts[c], probe, keep[c])
}

/// `placed` holds the points `kept`, in order, each with what `insert` gave for it.
pub open spec fn inserted_all<TR, P, H, I: Fn(&TR, &P) -> Option<H>>(
    triangulation: &TR,
    insert: &I,
    kept: Seq<P>,
    placed: Seq<(P, Option<H>)>,
) -> bool {
    &&& placed.len() == kept.len()
    &&& forall|k: int|
        0 <= k < kept.len() ==> (#[trigger] placed[k]).0 == kept[k] && call_ensures(
            *insert,
            (triangulation, &placed[k].0),
            placed[k].1,
        )
}

impl<P: Copy> Polyline<P> {
    /// Samples one row of the interior: for each value of `vdiv` the point at
    /// `(u, v)`, inserted if the boundary holds it.
    fn insert_row<TR, T: Copy, H, MK, F, I>(
        &self,
        triangulation: &TR,
        u: T,
        vdiv: &Vec<T>,
        point: &MK,
        probe: &F,
        insert: &I,
        placed: &mut Vec<(P, Option<H>)>,
    ) -> (res: Ghost<(Seq<P>, Seq<bool>)>) where
        MK: Fn(T, T) -> P,
        F: Fn(&P, &P, &P) -> RayProbe,
        I: Fn(&TR, &P) -> Option<H>,

        requires
            self.wf(),
            forall|a: T, b: T| call_requires(*point, (a, b)),
            forall|c: &P, a: &P, b: &P| call_requires(*probe, (c, a, b)),
            forall|t: &TR, p: &P| call_requires(*insert, (t, p)),
        ensures
            row_sampled(self, u, vdiv@, point, probe, res@.0, res@.1),
            final(placed)@.len() == old(placed)@.len() + row_kept(
                res@.0,
                res@.1,
                vdiv@.len() as int,
            ).len(),
            forall|k: int| 0 <= k < old(placed)@.len() ==> final(placed)@[k] == old(placed)@[k],
            forall|k: int|
                0 <= k < row_kept(res@.0, res@.1, vdiv@.len() as int).len() ==> (
                #[trigger] final(placed)@[old(placed)@.len() + k]).0 == row_kept(
                    res@.0,
                    res@.1,
                    vdiv@.len() as int,
                )[k] && call_ensures(
                    *insert,
                    (triangulation, &final(placed)@[old(placed)@.len() + k].0),
                    final(placed)@[old(placed)@.len() + k].1,
                ),
    {
        let n = vdiv.len();
        let ghost mut pts: Seq<P> = Seq::empty();
        let ghost mut keep: Seq<bool> = Seq::empty();
        let ghost start = placed@.len() as int;
        let mut c: usize = 0;
        while c < n
            invariant
                self.wf(),
                n == vdiv@.len(),
                c <= n,
                start == old(placed)@.len(),
                forall|a: T, b: T| call_requires(*point, (a, b)),
                forall|c: &P, a: &P, b: &P| call_requires(*probe, (c, a, b)),
                forall|t: &TR, p: &P| call_requires(*insert, (t, p)),
                pts.len() == c,
                keep.len() == c,
                forall|d: int|
                    0 <= d < c ==> call_ensures(*point, (u, vdiv@[d]), #[trigger] pts[d])
                        && self.included(&pts[d], probe, keep[d]),
                placed@.len() == start + row_kept(pts, keep, c as int).len(),
                forall|k: int| 0 <= k < start ==> placed@[k] == old(placed)@[k],
                forall|k: int|
                    0 <= k < row_kept(pts, keep, c as int).len() ==> (#[trigger] placed@[start
                        + k]).0 == row_kept(pts, keep, c as int)[k] && call_ensures(
                        *insert,
                        (triangulation, &placed@[start + k].0),
                        placed@[start + k].1,
                    ),
            decreases n - c,
        {
            let p = point(u, vdiv[c]);
            let inside = self.includes(&p, probe);
            let ghost before_pts = pts;
            let ghost before_keep = keep;
            proof {
                pts = pts.push(p);
                keep = keep.push(inside);
                lemma_row_kept_extends(before_pts, before_keep, pts, keep, c as int);
            }
            if inside {
                let handle = insert(triangulation, &p);
                placed.push((p, handle));
            }
            c = c + 1;
        }
        Ghost((pts, keep))
    }

    /// `placed` is what inserting sampling points of the interior gave: the
    /// samples at all pairs of the values that `division` gave for the surface
    /// over the range that `bounds` gave for this boundary, those that this
    /// boundary holds, row after row, each with what `insert` gave for it.
    pub open spec fn surface_inserted<TR, S, R, T, H, B, D, MK, F, I>(
        &self,
        triangulation: &TR,
        surface: &S,
        bounds: &B,
        division: &D,
        point: &MK,
        probe: &F,
        insert: &I,
        placed: Seq<(P, Option<H>)>,
    ) -> bool where
        B: Fn(&Polyline<P>) -> R,
        D: Fn(&S, R) -> (Vec<T>, Vec<T>),
        MK: Fn(T, T) -> P,
        F: Fn(&P, &P, &P) -> RayProbe,
        I: Fn(&TR, &P) -> Option<H>,
     {
        exists|range: R, udiv: Vec<T>, vdiv: Vec<T>, pts: Seq<Seq<P>>, keep: Seq<Seq<bool>>|
            #![trigger call_ensures(*bounds, (self,), range), call_ensures(*division, (surface, range), (udiv, vdiv)), inserted_all(triangulation, insert, grid_kept(pts, keep, udiv@.len() as int), placed)]
            {
                &&& call_ensures(*bounds, (self,), range)
                &&& call_ensures(*division, (surface, range), (udiv, vdiv))
                &&& pts.len() == udiv@.len()
                &&& keep.len() == udiv@.len()
                &&& forall|r: int|
                    0 <= r < udiv@.len() ==> row_sampled(
                        self,
                        udiv@[r],
                        vdiv@,
                        point,
                        probe,
                        #[trigger] pts[r],
                        keep[r],
                    )
                &&& inserted_all(
                    triangulation,
                    insert,
                    grid_kept(pts, keep, udiv@.len() as int),
                    placed,
                )
            }
    }
}

/// Inserts sampling points of the interior into a triangulation. `bounds` gives
/// the range of parameters that the boundary spans, and `division` the values
/// of `u` and of `v` at which the surface is to be sampled over that range;
/// `point` makes the point at `(u, v)`. Of the points at all pairs of those
/// values, row by row in `u`, each that the boundary holds is inserted. Returns
/// the points inserted, each with what `insert` gave for it.
pub fn insert_surface<TR, S, P: Copy, R, T: Copy, H, B, D, MK, F, I>(
    triangulation: &TR,
    surface: &S,
    polyline: &Polyline<P>,
    bounds: &B,
    division: &D,
    point: &MK,
    probe: &F,
    insert: &I,
) -> (res: Vec<(P, Option<H>)>) where
    B: Fn(&Polyline<P>) -> R,
    D: Fn(&S, R) -> (Vec<T>, Vec<T>),
    MK: Fn(T, T) -> P,
    F: Fn(&P, &P, &P) -> RayProbe,
    I: Fn(&TR, &P) -> Option<H>,

    requires
        polyline.wf(),
        forall|b: &Polyline<P>| call_requires(*bounds, (b,)),
        forall|s: &S, r: R| call_requires(*division, (s, r)),
        forall|a: T, b: T| call_requires(*point, (a, b)),
        forall|c: &P, a: &P, b: &P| call_requires(*probe, (c, a, b)),
        forall|t: &TR, p: &P| call_requires(*insert, (t, p)),
    ensures
        polyline.surface_inserted(
            triangulation,
            surface,
            bounds,
            division,
            point,
            probe,
            insert,
            res@,
        ),
{
    let range = bounds(polyline);
    let ghost asked = range;
    let divided = division(surface, range);
    let udiv = divided.0;
    let vdiv = divided.1;
    let n = udiv.len();
    let mut placed: Vec<(P, Option<H>)> = Vec::new();
    let ghost mut pts: Seq<Seq<P>> = Seq::empty();
    let ghost mut keep: Seq<Seq<bool>> = Seq::empty();
    let mut r: usize = 0;
    while r < n
        invariant
            polyline.wf(),
            n == udiv@.len(),
            r <= n,
            forall|a: T, b: T| call_requires(*point, (a, b)),
            forall|c: &P, a: &P, b: &P| call_requires(*probe, (c, a, b)),
            forall|t: &TR, p: &P| call_requires(*insert, (t, p)),
            pts.len() == r,
            keep.len() == r,
            forall|q: int|
                0 <= q < r ==> row_sampled(
                    polyline,
                    udiv@[q],
                    vdiv@,
                    point,
                    probe,
                    #[trigger] pts[q],
                    keep[q],
                ),
            inserted_all(triangulation, insert, grid_kept(pts, keep, r as int), placed@),
        decreases n - r,
    {
        let ghost before = placed@;
        let ghost before_pts = pts;
        let ghost before_keep = keep;
        let row = polyline.insert_row(
            triangulation,
            udiv[r],
            &vdiv,
            point,
            probe,
            insert,
            &mut placed,
        );
        proof {
            pts = pts.push(row@.0);
            keep = keep.push(row@.1);
            lemma_grid_kept_extends(before_pts, before_keep, pts, keep, r as int);
            let kept = grid_kept(pts, keep, r as int + 1);
            let earlier = grid_kept(before_pts, before_keep, r as int);
            let added = row_kept(row@.0, row@.1, vdiv@.len() as int);
            assert(kept == earlier + added);
            assert forall|k: int| 0 <= k < kept.len() implies (#[trigger] placed@[k]).0
                == kept[k] && call_ensures(*insert, (triangulation, &placed@[k].0), placed@[k].1) by {
                if k < earlier.len() {
                    assert(placed@[k] == before[k]);
                } else {
                    assert(placed@[before.len() + (k - earlier.len())].0 == added[k
                        - earlier.len()]);
                }
            }
            assert forall|q: int| 0 <= q < r + 1 implies row_sampled(
                polyline,
                udiv@[q],
                vdiv@,
                point,
                probe,
                #[trigger] pts[q],
                keep[q],
            ) by {
                if q < r {
                    assert(pts[q] == before_pts[q] && keep[q] == before_keep[q]);
                }
            }
        }
        r = r + 1;
    }
    proof {
        assert(call_ensures(*bounds, (polyline,), asked));
        assert(call_ensures(*division, (surface, asked), (udiv, vdiv)));
        assert(inserted_all(triangulation, insert, grid_kept(pts, keep, udiv@.len() as int), placed@));
    }
    placed
}

/// Verdicts on later samples of a row change nothing of what was kept before.
pub proof fn lemma_row_kept_extends<P>(
    pts: Seq<P>,
    keep: Seq<bool>,
    more_pts: Seq<P>,
    more_keep: Seq<bool>,
    k: int,
)
    requires
        0 <= k <= pts.len() <= more_pts.len(),
        pts.len() == keep.len(),
        more_pts.len() == more_keep.len(),
        forall|i: int| 0 <= i < pts.len() ==> #[trigger] pts[i] == more_pts[i],
        forall|i: int| 0 <= i < keep.len() ==> #[trigger] keep[i] == more_keep[i],
    ensures
        row_kept(more_pts, more_keep, k) == row_kept(pts, keep, k),
    decreases k,
{
    if k > 0 {
        lemma_row_kept_extends(pts, keep, more_pts, more_keep, k - 1);
    }
}

/// Later rows of samples change nothing of what was kept of the rows before.
pub proof fn lemma_grid_kept_extends<P>(
    pts: Seq<Seq<P>>,
    keep: Seq<Seq<bool>>,
    more_pts: Seq<Seq<P>>,
    more_keep: Seq<Seq<bool>>,
    r: int,
)
    requires
        0 <= r <= pts.len() <= more_pts.len(),
        pts.len() == keep.len(),
        more_pts.len() == more_keep.len(),
        forall|i: int| 0 <= i < pts.len() ==> #[trigger] pts[i] == more_pts[i],
        forall|i: int| 0 <= i < keep.len() ==> #[trigger] keep[i] == more_keep[i],
    ensures
        grid_kept(more_pts, more_keep, r) == grid_kept(pts, keep, r),
    decreases r,
{
    if r > 0 {
        lemma_grid_kept_extends(pts, keep, more_pts, more_keep, r - 1);
    }
}

} // verus!
