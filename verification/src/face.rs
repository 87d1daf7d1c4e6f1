//! Tessellation of one face: all its wires go into one boundary in the
//! parameter plane, which trims the surface; a face one of whose points cannot
//! be projected gets no mesh.
use crate::inclusion::RayProbe;
use crate::mesh::{PolygonMesh, StandardAttributes, StandardVertex};
use crate::polyline::{
    lemma_added_single_valued, search_single_valued, Polyline,
};
use crate::polyline_curve::{face_view, wire_view, PolylineCurve};
use crate::seam::{seam_single_valued, Axis, PeriodShift, SeamOrder};
use crate::trimming::{trimmer_ready, trimming, trimming_tessellation, Trimmer};
use vstd::prelude::*;

verus! {

/// `res` is an outcome of tessellating a face. Its wires were added one after
/// another to a boundary that began empty, each to what the one before left,
/// until one failed or all were in; `stages` holds the boundary before the first
/// wire and after each. If a wire failed there is no mesh. If all were added the
/// mesh is one that `meshed` relates to the surface and the whole boundary.
pub open spec fn face_meshed_by<S, Q, P: Copy, T, M, SP, OR, AP>(
    surface: &S,
    wires: Seq<Seq<Seq<Q>>>,
    periods: (Option<T>, Option<T>),
    sp: &SP,
    order: &OR,
    apply: &AP,
    meshed: spec_fn(S, Polyline<P>, M) -> bool,
    res: Option<M>,
    stages: Seq<Polyline<P>>,
) -> bool where
    SP: Fn(&S, Q, Option<P>) -> Option<P>,
    OR: Fn(Axis, P, T, P) -> SeamOrder,
    AP: Fn(Axis, P, T, PeriodShift) -> P,
 {
    &&& 1 <= stages.len() <= wires.len() + 1
    &&& stages[0].positions@.len() == 0
    &&& stages[0].indices@.len() == 0
    &&& forall|w: int|
        0 <= w < stages.len() - 1 ==> (#[trigger] stages[w]).added(
            &stages[w + 1],
            w + 2 < stages.len() || res.is_some(),
            surface,
            wires[w],
            periods,
            sp,
            order,
            apply,
        )
    &&& match res {
        Some(m) => stages.len() == wires.len() + 1 && meshed(*surface, stages.last(), m),
        None => stages.len() >= 2,
    }
}

/// `res` is an outcome of tessellating a face with the given wires, where
/// `meshed` relates a surface and a boundary to the meshes of the surface
/// trimmed by the boundary.
pub open spec fn face_meshed<S, Q, P: Copy, T, M, SP, OR, AP>(
    surface: &S,
    wires: Seq<Seq<Seq<Q>>>,
    periods: (Option<T>, Option<T>),
    sp: &SP,
    order: &OR,
    apply: &AP,
    meshed: spec_fn(S, Polyline<P>, M) -> bool,
    res: Option<M>,
) -> bool where
    SP: Fn(&S, Q, Option<P>) -> Option<P>,
    OR: Fn(Axis, P, T, P) -> SeamOrder,
    AP: Fn(Axis, P, T, PeriodShift) -> P,
 {
    exists|stages: Seq<Polyline<P>>| #[trigger]
        face_meshed_by(surface, wires, periods, sp, order, apply, meshed, res, stages)
}

/// Where the caller's functions give one result for one argument, two records
/// of tessellating a face agree stage by stage: the boundaries have the same
/// points and segments, and each wire succeeded in both or failed in both.
pub proof fn lemma_stages_agree<S, Q, P: Copy, T, M, SP, OR, AP>(
    surface: &S,
    wires: Seq<Seq<Seq<Q>>>,
    periods: (Option<T>, Option<T>),
    sp: &SP,
    order: &OR,
    apply: &AP,
    meshed: spec_fn(S, Polyline<P>, M) -> bool,
    res1: Option<M>,
    stages1: Seq<Polyline<P>>,
    res2: Option<M>,
    stages2: Seq<Polyline<P>>,
    w: int,
) where
    SP: Fn(&S, Q, Option<P>) -> Option<P>,
    OR: Fn(Axis, P, T, P) -> SeamOrder,
    AP: Fn(Axis, P, T, PeriodShift) -> P,

    requires
        search_single_valued(sp),
        seam_single_valued(order, apply),
        face_meshed_by(surface, wires, periods, sp, order, apply, meshed, res1, stages1),
        face_meshed_by(surface, wires, periods, sp, order, apply, meshed, res2, stages2),
        0 <= w < stages1.len(),
        w < stages2.len(),
    ensures
        stages1[w].positions@ == stages2[w].positions@,
        stages1[w].indices@ == stages2[w].indices@,
        w >= 1 ==> (w + 1 < stages1.len() || res1.is_some()) == (w + 1 < stages2.len()
            || res2.is_some()),
    decreases w,
{
    if w == 0 {
        assert(stages1[0].positions@ =~= stages2[0].positions@);
        assert(stages1[0].indices@ =~= stages2[0].indices@);
    } else {
        lemma_stages_agree(
            surface,
            wires,
            periods,
            sp,
            order,
            apply,
            meshed,
            res1,
            stages1,
            res2,
            stages2,
            w - 1,
        );
        assert(stages1[w - 1].added(
            &stages1[w - 1 + 1],
            w - 1 + 2 < stages1.len() || res1.is_some(),
            surface,
            wires[w - 1],
            periods,
            sp,
            order,
            apply,
        ));
        assert(stages2[w - 1].added(
            &stages2[w - 1 + 1],
            w - 1 + 2 < stages2.len() || res2.is_some(),
            surface,
            wires[w - 1],
            periods,
            sp,
            order,
            apply,
        ));
        lemma_added_single_valued(
            surface,
            wires[w - 1],
            periods,
            sp,
            order,
            apply,
            &stages1[w - 1],
            &stages1[w],
            w + 1 < stages1.len() || res1.is_some(),
            &stages2[w - 1],
            &stages2[w],
            w + 1 < stages2.len() || res2.is_some(),
        );
    }
}

/// Where the caller's functions give one result for one argument, tessellating
/// a face has one outcome up to the mesh: two outcomes are both a mesh or both
/// none, and where they are meshes they are meshes of the surface trimmed by
/// boundaries of the same points and segments.
pub proof fn lemma_face_meshed_single_valued<S, Q, P: Copy, T, M, SP, OR, AP>(
    surface: &S,
    wires: Seq<Seq<Seq<Q>>>,
    periods: (Option<T>, Option<T>),
    sp: &SP,
    order: &OR,
    apply: &AP,
    meshed: spec_fn(S, Polyline<P>, M) -> bool,
    res1: Option<M>,
    stages1: Seq<Polyline<P>>,
    res2: Option<M>,
    stages2: Seq<Polyline<P>>,
) where
    SP: Fn(&S, Q, Option<P>) -> Option<P>,
    OR: Fn(Axis, P, T, P) -> SeamOrder,
    AP: Fn(Axis, P, T, PeriodShift) -> P,

    requires
        search_single_valued(sp),
        seam_single_valued(order, apply),
        face_meshed_by(surface, wires, periods, sp, order, apply, meshed, res1, stages1),
        face_meshed_by(surface, wires, periods, sp, order, apply, meshed, res2, stages2),
    ensures
        res1.is_some() == res2.is_some(),
        stages1.len() == stages2.len(),
        stages1.last().positions@ == stages2.last().positions@,
        stages1.last().indices@ == stages2.last().indices@,
{
    let l1 = stages1.len() as int;
    let l2 = stages2.len() as int;
    if l1 < l2 {
        assert(res1.is_none());
        lemma_stages_agree(
            surface,
            wires,
            periods,
            sp,
            order,
            apply,
            meshed,
            res1,
            stages1,
            res2,
            stages2,
            l1 - 1,
        );
        assert(false);
    }
    if l2 < l1 {
        assert(res2.is_none());
        lemma_stages_agree(
            surface,
            wires,
            periods,
            sp,
            order,
            apply,
            meshed,
            res1,
            stages1,
            res2,
            stages2,
            l2 - 1,
        );
        assert(false);
    }
    lemma_stages_agree(
        surface,
        wires,
        periods,
        sp,
        order,
        apply,
        meshed,
        res1,
        stages1,
        res2,
        stages2,
        l1 - 1,
    );
}

/// Tessellates one face: projects its wires, outer boundary and holes, into the
/// parameter plane of its surface, and tessellates the surface trimmed by the
/// assembled boundary. A face one of whose points cannot be projected gets no mesh.
pub fn tessellate_face<
    S,
    Q: Copy,
    P: Copy,
    T: Copy,
    X,
    N,
    TR,
    HD: Copy,
    R,
    SP,
    OR,
    AP,
    FR,
    I,
    L,
    A,
    SN,
    B,
    D,
    MK,
    PB,
    E,
    NM,
    C,
    O,
>(
    surface: &S,
    wires: &Vec<Vec<PolylineCurve<Q>>>,
    periods: (Option<T>, Option<T>),
    sp: &SP,
    order: &OR,
    apply: &AP,
    k: &Trimmer<FR, I, L, A, SN, B, D, MK, PB, E, NM, C, O>,
) -> (res: Option<PolygonMesh<X, P, N>>) where
    SP: Fn(&S, Q, Option<P>) -> Option<P>,
    OR: Fn(Axis, P, T, P) -> SeamOrder,
    AP: Fn(Axis, P, T, PeriodShift) -> P,
    FR: Fn() -> TR,
    I: Fn(&TR, &P) -> Option<HD>,
    L: Fn(&TR, HD, HD) -> bool,
    A: Fn(&TR, HD, HD) -> bool,
    SN: Fn(&TR) -> (Vec<(usize, P)>, Vec<[usize; 3]>),
    B: Fn(&Polyline<P>) -> R,
    D: Fn(&S, R) -> (Vec<T>, Vec<T>),
    MK: Fn(T, T) -> P,
    PB: Fn(&P, &P, &P) -> RayProbe,
    E: Fn(&S, &P) -> X,
    NM: Fn(&S, &P) -> N,
    C: Fn(&P, &P, &P) -> P,
    O: Fn(&StandardAttributes<X, P, N>, &[StandardVertex; 3]) -> bool,

    requires
        forall|s: &S, q: Q, h: Option<P>| call_requires(*sp, (s, q, h)),
        forall|a: Axis, h: P, p: T, q: P| call_requires(*order, (a, h, p, q)),
        forall|a: Axis, h: P, p: T, q: P, o: SeamOrder|
            call_ensures(*order, (a, h, p, q), o) ==> !o.cyclic(),
        forall|a: Axis, h: P, p: T, s: PeriodShift| call_requires(*apply, (a, h, p, s)),
        trimmer_ready(k),
    ensures
        face_meshed(surface, face_view(wires@), periods, sp, order, apply, trimming(k), res),
        res matches Some(mesh) ==> mesh.wf(),
{
    let n = wires.len();
    let ghost fv = face_view(wires@);
    let mut polyline: Polyline<P> = Polyline::new();
    let ghost mut stages: Seq<Polyline<P>> = seq![polyline];
    let mut w: usize = 0;
    while w < n
        invariant
            n == wires@.len(),
            fv == face_view(wires@),
            w <= n,
            forall|s: &S, q: Q, h: Option<P>| call_requires(*sp, (s, q, h)),
            forall|a: Axis, h: P, p: T, q: P| call_requires(*order, (a, h, p, q)),
            forall|a: Axis, h: P, p: T, q: P, o: SeamOrder|
                call_ensures(*order, (a, h, p, q), o) ==> !o.cyclic(),
            forall|a: Axis, h: P, p: T, s: PeriodShift| call_requires(*apply, (a, h, p, s)),
            polyline.wf(),
            stages.len() == w + 1,
            stages.last() == polyline,
            stages[0].positions@.len() == 0,
            stages[0].indices@.len() == 0,
            forall|v: int|
                0 <= v < w ==> (#[trigger] stages[v]).added(
                    &stages[v + 1],
                    true,
                    surface,
                    fv[v],
                    periods,
                    sp,
                    order,
                    apply,
                ),
        decreases n - w,
    {
        let ghost before = polyline;
        assert(fv[w as int] == wire_view(wires@[w as int]@));
        let ok = polyline.add_wire(surface, &wires[w], periods, sp, order, apply);
        proof {
            stages = stages.push(polyline);
            assert(stages[w as int] == before);
        }
        if !ok {
            proof {
                let none: Option<PolygonMesh<X, P, N>> = None;
                assert forall|v: int| 0 <= v < stages.len() - 1 implies (
                #[trigger] stages[v]).added(
                    &stages[v + 1],
                    v + 2 < stages.len() || none.is_some(),
                    surface,
                    fv[v],
                    periods,
                    sp,
                    order,
                    apply,
                ) by {}
                assert(face_meshed_by(
                    surface,
                    fv,
                    periods,
                    sp,
                    order,
                    apply,
                    trimming(k),
                    none,
                    stages,
                ));
            }
            return None;
        }
        w = w + 1;
    }
    let mesh = trimming_tessellation(surface, &polyline, k);
    proof {
        assert(trimming(k)(*surface, stages.last(), mesh));
        assert(face_meshed_by(
            surface,
            fv,
            periods,
            sp,
            order,
            apply,
            trimming(k),
            Some(mesh),
            stages,
        ));
    }
    Some(mesh)
}

} // verus!
