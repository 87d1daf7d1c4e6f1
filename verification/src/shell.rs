//! Shells in which faces refer to edges, and edges to vertices, by their
//! places, and their tessellation.
use crate::face::{face_meshed, tessellate_face};
use crate::inclusion::RayProbe;
use crate::mesh::{PolygonMesh, StandardAttributes, StandardVertex};
use crate::trimming::{trimmer_ready, trimming, Trimmer};
use crate::polyline::Polyline;
use crate::polyline_curve::{face_view, wire_view, PolylineCurve};
use crate::seam::{Axis, PeriodShift, SeamOrder};
use vstd::prelude::*;

verus! {

/// A use of an edge in a boundary: the place of the edge among the shell's
/// edges, and whether the boundary runs along the edge or against it.
#[derive(Clone, Copy, Debug, PartialEq, Eq, Structural)]
pub struct CompressedEdgeIndex {
    pub index: usize,
    pub orientation: bool,
}

/// An edge of a shell: the places of its front and back vertices among the
/// shell's vertices, and its curve.
#[derive(Debug, PartialEq)]
pub struct CompressedEdge<C> {
    pub vertices: (usize, usize),
    pub curve: C,
}

impl<C: Clone> Clone for CompressedEdge<C> {
    fn clone(&self) -> (res: Self)
        ensures
            res.vertices == self.vertices,
    {
        CompressedEdge { vertices: self.vertices, curve: self.curve.clone() }
    }
}

/// A face of a shell: its boundaries, the outer one and the holes, whether the
/// face is oriented as its surface is, and the surface.
#[derive(Clone, Debug, PartialEq)]
pub struct CompressedFace<S> {
    pub boundaries: Vec<Vec<CompressedEdgeIndex>>,
    pub orientation: bool,
    pub surface: S,
}

/// A shell in which faces refer to edges, and edges to vertices, by their places.
#[derive(Clone, Debug, PartialEq)]
pub struct CompressedShell<V, C, S> {
    pub vertices: Vec<V>,
    pub edges: Vec<CompressedEdge<C>>,
    pub faces: Vec<CompressedFace<S>>,
}

impl<V, C, S> CompressedShell<V, C, S> {
    /// Every edge ends at vertices of the shell, and every edge use of every
    /// boundary refers to an edge of the shell.
    pub open spec fn wf(&self) -> bool {
        &&& forall|i: int|
            0 <= i < self.edges@.len() ==> (#[trigger] self.edges@[i]).vertices.0
                < self.vertices@.len() && self.edges@[i].vertices.1 < self.vertices@.len()
        &&& forall|f: int, w: int, k: int|
            0 <= f < self.faces@.len() && 0 <= w < self.faces@[f].boundaries@.len() && 0 <= k
                < self.faces@[f].boundaries@[w]@.len() ==> (
            #[trigger] self.faces@[f].boundaries@[w]@[k]).index < self.edges@.len()
    }
}

/// A polyline as a boundary runs through it: as it is along the edge, reversed
/// against it.
pub open spec fn oriented<Q>(curve: Seq<Q>, orientation: bool) -> Seq<Q> {
    if orientation {
        curve
    } else {
        curve.reverse()
    }
}

/// The polylines of the first `k` edge uses of a boundary, each oriented; a use
/// that refers to no edge brings none.
pub open spec fn boundary_curves<Q>(
    curves: Seq<Seq<Q>>,
    wire: Seq<CompressedEdgeIndex>,
    k: int,
) -> Seq<Seq<Q>>
    decreases k,
{
    if k <= 0 {
        Seq::empty()
    } else if wire[k - 1].index < curves.len() {
        boundary_curves(curves, wire, k - 1).push(
            oriented(curves[wire[k - 1].index as int], wire[k - 1].orientation),
        )
    } else {
        boundary_curves(curves, wire, k - 1)
    }
}

/// The polylines of every boundary of a face.
pub open spec fn face_curves<Q>(curves: Seq<Seq<Q>>, boundaries: Seq<Seq<CompressedEdgeIndex>>) -> Seq<
    Seq<Seq<Q>>,
> {
    Seq::new(
        boundaries.len(),
        |w: int| boundary_curves(curves, boundaries[w], boundaries[w].len() as int),
    )
}

/// The polylines of a shell's tessellated edges.
pub open spec fn edge_curves<Q>(edges: Seq<CompressedEdge<PolylineCurve<Q>>>) -> Seq<Seq<Q>> {
    edges.map_values(|e: CompressedEdge<PolylineCurve<Q>>| e.curve@)
}

/// The boundaries of a face, as sequences of edge uses.
pub open spec fn boundaries_view(boundaries: Seq<Vec<CompressedEdgeIndex>>) -> Seq<
    Seq<CompressedEdgeIndex>,
> {
    boundaries.map_values(|w: Vec<CompressedEdgeIndex>| w@)
}

/// `out` is the edge `edge` tessellated: it joins the same vertices, and its
/// curve is a polyline that `polyline_of` made of the edge's curve.
pub open spec fn edge_tessellated<C, Q, PL: Fn(&C) -> PolylineCurve<Q>>(
    edge: &CompressedEdge<C>,
    polyline_of: &PL,
    out: &CompressedEdge<PolylineCurve<Q>>,
) -> bool {
    out.vertices == edge.vertices && call_ensures(*polyline_of, (&edge.curve,), out.curve)
}

/// `out` is a face tessellated against the polylines `curves` of the shell's
/// edges: it has the given boundaries and orientation, and in place of the
/// surface an outcome of tessellating the surface within those boundaries, with
/// the periods that `periods_of` gave for the surface. `meshed` relates a
/// surface and a boundary to the meshes of the surface trimmed by the boundary.
pub open spec fn face_tessellated<S, Q, P: Copy, T, M, PE, F, G, H>(
    surface: &S,
    boundaries: Seq<Seq<CompressedEdgeIndex>>,
    orientation: bool,
    curves: Seq<Seq<Q>>,
    periods_of: &PE,
    sp: &F,
    order: &G,
    apply: &H,
    meshed: spec_fn(S, Polyline<P>, M) -> bool,
    out: &CompressedFace<Option<M>>,
) -> bool where
    PE: Fn(&S) -> (Option<T>, Option<T>),
    F: Fn(&S, Q, Option<P>) -> Option<P>,
    G: Fn(Axis, P, T, P) -> SeamOrder,
    H: Fn(Axis, P, T, PeriodShift) -> P,
 {
    &&& boundaries_view(out.boundaries@) == boundaries
    &&& out.orientation == orientation
    &&& boundaries_meshed(
        surface,
        boundaries,
        curves,
        periods_of,
        sp,
        order,
        apply,
        meshed,
        out.surface,
    )
}

/// `res` is an outcome of tessellating a surface within boundaries, with the
/// periods that `periods_of` gave for the surface. `meshed` relates a surface
/// and a boundary to the meshes of the surface trimmed by the boundary.
pub open spec fn boundaries_meshed<S, Q, P: Copy, T, M, PE, F, G, H>(
    surface: &S,
    boundaries: Seq<Seq<CompressedEdgeIndex>>,
    curves: Seq<Seq<Q>>,
    periods_of: &PE,
    sp: &F,
    order: &G,
    apply: &H,
    meshed: spec_fn(S, Polyline<P>, M) -> bool,
    res: Option<M>,
) -> bool where
    PE: Fn(&S) -> (Option<T>, Option<T>),
    F: Fn(&S, Q, Option<P>) -> Option<P>,
    G: Fn(Axis, P, T, P) -> SeamOrder,
    H: Fn(Axis, P, T, PeriodShift) -> P,
 {
    exists|periods: (Option<T>, Option<T>)| #[trigger]
        call_ensures(*periods_of, (surface,), periods) && face_meshed(
            surface,
            face_curves(curves, boundaries),
            periods,
            sp,
            order,
            apply,
            meshed,
            res,
        )
}

/// Tessellates the curve of one edge.
pub fn tessellate_edge<C, Q, PL: Fn(&C) -> PolylineCurve<Q>>(
    edge: &CompressedEdge<C>,
    polyline_of: &PL,
) -> (out: CompressedEdge<PolylineCurve<Q>>)
    requires
        forall|c: &C| call_requires(*polyline_of, (c,)),
    ensures
        edge_tessellated(edge, polyline_of, &out),
{
    CompressedEdge { vertices: edge.vertices, curve: polyline_of(&edge.curve) }
}

/// The polylines of one boundary, each oriented as the boundary runs through it.
fn boundary_wire<Q: Copy>(
    edges: &Vec<CompressedEdge<PolylineCurve<Q>>>,
    wire: &Vec<CompressedEdgeIndex>,
) -> (res: Vec<PolylineCurve<Q>>)
    ensures
        wire_view(res@) == boundary_curves(edge_curves(edges@), wire@, wire@.len() as int),
{
    let n = wire.len();
    let ghost curves = edge_curves(edges@);
    let mut res: Vec<PolylineCurve<Q>> = Vec::new();
    let mut k: usize = 0;
    assert(wire_view(res@) =~= boundary_curves(curves, wire@, 0));
    while k < n
        invariant
            n == wire@.len(),
            k <= n,
            curves == edge_curves(edges@),
            wire_view(res@) == boundary_curves(curves, wire@, k as int),
        decreases n - k,
    {
        let edge_use = wire[k];
        if edge_use.index < edges.len() {
            let curve = if edge_use.orientation {
                edges[edge_use.index].curve.clone()
            } else {
                edges[edge_use.index].curve.inverse()
            };
            let ghost before = res@;
            res.push(curve);
            assert(curves[edge_use.index as int] == edges@[edge_use.index as int].curve@);
            assert(wire_view(res@) =~= wire_view(before).push(curve@));
        }
        k = k + 1;
    }
    res
}

/// The polylines of every boundary of a face.
fn face_wires<Q: Copy>(
    edges: &Vec<CompressedEdge<PolylineCurve<Q>>>,
    boundaries: &Vec<Vec<CompressedEdgeIndex>>,
) -> (res: Vec<Vec<PolylineCurve<Q>>>)
    ensures
        face_view(res@) == face_curves(edge_curves(edges@), boundaries_view(boundaries@)),
{
    let n = boundaries.len();
    let mut res: Vec<Vec<PolylineCurve<Q>>> = Vec::new();
    let mut w: usize = 0;
    while w < n
        invariant
            n == boundaries@.len(),
            w <= n,
            res@.len() == w,
            forall|v: int|
                0 <= v < w ==> wire_view(#[trigger] res@[v]@) == boundary_curves(
                    edge_curves(edges@),
                    boundaries@[v]@,
                    boundaries@[v]@.len() as int,
                ),
        decreases n - w,
    {
        let wire = boundary_wire(edges, &boundaries[w]);
        res.push(wire);
        w = w + 1;
    }
    assert(face_view(res@) =~= face_curves(edge_curves(edges@), boundaries_view(boundaries@)));
    res
}

/// A copy of the boundaries of a face.
pub(crate) fn copy_boundaries(boundaries: &Vec<Vec<CompressedEdgeIndex>>) -> (res: Vec<
    Vec<CompressedEdgeIndex>,
>)
    ensures
        boundaries_view(res@) == boundaries_view(boundaries@),
{
    let n = boundaries.len();
    let mut res: Vec<Vec<CompressedEdgeIndex>> = Vec::new();
    let mut w: usize = 0;
    while w < n
        invariant
            n == boundaries@.len(),
            w <= n,
            res@.len() == w,
            forall|v: int| 0 <= v < w ==> (#[trigger] res@[v])@ == boundaries@[v]@,
        decreases n - w,
    {
        let m = boundaries[w].len();
        let mut wire: Vec<CompressedEdgeIndex> = Vec::new();
        let mut k: usize = 0;
        while k < m
            invariant
                w < boundaries@.len(),
                m == boundaries@[w as int]@.len(),
                k <= m,
                wire@ == boundaries@[w as int]@.take(k as int),
            decreases m - k,
        {
            wire.push(boundaries[w][k]);
            assert(boundaries@[w as int]@.take(k as int + 1) =~= boundaries@[w as int]@.take(
                k as int,
            ).push(boundaries@[w as int]@[k as int]));
            k = k + 1;
        }
        assert(boundaries@[w as int]@.take(m as int) =~= boundaries@[w as int]@);
        res.push(wire);
        w = w + 1;
    }
    assert(boundaries_view(res@) =~= boundaries_view(boundaries@));
    res
}

/// Tessellates a surface within boundaries given by edge uses, against the
/// tessellated edges of the shell. An edge use that refers to no edge is passed over.
pub fn tessellate_boundaries<
    S,
    Q: Copy,
    P: Copy,
    T: Copy,
    X,
    N,
    TR,
    HD: Copy,
    R,
    PE,
    F,
    G,
    H,
    FR,
    I,
    L,
    A,
    SN,
    B,
    D,
    MK,
    PB,
    E,
    NM,
    CE,
    O,
>(
    surface: &S,
    boundaries: &Vec<Vec<CompressedEdgeIndex>>,
    edges: &Vec<CompressedEdge<PolylineCurve<Q>>>,
    periods_of: &PE,
    sp: &F,
    order: &G,
    apply: &H,
    k: &Trimmer<FR, I, L, A, SN, B, D, MK, PB, E, NM, CE, O>,
) -> (res: Option<PolygonMesh<X, P, N>>) where
    PE: Fn(&S) -> (Option<T>, Option<T>),
    F: Fn(&S, Q, Option<P>) -> Option<P>,
    G: Fn(Axis, P, T, P) -> SeamOrder,
    H: Fn(Axis, P, T, PeriodShift) -> P,
    FR: Fn() -> TR,
    I: Fn(&TR, &P) -> Option<HD>,
    L: Fn(&TR, HD, HD) -> bool,
    A: Fn(&TR, HD, HD) -> bool,
    SN: Fn(&TR) -> (Vec<(usize, P)>, Vec<[usize; 3]>),
    B: Fn(&Polyline<P>) -> R,
    D: Fn(&S, R) -> (Vec<T>, Vec<T>),
    MK: Fn(T, T) -> P,
    PB: Fn(&P, &P, &P) -> RayProbe,
    E: Fn(&S, &P) -> X,
    NM: Fn(&S, &P) -> N,
    CE: Fn(&P, &P, &P) -> P,
    O: Fn(&StandardAttributes<X, P, N>, &[StandardVertex; 3]) -> bool,

    requires
        forall|s: &S| call_requires(*periods_of, (s,)),
        forall|s: &S, q: Q, h: Option<P>| call_requires(*sp, (s, q, h)),
        forall|a: Axis, h: P, p: T, q: P| call_requires(*order, (a, h, p, q)),
        forall|a: Axis, h: P, p: T, q: P, o: SeamOrder|
            call_ensures(*order, (a, h, p, q), o) ==> !o.cyclic(),
        forall|a: Axis, h: P, p: T, s: PeriodShift| call_requires(*apply, (a, h, p, s)),
        trimmer_ready(k),
    ensures
        boundaries_meshed(
            surface,
            boundaries_view(boundaries@),
            edge_curves(edges@),
            periods_of,
            sp,
            order,
            apply,
            trimming(k),
            res,
        ),
{
    let wires = face_wires(edges, boundaries);
    let periods = periods_of(surface);
    tessellate_face(surface, &wires, periods, sp, order, apply, k)
}

/// Tessellates one face against the tessellated edges of its shell.
pub fn tessellate_compressed_face<
    S,
    Q: Copy,
    P: Copy,
    T: Copy,
    X,
    N,
    TR,
    HD: Copy,
    R,
    PE,
    F,
    G,
    H,
    FR,
    I,
    L,
    A,
    SN,
    B,
    D,
    MK,
    PB,
    E,
    NM,
    CE,
    O,
>(
    face: &CompressedFace<S>,
    edges: &Vec<CompressedEdge<PolylineCurve<Q>>>,
    periods_of: &PE,
    sp: &F,
    order: &G,
    apply: &H,
    k: &Trimmer<FR, I, L, A, SN, B, D, MK, PB, E, NM, CE, O>,
) -> (out: CompressedFace<Option<PolygonMesh<X, P, N>>>) where
    PE: Fn(&S) -> (Option<T>, Option<T>),
    F: Fn(&S, Q, Option<P>) -> Option<P>,
    G: Fn(Axis, P, T, P) -> SeamOrder,
    H: Fn(Axis, P, T, PeriodShift) -> P,
    FR: Fn() -> TR,
    I: Fn(&TR, &P) -> Option<HD>,
    L: Fn(&TR, HD, HD) -> bool,
    A: Fn(&TR, HD, HD) -> bool,
    SN: Fn(&TR) -> (Vec<(usize, P)>, Vec<[usize; 3]>),
    B: Fn(&Polyline<P>) -> R,
    D: Fn(&S, R) -> (Vec<T>, Vec<T>),
    MK: Fn(T, T) -> P,
    PB: Fn(&P, &P, &P) -> RayProbe,
    E: Fn(&S, &P) -> X,
    NM: Fn(&S, &P) -> N,
    CE: Fn(&P, &P, &P) -> P,
    O: Fn(&StandardAttributes<X, P, N>, &[StandardVertex; 3]) -> bool,

    requires
        forall|s: &S| call_requires(*periods_of, (s,)),
        forall|s: &S, q: Q, h: Option<P>| call_requires(*sp, (s, q, h)),
        forall|a: Axis, h: P, p: T, q: P| call_requires(*order, (a, h, p, q)),
        forall|a: Axis, h: P, p: T, q: P, o: SeamOrder|
            call_ensures(*order, (a, h, p, q), o) ==> !o.cyclic(),
        forall|a: Axis, h: P, p: T, s: PeriodShift| call_requires(*apply, (a, h, p, s)),
        trimmer_ready(k),
    ensures
        face_tessellated(
            &face.surface,
            boundaries_view(face.boundaries@),
            face.orientation,
            edge_curves(edges@),
            periods_of,
            sp,
            order,
            apply,
            trimming(k),
            &out,
        ),
{
    let boundaries = copy_boundaries(&face.boundaries);
    let polygon = tessellate_boundaries(
        &face.surface,
        &face.boundaries,
        edges,
        periods_of,
        sp,
        order,
        apply,
        k,
    );
    CompressedFace { boundaries, orientation: face.orientation, surface: polygon }
}

/// Tessellates a shell given by places: every edge once, then every face
/// against the tessellated edges. The result has the same vertices, and the
/// same edges and faces in the same order, with polylines for curves and
/// meshes, where there is one, for surfaces.
pub fn cshell_tessellation<
    V: Copy,
    C,
    S,
    Q: Copy,
    P: Copy,
    T: Copy,
    X,
    N,
    TR,
    HD: Copy,
    R,
    PL,
    PE,
    F,
    G,
    H,
    FR,
    I,
    L,
    A,
    SN,
    B,
    D,
    MK,
    PB,
    E,
    NM,
    CE,
    O,
>(
    shell: &CompressedShell<V, C, S>,
    polyline_of: &PL,
    periods_of: &PE,
    sp: &F,
    order: &G,
    apply: &H,
    k: &Trimmer<FR, I, L, A, SN, B, D, MK, PB, E, NM, CE, O>,
) -> (res: CompressedShell<V, PolylineCurve<Q>, Option<PolygonMesh<X, P, N>>>) where
    PL: Fn(&C) -> PolylineCurve<Q>,
    PE: Fn(&S) -> (Option<T>, Option<T>),
    F: Fn(&S, Q, Option<P>) -> Option<P>,
    G: Fn(Axis, P, T, P) -> SeamOrder,
    H: Fn(Axis, P, T, PeriodShift) -> P,
    FR: Fn() -> TR,
    I: Fn(&TR, &P) -> Option<HD>,
    L: Fn(&TR, HD, HD) -> bool,
    A: Fn(&TR, HD, HD) -> bool,
    SN: Fn(&TR) -> (Vec<(usize, P)>, Vec<[usize; 3]>),
    B: Fn(&Polyline<P>) -> R,
    D: Fn(&S, R) -> (Vec<T>, Vec<T>),
    MK: Fn(T, T) -> P,
    PB: Fn(&P, &P, &P) -> RayProbe,
    E: Fn(&S, &P) -> X,
    NM: Fn(&S, &P) -> N,
    CE: Fn(&P, &P, &P) -> P,
    O: Fn(&StandardAttributes<X, P, N>, &[StandardVertex; 3]) -> bool,

    requires
        forall|c: &C| call_requires(*polyline_of, (c,)),
        forall|s: &S| call_requires(*periods_of, (s,)),
        forall|s: &S, q: Q, h: Option<P>| call_requires(*sp, (s, q, h)),
        forall|a: Axis, h: P, p: T, q: P| call_requires(*order, (a, h, p, q)),
        forall|a: Axis, h: P, p: T, q: P, o: SeamOrder|
            call_ensures(*order, (a, h, p, q), o) ==> !o.cyclic(),
        forall|a: Axis, h: P, p: T, s: PeriodShift| call_requires(*apply, (a, h, p, s)),
        trimmer_ready(k),
    ensures
        shell.wf() ==> res.wf(),
        res.vertices@ == shell.vertices@,
        res.edges@.len() == shell.edges@.len(),
        forall|i: int|
            0 <= i < shell.edges@.len() ==> edge_tessellated(
                &shell.edges@[i],
                polyline_of,
                #[trigger] &res.edges@[i],
            ),
        res.faces@.len() == shell.faces@.len(),
        forall|f: int|
            0 <= f < shell.faces@.len() ==> face_tessellated(
                &shell.faces@[f].surface,
                boundaries_view(shell.faces@[f].boundaries@),
                shell.faces@[f].orientation,
                edge_curves(res.edges@),
                periods_of,
                sp,
                order,
                apply,
                trimming(k),
                #[trigger] &res.faces@[f],
            ),
{
    let mut vertices: Vec<V> = Vec::new();
    let mut i: usize = 0;
    while i < shell.vertices.len()
        invariant
            i <= shell.vertices@.len(),
            vertices@ == shell.vertices@.take(i as int),
        decreases shell.vertices@.len() - i,
    {
        vertices.push(shell.vertices[i]);
        assert(shell.vertices@.take(i as int + 1) =~= shell.vertices@.take(i as int).push(
            shell.vertices@[i as int],
        ));
        i = i + 1;
    }
    assert(shell.vertices@.take(shell.vertices@.len() as int) =~= shell.vertices@);
    let mut edges: Vec<CompressedEdge<PolylineCurve<Q>>> = Vec::new();
    let mut e: usize = 0;
    while e < shell.edges.len()
        invariant
            e <= shell.edges@.len(),
            edges@.len() == e,
            forall|c: &C| call_requires(*polyline_of, (c,)),
            forall|j: int|
                0 <= j < e ==> edge_tessellated(
                    &shell.edges@[j],
                    polyline_of,
                    #[trigger] &edges@[j],
                ),
        decreases shell.edges@.len() - e,
    {
        let edge = tessellate_edge(&shell.edges[e], polyline_of);
        edges.push(edge);
        e = e + 1;
    }
    let mut faces: Vec<CompressedFace<Option<PolygonMesh<X, P, N>>>> = Vec::new();
    let mut f: usize = 0;
    while f < shell.faces.len()
        invariant
            f <= shell.faces@.len(),
            faces@.len() == f,
            forall|s: &S| call_requires(*periods_of, (s,)),
            forall|s: &S, q: Q, h: Option<P>| call_requires(*sp, (s, q, h)),
            forall|a: Axis, h: P, p: T, q: P| call_requires(*order, (a, h, p, q)),
            forall|a: Axis, h: P, p: T, q: P, o: SeamOrder|
                call_ensures(*order, (a, h, p, q), o) ==> !o.cyclic(),
            forall|a: Axis, h: P, p: T, s: PeriodShift| call_requires(*apply, (a, h, p, s)),
            trimmer_ready(k),
            forall|g: int|
                0 <= g < f ==> face_tessellated(
                    &shell.faces@[g].surface,
                    boundaries_view(shell.faces@[g].boundaries@),
                    shell.faces@[g].orientation,
                    edge_curves(edges@),
                    periods_of,
                    sp,
                    order,
                    apply,
                    trimming(k),
                    #[trigger] &faces@[g],
                ),
        decreases shell.faces@.len() - f,
    {
        let face = tessellate_compressed_face(
            &shell.faces[f],
            &edges,
            periods_of,
            sp,
            order,
            apply,
            k,
        );
        faces.push(face);
        f = f + 1;
    }
    let res = CompressedShell { vertices, edges, faces };
    proof {
        if shell.wf() {
            assert forall|i: int| 0 <= i < res.edges@.len() implies (
            #[trigger] res.edges@[i]).vertices.0 < res.vertices@.len()
                && res.edges@[i].vertices.1 < res.vertices@.len() by {
                assert(edge_tessellated(&shell.edges@[i], polyline_of, &res.edges@[i]));
            }
            assert forall|f: int, w: int, k: int|
                0 <= f < res.faces@.len() && 0 <= w < res.faces@[f].boundaries@.len() && 0 <= k
                    < res.faces@[f].boundaries@[w]@.len() implies (
            #[trigger] res.faces@[f].boundaries@[w]@[k]).index < res.edges@.len() by {
                let a = boundaries_view(res.faces@[f].boundaries@);
                let b = boundaries_view(shell.faces@[f].boundaries@);
                assert(a == b);
                assert(a.len() == res.faces@[f].boundaries@.len());
                assert(a[w] == res.faces@[f].boundaries@[w]@);
                assert(b[w] == shell.faces@[f].boundaries@[w]@);
                assert(shell.faces@[f].boundaries@[w]@[k].index < shell.edges@.len());
            }
        }
    }
    res
}

} // verus!
