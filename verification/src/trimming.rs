//! Tessellation of a surface trimmed by a boundary in its parameter plane.
use crate::constraint::{insert_surface, Inserted};
use crate::inclusion::RayProbe;
use crate::mesh::{PolygonMesh, StandardAttributes, StandardVertex};
use crate::polyline::Polyline;
use crate::triangulation::{
    corners_known, handles_distinct, meshed_from, triangulation_into_polymesh,
};
use vstd::prelude::*;

verus! {

/// What tessellating a trimmed surface asks of its caller: a constrained
/// triangulation of the parameter plane to work on, and the measurements of
/// the surface and of the boundary.
pub struct Trimmer<FR, I, L, A, SN, B, D, MK, F, E, NM, C, O> {
    /// Makes a triangulation that holds nothing.
    pub fresh: FR,
    /// Places a point in a triangulation and gives its handle, or none where
    /// the triangulation refuses the point.
    pub insert: I,
    /// Tells whether a constraint between two handles would cross none that exists.
    pub can_add: L,
    /// Adds a constraint between two handles.
    pub add_constraint: A,
    /// Reads the vertices of a triangulation, each with its handle and its
    /// parameters, and its inner triangles, each by the handles of its corners.
    pub snapshot: SN,
    /// The range of parameters that a boundary spans.
    pub bounds: B,
    /// The values of `u` and of `v` at which a surface is to be sampled over a range.
    pub division: D,
    /// The point of the parameter plane at `(u, v)`.
    pub point: MK,
    /// Measures a segment of the boundary from a query point.
    pub probe: F,
    /// The point of a surface at parameters.
    pub subs: E,
    /// The normal of a surface at parameters.
    pub normal: NM,
    /// The centroid of a triangle of the parameter plane.
    pub centroid: C,
    /// Tells whether the normal of a triangle opposes the normals at its corners.
    pub opposes: O,
}

/// Every function of the trimmer can be called on every argument, and
/// whatever `snapshot` gives is a triangulation: no two of its vertices share a
/// handle, and every corner of its triangles is the handle of one of its vertices.
pub open spec fn trimmer_ready<S, P, Q, N, TR, H, R, T, FR, I, L, A, SN, B, D, MK, F, E, NM, C, O>(
    k: &Trimmer<FR, I, L, A, SN, B, D, MK, F, E, NM, C, O>,
) -> bool where
    FR: Fn() -> TR,
    I: Fn(&TR, &P) -> Option<H>,
    L: Fn(&TR, H, H) -> bool,
    A: Fn(&TR, H, H) -> bool,
    SN: Fn(&TR) -> (Vec<(usize, P)>, Vec<[usize; 3]>),
    B: Fn(&Polyline<P>) -> R,
    D: Fn(&S, R) -> (Vec<T>, Vec<T>),
    MK: Fn(T, T) -> P,
    F: Fn(&P, &P, &P) -> RayProbe,
    E: Fn(&S, &P) -> Q,
    NM: Fn(&S, &P) -> N,
    C: Fn(&P, &P, &P) -> P,
    O: Fn(&StandardAttributes<Q, P, N>, &[StandardVertex; 3]) -> bool,
 {
    &&& call_requires(k.fresh, ())
    &&& forall|t: &TR, p: &P| call_requires(k.insert, (t, p))
    &&& forall|t: &TR, a: H, b: H| call_requires(k.can_add, (t, a, b))
    &&& forall|t: &TR, a: H, b: H| call_requires(k.add_constraint, (t, a, b))
    &&& forall|t: &TR| call_requires(k.snapshot, (t,))
    &&& forall|t: &TR, out: (Vec<(usize, P)>, Vec<[usize; 3]>)| #[trigger]
        call_ensures(k.snapshot, (t,), out) ==> handles_distinct(out.0@) && corners_known(
            out.0@,
            out.1@,
        )
    &&& forall|b: &Polyline<P>| call_requires(k.bounds, (b,))
    &&& forall|s: &S, r: R| call_requires(k.division, (s, r))
    &&& forall|a: T, b: T| call_requires(k.point, (a, b))
    &&& forall|c: &P, a: &P, b: &P| call_requires(k.probe, (c, a, b))
    &&& forall|s: &S, p: &P| call_requires(k.subs, (s, p))
    &&& forall|s: &S, p: &P| call_requires(k.normal, (s, p))
    &&& forall|a: &P, b: &P, c: &P| call_requires(k.centroid, (a, b, c))
    &&& forall|a: &StandardAttributes<Q, P, N>, f: &[StandardVertex; 3]|
        call_requires(k.opposes, (a, f))
}

/// `mesh` is a tessellation of `surface` trimmed by `polyline`: into a
/// triangulation that `fresh` made, the boundary was inserted, then sampling
/// points of the interior; the triangulation as `snapshot` then gave it was
/// turned into a mesh on the surface; and the winding of that mesh was made to
/// agree with its normals.
pub open spec fn trimmed<S, P: Copy, Q, N, TR, H, R, T, FR, I, L, A, SN, B, D, MK, F, E, NM, C, O>(
    surface: &S,
    polyline: &Polyline<P>,
    k: &Trimmer<FR, I, L, A, SN, B, D, MK, F, E, NM, C, O>,
    mesh: &PolygonMesh<Q, P, N>,
) -> bool where
    FR: Fn() -> TR,
    I: Fn(&TR, &P) -> Option<H>,
    L: Fn(&TR, H, H) -> bool,
    A: Fn(&TR, H, H) -> bool,
    SN: Fn(&TR) -> (Vec<(usize, P)>, Vec<[usize; 3]>),
    B: Fn(&Polyline<P>) -> R,
    D: Fn(&S, R) -> (Vec<T>, Vec<T>),
    MK: Fn(T, T) -> P,
    F: Fn(&P, &P, &P) -> RayProbe,
    E: Fn(&S, &P) -> Q,
    NM: Fn(&S, &P) -> N,
    C: Fn(&P, &P, &P) -> P,
    O: Fn(&StandardAttributes<Q, P, N>, &[StandardVertex; 3]) -> bool,
 {
    exists|
        triangulation: TR,
        boundary: Inserted<H>,
        samples: Seq<(P, Option<H>)>,
        vertices: Vec<(usize, P)>,
        triangles: Vec<[usize; 3]>,
        raw: PolygonMesh<Q, P, N>,
    |
        #![trigger polyline.inserted_to(&triangulation, &k.insert, &k.can_add, &k.add_constraint, &boundary), polyline.surface_inserted(&triangulation, surface, &k.bounds, &k.division, &k.point, &k.probe, &k.insert, samples), call_ensures(k.snapshot, (&triangulation,), (vertices, triangles)), mesh.normalized_from(&raw, &k.opposes)]
        {
            &&& call_ensures(k.fresh, (), triangulation)
            &&& polyline.inserted_to(
                &triangulation,
                &k.insert,
                &k.can_add,
                &k.add_constraint,
                &boundary,
            )
            &&& polyline.surface_inserted(
                &triangulation,
                surface,
                &k.bounds,
                &k.division,
                &k.point,
                &k.probe,
                &k.insert,
                samples,
            )
            &&& call_ensures(k.snapshot, (&triangulation,), (vertices, triangles))
            &&& meshed_from(
                surface,
                vertices@,
                triangles@,
                polyline,
                &k.subs,
                &k.normal,
                &k.centroid,
                &k.probe,
                &raw,
            )
            &&& mesh.normalized_from(&raw, &k.opposes)
        }
}

/// The relation of a surface and a boundary to the meshes that are
/// tessellations of the surface trimmed by the boundary.
pub open spec fn trimming<
    S,
    P: Copy,
    Q,
    N,
    TR,
    H,
    R,
    T,
    FR,
    I,
    L,
    A,
    SN,
    B,
    D,
    MK,
    F,
    E,
    NM,
    C,
    O,
>(k: &Trimmer<FR, I, L, A, SN, B, D, MK, F, E, NM, C, O>) -> spec_fn(
    S,
    Polyline<P>,
    PolygonMesh<Q, P, N>,
) -> bool where
    FR: Fn() -> TR,
    I: Fn(&TR, &P) -> Option<H>,
    L: Fn(&TR, H, H) -> bool,
    A: Fn(&TR, H, H) -> bool,
    SN: Fn(&TR) -> (Vec<(usize, P)>, Vec<[usize; 3]>),
    B: Fn(&Polyline<P>) -> R,
    D: Fn(&S, R) -> (Vec<T>, Vec<T>),
    MK: Fn(T, T) -> P,
    F: Fn(&P, &P, &P) -> RayProbe,
    E: Fn(&S, &P) -> Q,
    NM: Fn(&S, &P) -> N,
    C: Fn(&P, &P, &P) -> P,
    O: Fn(&StandardAttributes<Q, P, N>, &[StandardVertex; 3]) -> bool,
 {
    |s: S, b: Polyline<P>, m: PolygonMesh<Q, P, N>| trimmed(&s, &b, k, &m)
}

/// Tessellates one surface trimmed by a boundary in its parameter plane: by a
/// constrained triangulation of the boundary and of sampling points of the
/// interior, of which the triangles within the boundary are kept and lifted to
/// the surface.
pub fn trimming_tessellation<
    S,
    P: Copy,
    Q,
    N,
    TR,
    H: Copy,
    R,
    T: Copy,
    FR,
    I,
    L,
    A,
    SN,
    B,
    D,
    MK,
    F,
    E,
    NM,
    C,
    O,
>(
    surface: &S,
    polyline: &Polyline<P>,
    k: &Trimmer<FR, I, L, A, SN, B, D, MK, F, E, NM, C, O>,
) -> (mesh: PolygonMesh<Q, P, N>) where
    FR: Fn() -> TR,
    I: Fn(&TR, &P) -> Option<H>,
    L: Fn(&TR, H, H) -> bool,
    A: Fn(&TR, H, H) -> bool,
    SN: Fn(&TR) -> (Vec<(usize, P)>, Vec<[usize; 3]>),
    B: Fn(&Polyline<P>) -> R,
    D: Fn(&S, R) -> (Vec<T>, Vec<T>),
    MK: Fn(T, T) -> P,
    F: Fn(&P, &P, &P) -> RayProbe,
    E: Fn(&S, &P) -> Q,
    NM: Fn(&S, &P) -> N,
    C: Fn(&P, &P, &P) -> P,
    O: Fn(&StandardAttributes<Q, P, N>, &[StandardVertex; 3]) -> bool,

    requires
        polyline.wf(),
        trimmer_ready(k),
    ensures
        mesh.wf(),
        trimmed(surface, polyline, k, &mesh),
{
    let fresh = &k.fresh;
    let snapshot = &k.snapshot;
    let triangulation = fresh();
    let boundary = polyline.insert_to(&triangulation, &k.insert, &k.can_add, &k.add_constraint);
    let samples = insert_surface(
        &triangulation,
        surface,
        polyline,
        &k.bounds,
        &k.division,
        &k.point,
        &k.probe,
        &k.insert,
    );
    let taken = snapshot(&triangulation);
    assert(call_ensures(k.snapshot, (&triangulation,), taken));
    let (vertices, triangles) = taken;
    let mut mesh = triangulation_into_polymesh(
        &vertices,
        &triangles,
        surface,
        polyline,
        &k.subs,
        &k.normal,
        &k.centroid,
        &k.probe,
    );
    let ghost raw = mesh;
    mesh.make_face_compatible_to_normal(&k.opposes);
    proof {
        assert(call_ensures(k.fresh, (), triangulation));
        assert(polyline.inserted_to(
            &triangulation,
            &k.insert,
            &k.can_add,
            &k.add_constraint,
            &boundary,
        ));
        assert(polyline.surface_inserted(
            &triangulation,
            surface,
            &k.bounds,
            &k.division,
            &k.point,
            &k.probe,
            &k.insert,
            samples@,
        ));
        assert(call_ensures(k.snapshot, (&triangulation,), (vertices, triangles)));
        assert(mesh.normalized_from(&raw, &k.opposes));
    }
    mesh
}

} // verus!
