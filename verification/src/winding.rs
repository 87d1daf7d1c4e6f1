//! The winding of a triangle in exact arithmetic: why a triangle whose normal
//! opposes the normals at its corners agrees with them once it is run through
//! in the opposite direction, and why a mesh whose winding was made to agree
//! with its normals does agree.
use crate::mesh::{turned, PolygonMesh, StandardAttributes, StandardVertex};
use vstd::prelude::*;

verus! {

/// The difference of two points of space.
pub open spec fn minus(a: (int, int, int), b: (int, int, int)) -> (int, int, int) {
    (a.0 - b.0, a.1 - b.1, a.2 - b.2)
}

/// The cross product of two vectors of space.
pub open spec fn cross3(a: (int, int, int), b: (int, int, int)) -> (int, int, int) {
    (a.1 * b.2 - a.2 * b.1, a.2 * b.0 - a.0 * b.2, a.0 * b.1 - a.1 * b.0)
}

/// The inner product of two vectors of space.
pub open spec fn dot3(a: (int, int, int), b: (int, int, int)) -> int {
    a.0 * b.0 + a.1 * b.1 + a.2 * b.2
}

/// The normal of the triangle through three points, by the order of the points.
pub open spec fn face_normal(p: (int, int, int), q: (int, int, int), r: (int, int, int)) -> (
    int,
    int,
    int,
) {
    cross3(minus(q, p), minus(r, p))
}

/// One component of the normal changes its sign with the order of the points.
proof fn lemma_component(py: int, pz: int, qy: int, qz: int, ry: int, rz: int)
    ensures
        (qy - ry) * (pz - rz) - (qz - rz) * (py - ry) == -((qy - py) * (rz - pz) - (qz - pz) * (ry
            - py)),
{
    assert((qy - ry) * (pz - rz) - (qz - rz) * (py - ry) == -((qy - py) * (rz - pz) - (qz - pz)
        * (ry - py))) by (nonlinear_arith);
}

/// Run through in the opposite direction, a triangle has the opposite normal.
pub proof fn lemma_reversed_normal(p: (int, int, int), q: (int, int, int), r: (int, int, int))
    ensures
        face_normal(r, q, p) == (
            -face_normal(p, q, r).0,
            -face_normal(p, q, r).1,
            -face_normal(p, q, r).2,
        ),
{
    lemma_component(p.1, p.2, q.1, q.2, r.1, r.2);
    lemma_component(p.2, p.0, q.2, q.0, r.2, r.0);
    lemma_component(p.0, p.1, q.0, q.1, r.0, r.1);
}

/// A triangle whose normal opposes a vector agrees with it once it is run
/// through in the opposite direction, and one that agrees does not oppose.
pub proof fn lemma_turned_triangle_agrees(
    n: (int, int, int),
    p: (int, int, int),
    q: (int, int, int),
    r: (int, int, int),
)
    ensures
        dot3(n, face_normal(r, q, p)) == -dot3(n, face_normal(p, q, r)),
        dot3(n, face_normal(p, q, r)) < 0 ==> dot3(n, face_normal(r, q, p)) > 0,
{
    lemma_reversed_normal(p, q, r);
    let v = face_normal(p, q, r);
    assert(n.0 * (-v.0) + n.1 * (-v.1) + n.2 * (-v.2) == -(n.0 * v.0 + n.1 * v.1 + n.2 * v.2))
        by (nonlinear_arith);
}

/// The sum of two vectors of space.
pub open spec fn plus3(a: (int, int, int), b: (int, int, int)) -> (int, int, int) {
    (a.0 + b.0, a.1 + b.1, a.2 + b.2)
}

/// The normal at a corner, or the zero vector where the corner has none.
pub open spec fn corner_normal<Q, P, N>(
    attributes: &StandardAttributes<Q, P, N>,
    v: StandardVertex,
    nor: spec_fn(N) -> (int, int, int),
) -> (int, int, int) {
    match v.nor {
        Some(i) => nor(attributes.normals@[i as int]),
        None => (0, 0, 0),
    }
}

/// How far a triangle agrees with the normals at its corners: the inner product
/// of the sum of those normals with the normal of the triangle. `pos` and `nor`
/// give the coordinates of a position and of a normal.
pub open spec fn agreement<Q, P, N>(
    attributes: &StandardAttributes<Q, P, N>,
    face: Seq<StandardVertex>,
    pos: spec_fn(Q) -> (int, int, int),
    nor: spec_fn(N) -> (int, int, int),
) -> int {
    dot3(
        plus3(
            plus3(corner_normal(attributes, face[0], nor), corner_normal(attributes, face[1], nor)),
            corner_normal(attributes, face[2], nor),
        ),
        face_normal(
            pos(attributes.positions@[face[0].pos as int]),
            pos(attributes.positions@[face[1].pos as int]),
            pos(attributes.positions@[face[2].pos as int]),
        ),
    )
}

/// A mesh whose winding was made to agree with its normals does agree: where
/// `opposes` tells exactly whether the agreement of a triangle is negative, no
/// triangle of the mesh has a negative agreement afterwards.
pub proof fn lemma_normalized_mesh_agrees<Q, P, N, O>(
    before: &PolygonMesh<Q, P, N>,
    after: &PolygonMesh<Q, P, N>,
    opposes: &O,
    pos: spec_fn(Q) -> (int, int, int),
    nor: spec_fn(N) -> (int, int, int),
) where O: Fn(&StandardAttributes<Q, P, N>, &[StandardVertex; 3]) -> bool
    requires
        after.normalized_from(before, opposes),
        forall|a: &StandardAttributes<Q, P, N>, f: &[StandardVertex; 3], b: bool| #[trigger]
            call_ensures(*opposes, (a, f), b) ==> b == (agreement(a, f@, pos, nor) < 0),
    ensures
        forall|f: int|
            0 <= f < after.faces_view().tri_view().len() ==> agreement(
                &after.attributes_view(),
                (#[trigger] after.faces_view().tri_view()[f])@,
                pos,
                nor,
            ) >= 0,
{
    let attrs = before.attributes_view();
    assert forall|f: int| 0 <= f < after.faces_view().tri_view().len() implies agreement(
        &after.attributes_view(),
        (#[trigger] after.faces_view().tri_view()[f])@,
        pos,
        nor,
    ) >= 0 by {
        let was = before.faces_view().tri_view()[f];
        let now = after.faces_view().tri_view()[f];
        assert(turned(&attrs, opposes, was, now));
        let flip = choose|flip: bool| #[trigger]
            call_ensures(*opposes, (&attrs, &was), flip) && now@ == if flip {
                was@.reverse()
            } else {
                was@
            };
        assert(flip == (agreement(&attrs, was@, pos, nor) < 0));
        if flip {
            assert(now@[0] == was@[2] && now@[1] == was@[1] && now@[2] == was@[0]);
            let n0 = corner_normal(&attrs, was@[0], nor);
            let n1 = corner_normal(&attrs, was@[1], nor);
            let n2 = corner_normal(&attrs, was@[2], nor);
            assert(plus3(plus3(n2, n1), n0) == plus3(plus3(n0, n1), n2));
            lemma_turned_triangle_agrees(
                plus3(plus3(n0, n1), n2),
                pos(attrs.positions@[was@[0].pos as int]),
                pos(attrs.positions@[was@[1].pos as int]),
                pos(attrs.positions@[was@[2].pos as int]),
            );
        }
    }
}

} // verus!
