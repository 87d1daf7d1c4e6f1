//! From a triangulation of the parameter plane to a mesh on the surface.
use crate::inclusion::RayProbe;
use crate::mesh::{
    faces_hold, index_map_get, index_map_insert, index_map_new, Faces, PolygonMesh,
    StandardAttributes, StandardVertex,
};
use crate::polyline::Polyline;
use vstd::prelude::*;

verus! {

/// No two vertices of a triangulation share a handle.
pub open spec fn handles_distinct<P>(vertices: Seq<(usize, P)>) -> bool {
    forall|i: int, j: int|
        0 <= i < j < vertices.len() ==> (#[trigger] vertices[i]).0 != (#[trigger] vertices[j]).0
}

/// `h` is the handle of a vertex.
pub open spec fn is_handle<P>(vertices: Seq<(usize, P)>, h: usize) -> bool {
    exists|i: int| 0 <= i < vertices.len() && (#[trigger] vertices[i]).0 == h
}

/// The place of the vertex with the handle `h`.
pub open spec fn index_of<P>(vertices: Seq<(usize, P)>, h: usize) -> int {
    choose|i: int| 0 <= i < vertices.len() && (#[trigger] vertices[i]).0 == h
}

/// Every corner of every triangle is the handle of a vertex.
pub open spec fn corners_known<P>(vertices: Seq<(usize, P)>, triangles: Seq<[usize; 3]>) -> bool {
    forall|t: int, k: int|
        0 <= t < triangles.len() && 0 <= k < 3 ==> is_handle(
            vertices,
            #[trigger] triangles[t][k],
        )
}

/// The face of a triangle: at each corner, the place of the corner's vertex, for
/// position, texture coordinate and normal alike.
pub open spec fn face_of<P>(vertices: Seq<(usize, P)>, tri: [usize; 3]) -> Seq<StandardVertex> {
    Seq::new(3, |k: int| StandardVertex::uniform(index_of(vertices, tri[k]) as usize))
}

/// The faces of those of the first `t` triangles that `keep` marks, in order.
pub open spec fn kept_faces<P>(
    vertices: Seq<(usize, P)>,
    triangles: Seq<[usize; 3]>,
    keep: Seq<bool>,
    t: int,
) -> Seq<Seq<StandardVertex>>
    decreases t,
{
    if t <= 0 {
        Seq::empty()
    } else if keep[t - 1] {
        kept_faces(vertices, triangles, keep, t - 1).push(face_of(vertices, triangles[t - 1]))
    } else {
        kept_faces(vertices, triangles, keep, t - 1)
    }
}

/// `keep` is a verdict of the boundary on a centroid of the triangle.
pub open spec fn retained<P: Copy, C: Fn(&P, &P, &P) -> P, F: Fn(&P, &P, &P) -> RayProbe>(
    vertices: Seq<(usize, P)>,
    tri: [usize; 3],
    polyline: &Polyline<P>,
    centroid: &C,
    probe: &F,
    keep: bool,
) -> bool {
    exists|c: P| #[trigger]
        call_ensures(
            *centroid,
            (
                &vertices[index_of(vertices, tri[0])].1,
                &vertices[index_of(vertices, tri[1])].1,
                &vertices[index_of(vertices, tri[2])].1,
            ),
            c,
        ) && polyline.included(&c, probe, keep)
}

/// With distinct handles, a vertex stands at the place of its handle.
pub proof fn lemma_index_of<P>(vertices: Seq<(usize, P)>, i: int)
    requires
        handles_distinct(vertices),
        0 <= i < vertices.len(),
    ensures
        index_of(vertices, vertices[i].0) == i,
{
    let j = index_of(vertices, vertices[i].0);
    assert(0 <= j < vertices.len() && vertices[j].0 == vertices[i].0);
    if j < i {
        assert(vertices[j].0 != vertices[i].0);
    } else if i < j {
        assert(vertices[i].0 != vertices[j].0);
    }
}

/// Tells whether vertices and triangles make a triangulation: no two vertices
/// share a handle, and every corner of every triangle is the handle of a vertex.
pub fn is_triangulation<P>(vertices: &Vec<(usize, P)>, triangles: &Vec<[usize; 3]>) -> (res: bool)
    ensures
        res == (handles_distinct(vertices@) && corners_known(vertices@, triangles@)),
{
    let mut places = index_map_new();
    let mut i: usize = 0;
    while i < vertices.len()
        invariant
            i <= vertices@.len(),
            forall|a: int, b: int|
                0 <= a < b < i ==> (#[trigger] vertices@[a]).0 != (#[trigger] vertices@[b]).0,
            forall|h: usize|
                places@.contains_key(h) <==> exists|j: int|
                    0 <= j < i && (#[trigger] vertices@[j]).0 == h,
        decreases vertices@.len() - i,
    {
        let handle = vertices[i].0;
        let ghost before = places@;
        if index_map_get(&places, handle).is_some() {
            proof {
                let j = choose|j: int| 0 <= j < i && (#[trigger] vertices@[j]).0 == handle;
                assert(vertices@[j].0 == vertices@[i as int].0);
            }
            return false;
        }
        index_map_insert(&mut places, handle, i);
        proof {
            assert forall|h: usize| places@.contains_key(h) <==> exists|j: int|
                0 <= j < i + 1 && (#[trigger] vertices@[j]).0 == h by {
                if h == handle {
                    assert(vertices@[i as int].0 == h);
                } else if before.contains_key(h) {
                    let j = choose|j: int| 0 <= j < i && (#[trigger] vertices@[j]).0 == h;
                    assert(0 <= j < i + 1 && vertices@[j].0 == h);
                } else {
                    if exists|j: int| 0 <= j < i + 1 && (#[trigger] vertices@[j]).0 == h {
                        let j = choose|j: int| 0 <= j < i + 1 && (#[trigger] vertices@[j]).0 == h;
                        assert(j < i);
                    }
                }
            }
        }
        i = i + 1;
    }
    let mut t: usize = 0;
    while t < triangles.len()
        invariant
            t <= triangles@.len(),
            handles_distinct(vertices@),
            forall|h: usize| places@.contains_key(h) <==> is_handle(vertices@, h),
            forall|s: int, k: int|
                0 <= s < t && 0 <= k < 3 ==> is_handle(vertices@, #[trigger] triangles@[s][k]),
        decreases triangles@.len() - t,
    {
        let tri = triangles[t];
        let known = index_map_get(&places, tri[0]).is_some() && index_map_get(
            &places,
            tri[1],
        ).is_some() && index_map_get(&places, tri[2]).is_some();
        if !known {
            proof {
                assert(!is_handle(vertices@, triangles@[t as int][0]) || !is_handle(
                    vertices@,
                    triangles@[t as int][1],
                ) || !is_handle(vertices@, triangles@[t as int][2]));
            }
            return false;
        }
        t = t + 1;
    }
    true
}

/// Evaluates the surface at every vertex of the triangulation, and records where
/// each handle stands.
fn lift_vertices<S, P: Copy, Q, N, E: Fn(&S, &P) -> Q, M: Fn(&S, &P) -> N>(
    surface: &S,
    vertices: &Vec<(usize, P)>,
    subs: &E,
    normal: &M,
) -> (res: (StandardAttributes<Q, P, N>, rustc_hash::FxHashMap<usize, usize>))
    requires
        handles_distinct(vertices@),
        forall|s: &S, p: &P| call_requires(*subs, (s, p)),
        forall|s: &S, p: &P| call_requires(*normal, (s, p)),
    ensures
        lifted(surface, vertices@, subs, normal, &res.0),
        forall|h: usize| res.1@.contains_key(h) <==> is_handle(vertices@, h),
        forall|i: int| 0 <= i < vertices@.len() ==> res.1@[(#[trigger] vertices@[i]).0] == i,
{
    let n = vertices.len();
    let mut positions: Vec<Q> = Vec::new();
    let mut uv_coords: Vec<P> = Vec::new();
    let mut normals: Vec<N> = Vec::new();
    let mut places = index_map_new();
    let mut i: usize = 0;
    while i < n
        invariant
            n == vertices@.len(),
            i <= n,
            handles_distinct(vertices@),
            forall|s: &S, p: &P| call_requires(*subs, (s, p)),
            forall|s: &S, p: &P| call_requires(*normal, (s, p)),
            positions@.len() == i,
            uv_coords@.len() == i,
            normals@.len() == i,
            forall|j: int|
                0 <= j < i ==> call_ensures(
                    *subs,
                    (surface, &vertices@[j].1),
                    #[trigger] positions@[j],
                ),
            forall|j: int| 0 <= j < i ==> #[trigger] uv_coords@[j] == vertices@[j].1,
            forall|j: int|
                0 <= j < i ==> call_ensures(
                    *normal,
                    (surface, &vertices@[j].1),
                    #[trigger] normals@[j],
                ),
            forall|h: usize|
                places@.contains_key(h) <==> exists|j: int|
                    0 <= j < i && (#[trigger] vertices@[j]).0 == h,
            forall|j: int| 0 <= j < i ==> places@[(#[trigger] vertices@[j]).0] == j,
        decreases n - i,
    {
        let (handle, uv) = vertices[i];
        positions.push(subs(surface, &uv));
        uv_coords.push(uv);
        normals.push(normal(surface, &uv));
        let ghost before = places@;
        index_map_insert(&mut places, handle, i);
        proof {
            assert forall|h: usize| places@.contains_key(h) <==> exists|j: int|
                0 <= j < i + 1 && (#[trigger] vertices@[j]).0 == h by {
                if h == handle {
                    assert(vertices@[i as int].0 == h);
                } else if before.contains_key(h) {
                    let j = choose|j: int| 0 <= j < i && (#[trigger] vertices@[j]).0 == h;
                    assert(0 <= j < i + 1 && vertices@[j].0 == h);
                } else {
                    if exists|j: int| 0 <= j < i + 1 && (#[trigger] vertices@[j]).0 == h {
                        let j = choose|j: int| 0 <= j < i + 1 && (#[trigger] vertices@[j]).0 == h;
                        assert(j < i);
                    }
                }
            }
            assert forall|j: int| 0 <= j < i + 1 implies places@[(#[trigger] vertices@[j]).0]
                == j by {
                if j < i {
                    assert(vertices@[j].0 != vertices@[i as int].0);
                }
            }
        }
        i = i + 1;
    }
    (StandardAttributes { positions, uv_coords, normals }, places)
}

/// The attributes are those of the triangulation's vertices, in order: at each
/// place the surface's point, the vertex's parameters, and the surface's normal.
pub open spec fn lifted<S, P, Q, N, E: Fn(&S, &P) -> Q, M: Fn(&S, &P) -> N>(
    surface: &S,
    vertices: Seq<(usize, P)>,
    subs: &E,
    normal: &M,
    attributes: &StandardAttributes<Q, P, N>,
) -> bool {
    &&& attributes.positions@.len() == vertices.len()
    &&& attributes.uv_coords@.len() == vertices.len()
    &&& attributes.normals@.len() == vertices.len()
    &&& forall|i: int|
        0 <= i < vertices.len() ==> call_ensures(
            *subs,
            (surface, &vertices[i].1),
            #[trigger] attributes.positions@[i],
        )
    &&& forall|i: int| 0 <= i < vertices.len() ==> #[trigger] attributes.uv_coords@[i] == vertices[i].1
    &&& forall|i: int|
        0 <= i < vertices.len() ==> call_ensures(
            *normal,
            (surface, &vertices[i].1),
            #[trigger] attributes.normals@[i],
        )
}

/// `mesh` is the mesh of a triangulation: its attributes are those of the
/// vertices, it has no faces but triangles, and its triangles are the faces of
/// the triangles that some verdicts `keep` of the boundary on their centroids mark.
pub open spec fn meshed_from<S, P: Copy, Q, N, E, M, C, F>(
    surface: &S,
    vertices: Seq<(usize, P)>,
    triangles: Seq<[usize; 3]>,
    polyline: &Polyline<P>,
    subs: &E,
    normal: &M,
    centroid: &C,
    probe: &F,
    mesh: &PolygonMesh<Q, P, N>,
) -> bool where
    E: Fn(&S, &P) -> Q,
    M: Fn(&S, &P) -> N,
    C: Fn(&P, &P, &P) -> P,
    F: Fn(&P, &P, &P) -> RayProbe,
 {
    &&& mesh.wf()
    &&& lifted(surface, vertices, subs, normal, &mesh.attributes_view())
    &&& mesh.faces_view().quad_view().len() == 0
    &&& mesh.faces_view().other_view().len() == 0
    &&& exists|keep: Seq<bool>|
        {
            &&& keep.len() == triangles.len()
            &&& forall|t: int|
                0 <= t < keep.len() ==> retained(
                    vertices,
                    triangles[t],
                    polyline,
                    centroid,
                    probe,
                    #[trigger] keep[t],
                )
            &&& mesh.faces_view().tri_view().len() == kept_faces(
                vertices,
                triangles,
                keep,
                triangles.len() as int,
            ).len()
            &&& forall|f: int|
                0 <= f < mesh.faces_view().tri_view().len() ==> (
                #[trigger] mesh.faces_view().tri_view()[f])@ == kept_faces(
                    vertices,
                    triangles,
                    keep,
                    triangles.len() as int,
                )[f]
        }
}

/// Turns a triangulation of the parameter plane into a mesh on the surface. Each
/// vertex, given as its handle and its parameters, becomes one position, one
/// texture coordinate and one normal; each triangle, given by the handles of its
/// corners, becomes a face if the boundary `polyline` holds its centroid.
pub fn triangulation_into_polymesh<S, P: Copy, Q, N, E, M, C, F>(
    vertices: &Vec<(usize, P)>,
    triangles: &Vec<[usize; 3]>,
    surface: &S,
    polyline: &Polyline<P>,
    subs: &E,
    normal: &M,
    centroid: &C,
    probe: &F,
) -> (mesh: PolygonMesh<Q, P, N>) where
    E: Fn(&S, &P) -> Q,
    M: Fn(&S, &P) -> N,
    C: Fn(&P, &P, &P) -> P,
    F: Fn(&P, &P, &P) -> RayProbe,

    requires
        handles_distinct(vertices@),
        corners_known(vertices@, triangles@),
        polyline.wf(),
        forall|s: &S, p: &P| call_requires(*subs, (s, p)),
        forall|s: &S, p: &P| call_requires(*normal, (s, p)),
        forall|a: &P, b: &P, c: &P| call_requires(*centroid, (a, b, c)),
        forall|c: &P, a: &P, b: &P| call_requires(*probe, (c, a, b)),
    ensures
        meshed_from(
            surface,
            vertices@,
            triangles@,
            polyline,
            subs,
            normal,
            centroid,
            probe,
            &mesh,
        ),
{
    let (attributes, places) = lift_vertices(surface, vertices, subs, normal);
    let n = triangles.len();
    let mut tri_faces: Vec<[StandardVertex; 3]> = Vec::new();
    let ghost mut keep: Seq<bool> = Seq::empty();
    let mut t: usize = 0;
    while t < n
        invariant
            n == triangles@.len(),
            t <= n,
            handles_distinct(vertices@),
            corners_known(vertices@, triangles@),
            polyline.wf(),
            forall|a: &P, b: &P, c: &P| call_requires(*centroid, (a, b, c)),
            forall|c: &P, a: &P, b: &P| call_requires(*probe, (c, a, b)),
            forall|h: usize| places@.contains_key(h) <==> is_handle(vertices@, h),
            forall|i: int| 0 <= i < vertices@.len() ==> places@[(#[trigger] vertices@[i]).0] == i,
            attributes.positions@.len() == vertices@.len(),
            attributes.uv_coords@.len() == vertices@.len(),
            attributes.normals@.len() == vertices@.len(),
            keep.len() == t,
            forall|s: int|
                0 <= s < t ==> retained(
                    vertices@,
                    triangles@[s],
                    polyline,
                    centroid,
                    probe,
                    #[trigger] keep[s],
                ),
            tri_faces@.len() == kept_faces(vertices@, triangles@, keep, t as int).len(),
            forall|f: int|
                0 <= f < tri_faces@.len() ==> (#[trigger] tri_faces@[f])@ == kept_faces(
                    vertices@,
                    triangles@,
                    keep,
                    t as int,
                )[f],
            forall|f: int, k: int|
                0 <= f < tri_faces@.len() && 0 <= k < 3 ==> attributes.holds(
                    #[trigger] tri_faces@[f][k],
                ),
        decreases n - t,
    {
        let tri = triangles[t];
        proof {
            assert(is_handle(vertices@, triangles@[t as int][0]));
            assert(is_handle(vertices@, triangles@[t as int][1]));
            assert(is_handle(vertices@, triangles@[t as int][2]));
        }
        let i0 = index_map_get(&places, tri[0]).unwrap();
        let i1 = index_map_get(&places, tri[1]).unwrap();
        let i2 = index_map_get(&places, tri[2]).unwrap();
        proof {
            let j0 = index_of(vertices@, tri[0]);
            let j1 = index_of(vertices@, tri[1]);
            let j2 = index_of(vertices@, tri[2]);
            assert(vertices@[j0].0 == tri[0] && vertices@[j1].0 == tri[1] && vertices@[j2].0
                == tri[2]);
            assert(i0 == j0 && i1 == j1 && i2 == j2);
        }
        let c = centroid(&vertices[i0].1, &vertices[i1].1, &vertices[i2].1);
        let inside = polyline.includes(&c, probe);
        let ghost before = keep;
        proof {
            keep = keep.push(inside);
            lemma_kept_faces_extends(vertices@, triangles@, before, keep, t as int);
            assert forall|s: int| 0 <= s < t + 1 implies retained(
                vertices@,
                triangles@[s],
                polyline,
                centroid,
                probe,
                #[trigger] keep[s],
            ) by {
                if s < t {
                    assert(keep[s] == before[s]);
                }
            }
        }
        if inside {
            let face = [
                StandardVertex { pos: i0, uv: Some(i0), nor: Some(i0) },
                StandardVertex { pos: i1, uv: Some(i1), nor: Some(i1) },
                StandardVertex { pos: i2, uv: Some(i2), nor: Some(i2) },
            ];
            proof {
                assert(face@ =~= face_of(vertices@, tri));
            }
            tri_faces.push(face);
        }
        t = t + 1;
    }
    let faces = Faces::from_tri_and_quad_faces(tri_faces, Vec::new());
    PolygonMesh::debug_new(attributes, faces)
}

/// Verdicts on later triangles change nothing of the faces kept before.
pub proof fn lemma_kept_faces_extends<P>(
    vertices: Seq<(usize, P)>,
    triangles: Seq<[usize; 3]>,
    keep: Seq<bool>,
    longer: Seq<bool>,
    t: int,
)
    requires
        0 <= t <= keep.len() <= longer.len(),
        forall|i: int| 0 <= i < keep.len() ==> keep[i] == longer[i],
    ensures
        kept_faces(vertices, triangles, longer, t) == kept_faces(vertices, triangles, keep, t),
    decreases t,
{
    if t > 0 {
        lemma_kept_faces_extends(vertices, triangles, keep, longer, t - 1);
    }
}

} // verus!
