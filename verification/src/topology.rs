//! Shells whose faces share edges and vertices by identity, and their
//! tessellation: every identity is met once, takes one place, and is referred
//! to by that place wherever it is used.
use crate::inclusion::RayProbe;
use crate::mesh::{
    index_map_get, index_map_insert, index_map_new, PolygonMesh, StandardAttributes,
    StandardVertex,
};
use crate::trimming::{trimmer_ready, trimming, Trimmer};
use crate::face::{face_meshed, face_meshed_by, lemma_face_meshed_single_valued};
use crate::polyline::{search_single_valued, Polyline};
use crate::polyline_curve::PolylineCurve;
use crate::seam::{seam_single_valued, Axis, PeriodShift, SeamOrder};
use crate::shell::{
    boundaries_meshed, boundaries_view, boundary_curves, copy_boundaries, edge_curves,
    face_curves, face_tessellated, tessellate_boundaries, CompressedEdge, CompressedEdgeIndex,
    CompressedFace, CompressedShell,
};
use rustc_hash::FxHashMap;
use vstd::prelude::*;

verus! {

/// A use of an edge in a boundary of a face: the identities of the edge and of
/// its front and back vertices, which do not depend on the direction of the
/// use, and whether the boundary runs along the edge or against it.
#[derive(Clone, Copy, Debug, PartialEq, Eq, Structural)]
pub struct EdgeUse {
    pub id: usize,
    pub front: usize,
    pub back: usize,
    pub orientation: bool,
}

/// A face of a shell: its boundaries, the outer one and the holes, whether the
/// face is oriented as its surface is, and the surface.
#[derive(Clone, Debug)]
pub struct FaceUse<S> {
    pub boundaries: Vec<Vec<EdgeUse>>,
    pub orientation: bool,
    pub surface: S,
}

/// A shell whose faces share edges and vertices by identity.
#[derive(Clone, Debug)]
pub struct Shell<S> {
    pub faces: Vec<FaceUse<S>>,
}

/// The identities met while walking a shell, each once, in the order in which
/// they were first met, and for each edge the places of its front and back
/// vertices among the vertices.
pub struct Tables {
    pub vertices: Seq<usize>,
    pub edges: Seq<usize>,
    pub ends: Seq<(usize, usize)>,
}

/// The place of an identity among those met.
pub open spec fn place(ids: Seq<usize>, id: usize) -> int {
    choose|i: int| 0 <= i < ids.len() && ids[i] == id
}

/// The identities met, after one more is met: it is added unless it is there.
pub open spec fn noted(ids: Seq<usize>, id: usize) -> Seq<usize> {
    if ids.contains(id) {
        ids
    } else {
        ids.push(id)
    }
}

/// The tables after an edge use is met. An edge met before changes nothing. A
/// new edge brings its front vertex, then its back vertex, then itself.
pub open spec fn see_edge(t: Tables, e: EdgeUse) -> Tables {
    if t.edges.contains(e.id) {
        t
    } else {
        let vertices = noted(noted(t.vertices, e.front), e.back);
        Tables {
            vertices,
            edges: t.edges.push(e.id),
            ends: t.ends.push((place(vertices, e.front) as usize, place(vertices, e.back) as usize)),
        }
    }
}

/// The tables after the first `k` edge uses of a boundary are met.
pub open spec fn see_wire(t: Tables, wire: Seq<EdgeUse>, k: int) -> Tables
    decreases k,
{
    if k <= 0 {
        t
    } else {
        see_edge(see_wire(t, wire, k - 1), wire[k - 1])
    }
}

/// The tables after the first `w` boundaries of a face are met.
pub open spec fn see_face(t: Tables, boundaries: Seq<Seq<EdgeUse>>, w: int) -> Tables
    decreases w,
{
    if w <= 0 {
        t
    } else {
        see_wire(see_face(t, boundaries, w - 1), boundaries[w - 1], boundaries[w - 1].len() as int)
    }
}

/// The tables after the first `f` faces of a shell are met, from nothing.
pub open spec fn see_shell(faces: Seq<Seq<Seq<EdgeUse>>>, f: int) -> Tables
    decreases f,
{
    if f <= 0 {
        Tables { vertices: Seq::empty(), edges: Seq::empty(), ends: Seq::empty() }
    } else {
        see_face(see_shell(faces, f - 1), faces[f - 1], faces[f - 1].len() as int)
    }
}

/// The boundaries of a face, as sequences of edge uses.
pub open spec fn uses_view(boundaries: Seq<Vec<EdgeUse>>) -> Seq<Seq<EdgeUse>> {
    boundaries.map_values(|w: Vec<EdgeUse>| w@)
}

/// The faces of a shell, each as its boundaries.
pub open spec fn shell_view<S>(faces: Seq<FaceUse<S>>) -> Seq<Seq<Seq<EdgeUse>>> {
    faces.map_values(|f: FaceUse<S>| uses_view(f.boundaries@))
}

/// A boundary with each edge referred to by its place among the edges met.
pub open spec fn placed_uses(edges: Seq<usize>, wire: Seq<EdgeUse>) -> Seq<CompressedEdgeIndex> {
    Seq::new(
        wire.len(),
        |k: int|
            CompressedEdgeIndex {
                index: place(edges, wire[k].id) as usize,
                orientation: wire[k].orientation,
            },
    )
}

/// The boundaries of a face with each edge referred to by its place.
pub open spec fn placed_boundaries(edges: Seq<usize>, boundaries: Seq<Seq<EdgeUse>>) -> Seq<
    Seq<CompressedEdgeIndex>,
> {
    Seq::new(boundaries.len(), |w: int| placed_uses(edges, boundaries[w]))
}

/// Among identities none of which occurs twice, each stands at its place.
pub proof fn lemma_place(ids: Seq<usize>, i: int)
    requires
        ids.no_duplicates(),
        0 <= i < ids.len(),
    ensures
        place(ids, ids[i]) == i,
{
    let j = place(ids, ids[i]);
    assert(0 <= j < ids.len() && ids[j] == ids[i]);
}

/// `a` is the beginning of `b`.
pub open spec fn begins<A>(a: Seq<A>, b: Seq<A>) -> bool {
    a.len() <= b.len() && forall|i: int| 0 <= i < a.len() ==> a[i] == b[i]
}

/// An identity keeps its place when more identities are met.
pub proof fn lemma_place_stable(a: Seq<usize>, b: Seq<usize>, id: usize)
    requires
        begins(a, b),
        b.no_duplicates(),
        a.contains(id),
    ensures
        place(b, id) == place(a, id),
        b.contains(id),
{
    let i = place(a, id);
    assert(0 <= i < a.len() && a[i] == id);
    assert(b[i] == id);
    lemma_place(b, i);
}

/// Every edge that the boundaries use is among `edges`.
pub open spec fn face_known(edges: Seq<usize>, boundaries: Seq<Seq<EdgeUse>>) -> bool {
    forall|w: int, k: int|
        0 <= w < boundaries.len() && 0 <= k < boundaries[w].len() ==> edges.contains(
            (#[trigger] boundaries[w][k]).id,
        )
}

/// The polylines of boundaries whose edges are all among the first of `longer`
/// are the same whether taken from those or from all of `longer`.
pub proof fn lemma_face_curves_stable<Q>(
    curves: Seq<Seq<Q>>,
    longer: Seq<Seq<Q>>,
    boundaries: Seq<Seq<CompressedEdgeIndex>>,
)
    requires
        begins(curves, longer),
        forall|w: int, k: int|
            0 <= w < boundaries.len() && 0 <= k < boundaries[w].len() ==> (
            #[trigger] boundaries[w][k]).index < curves.len(),
    ensures
        face_curves(longer, boundaries) == face_curves(curves, boundaries),
{
    assert forall|w: int| 0 <= w < boundaries.len() implies boundary_curves(
        longer,
        boundaries[w],
        boundaries[w].len() as int,
    ) == boundary_curves(curves, boundaries[w], boundaries[w].len() as int) by {
        lemma_boundary_curves_stable(curves, longer, boundaries[w], boundaries[w].len() as int);
    }
    assert(face_curves(longer, boundaries) =~= face_curves(curves, boundaries));
}

/// The polylines of a boundary whose edges are all among the first of `longer`
/// are the same whether taken from those or from all of `longer`.
pub proof fn lemma_boundary_curves_stable<Q>(
    curves: Seq<Seq<Q>>,
    longer: Seq<Seq<Q>>,
    wire: Seq<CompressedEdgeIndex>,
    k: int,
)
    requires
        begins(curves, longer),
        0 <= k <= wire.len(),
        forall|i: int| 0 <= i < wire.len() ==> (#[trigger] wire[i]).index < curves.len(),
    ensures
        boundary_curves(longer, wire, k) == boundary_curves(curves, wire, k),
    decreases k,
{
    if k > 0 {
        lemma_boundary_curves_stable(curves, longer, wire, k - 1);
        assert(wire[k - 1].index < curves.len());
    }
}

/// The boundaries of a face whose edges are all among the first of `longer`
/// refer to the same places whether taken among those or among all of `longer`.
pub proof fn lemma_placed_stable(edges: Seq<usize>, longer: Seq<usize>, boundaries: Seq<Seq<EdgeUse>>)
    requires
        begins(edges, longer),
        longer.no_duplicates(),
        face_known(edges, boundaries),
    ensures
        placed_boundaries(longer, boundaries) == placed_boundaries(edges, boundaries),
        face_known(longer, boundaries),
        forall|w: int, k: int|
            0 <= w < boundaries.len() && 0 <= k < boundaries[w].len() ==> (
            #[trigger] placed_boundaries(edges, boundaries)[w][k]).index < edges.len(),
{
    assert forall|w: int| 0 <= w < boundaries.len() implies placed_uses(longer, boundaries[w])
        =~= placed_uses(edges, boundaries[w]) by {
        assert forall|k: int| 0 <= k < boundaries[w].len() implies place(
            longer,
            boundaries[w][k].id,
        ) == place(edges, boundaries[w][k].id) by {
            lemma_place_stable(edges, longer, boundaries[w][k].id);
        }
    }
    assert(placed_boundaries(longer, boundaries) =~= placed_boundaries(edges, boundaries));
    assert forall|w: int, k: int|
        0 <= w < boundaries.len() && 0 <= k < boundaries[w].len() implies longer.contains(
        (#[trigger] boundaries[w][k]).id,
    ) by {
        lemma_place_stable(edges, longer, boundaries[w][k].id);
    }
    assert forall|w: int, k: int|
        0 <= w < boundaries.len() && 0 <= k < boundaries[w].len() implies (
    #[trigger] placed_boundaries(edges, boundaries)[w][k]).index < edges.len() by {
        let id = boundaries[w][k].id;
        assert(edges.contains(id));
        let i = place(edges, id);
        assert(0 <= i < edges.len());
    }
}

/// No identity stands twice in the tables, and every edge ends at vertices
/// that the tables hold.
pub open spec fn tables_sound(t: Tables) -> bool {
    &&& t.vertices.no_duplicates()
    &&& t.edges.no_duplicates()
    &&& t.ends.len() == t.edges.len()
    &&& forall|i: int|
        0 <= i < t.ends.len() ==> (#[trigger] t.ends[i]).0 < t.vertices.len() && t.ends[i].1
            < t.vertices.len()
}

/// `b` holds all that `a` holds, at the same places.
pub open spec fn tables_grow(a: Tables, b: Tables) -> bool {
    begins(a.vertices, b.vertices) && begins(a.edges, b.edges) && begins(a.ends, b.ends)
}

/// Meeting an identity keeps those met at their places and adds none twice.
pub proof fn lemma_noted(ids: Seq<usize>, id: usize)
    requires
        ids.no_duplicates(),
    ensures
        noted(ids, id).no_duplicates(),
        begins(ids, noted(ids, id)),
        noted(ids, id).contains(id),
        0 <= place(noted(ids, id), id) < noted(ids, id).len(),
{
    let after = noted(ids, id);
    if !ids.contains(id) {
        assert(after[ids.len() as int] == id);
    }
    assert(after.contains(id));
    let i = choose|i: int| 0 <= i < after.len() && after[i] == id;
    assert(0 <= i < after.len() && after[i] == id);
}

/// Meeting an edge use keeps the tables sound, keeps what they held, and
/// leaves the edge in them.
pub proof fn lemma_see_edge(t: Tables, e: EdgeUse)
    requires
        tables_sound(t),
    ensures
        tables_sound(see_edge(t, e)),
        tables_grow(t, see_edge(t, e)),
        see_edge(t, e).edges.contains(e.id),
{
    let after = see_edge(t, e);
    if t.edges.contains(e.id) {
    } else {
        let mid = noted(t.vertices, e.front);
        lemma_noted(t.vertices, e.front);
        lemma_noted(mid, e.back);
        let vertices = noted(mid, e.back);
        lemma_place_stable(mid, vertices, e.front);
        assert(after.edges[t.edges.len() as int] == e.id);
        assert forall|i: int| 0 <= i < after.ends.len() implies (#[trigger] after.ends[i]).0
            < after.vertices.len() && after.ends[i].1 < after.vertices.len() by {
            if i < t.ends.len() {
                assert(after.ends[i] == t.ends[i]);
            }
        }
    }
}

/// The beginning of a beginning is a beginning, and holds what it held.
pub proof fn lemma_begins_chain<A>(a: Seq<A>, b: Seq<A>, c: Seq<A>)
    requires
        begins(a, b),
        begins(b, c),
    ensures
        begins(a, c),
        forall|x: A| a.contains(x) ==> c.contains(x),
{
    assert forall|x: A| a.contains(x) implies c.contains(x) by {
        let i = choose|i: int| 0 <= i < a.len() && a[i] == x;
        assert(c[i] == x);
    }
}

/// Meeting the edge uses of a boundary keeps the tables sound, keeps what they
/// held, and leaves every edge of the boundary in them.
pub proof fn lemma_see_wire(t: Tables, wire: Seq<EdgeUse>, k: int)
    requires
        tables_sound(t),
        0 <= k <= wire.len(),
    ensures
        tables_sound(see_wire(t, wire, k)),
        tables_grow(t, see_wire(t, wire, k)),
        forall|j: int| 0 <= j < k ==> see_wire(t, wire, k).edges.contains((#[trigger] wire[j]).id),
    decreases k,
{
    if k > 0 {
        let before = see_wire(t, wire, k - 1);
        let after = see_wire(t, wire, k);
        lemma_see_wire(t, wire, k - 1);
        lemma_see_edge(before, wire[k - 1]);
        lemma_begins_chain(t.vertices, before.vertices, after.vertices);
        lemma_begins_chain(t.edges, before.edges, after.edges);
        lemma_begins_chain(t.ends, before.ends, after.ends);
        lemma_begins_chain(before.edges, after.edges, after.edges);
    }
}

/// Meeting the boundaries of a face keeps the tables sound, keeps what they
/// held, and leaves every edge of the face in them.
pub proof fn lemma_see_face(t: Tables, boundaries: Seq<Seq<EdgeUse>>, w: int)
    requires
        tables_sound(t),
        0 <= w <= boundaries.len(),
    ensures
        tables_sound(see_face(t, boundaries, w)),
        tables_grow(t, see_face(t, boundaries, w)),
        face_known(see_face(t, boundaries, w).edges, boundaries.take(w)),
    decreases w,
{
    if w > 0 {
        let before = see_face(t, boundaries, w - 1);
        let after = see_face(t, boundaries, w);
        lemma_see_face(t, boundaries, w - 1);
        lemma_see_wire(before, boundaries[w - 1], boundaries[w - 1].len() as int);
        lemma_begins_chain(t.vertices, before.vertices, after.vertices);
        lemma_begins_chain(t.edges, before.edges, after.edges);
        lemma_begins_chain(t.ends, before.ends, after.ends);
        lemma_begins_chain(before.edges, after.edges, after.edges);
        assert forall|v: int, k: int|
            0 <= v < boundaries.take(w).len() && 0 <= k < boundaries.take(
                w,
            )[v].len() implies after.edges.contains((#[trigger] boundaries.take(w)[v][k]).id) by {
            if v < w - 1 {
                assert(boundaries.take(w - 1)[v][k] == boundaries.take(w)[v][k]);
                assert(before.edges.contains(boundaries.take(w - 1)[v][k].id));
            } else {
                assert(boundaries.take(w)[v] == boundaries[w - 1]);
            }
        }
    }
}

/// In the tables of a shell every identity stands once, every edge ends at
/// vertices that the tables hold, and every edge that a face uses is there.
pub proof fn lemma_see_shell(faces: Seq<Seq<Seq<EdgeUse>>>, f: int)
    requires
        0 <= f <= faces.len(),
    ensures
        tables_sound(see_shell(faces, f)),
        forall|g: int| 0 <= g < f ==> face_known(see_shell(faces, f).edges, #[trigger] faces[g]),
    decreases f,
{
    if f > 0 {
        let before = see_shell(faces, f - 1);
        let after = see_shell(faces, f);
        lemma_see_shell(faces, f - 1);
        lemma_see_face(before, faces[f - 1], faces[f - 1].len() as int);
        assert(faces[f - 1].take(faces[f - 1].len() as int) =~= faces[f - 1]);
        assert forall|g: int| 0 <= g < f implies face_known(after.edges, #[trigger] faces[g]) by {
            if g < f - 1 {
                assert(face_known(before.edges, faces[g]));
                lemma_placed_stable(before.edges, after.edges, faces[g]);
            }
        }
    }
}

/// The vertices and edges met so far, each with its place, and what was made of
/// each: a copy of the vertex, and the edge with its polyline.
pub struct Registry<V, Q> {
    vertex_places: FxHashMap<usize, usize>,
    edge_places: FxHashMap<usize, usize>,
    vertices: Vec<V>,
    edges: Vec<CompressedEdge<PolylineCurve<Q>>>,
    seen: Ghost<Tables>,
}

impl<V, Q> Registry<V, Q> {
    /// The identities met.
    pub closed spec fn tables(&self) -> Tables {
        self.seen@
    }

    /// What was made of the vertices met.
    pub closed spec fn vertices_view(&self) -> Seq<V> {
        self.vertices@
    }

    /// What was made of the edges met.
    pub closed spec fn edges_view(&self) -> Seq<CompressedEdge<PolylineCurve<Q>>> {
        self.edges@
    }

    /// The maps agree with the tables, no identity stands twice, every edge ends
    /// at vertices that were met, and what stands at each place was made by
    /// `vertex_of` or `polyline_of` of the identity at that place.
    pub closed spec fn wf<VO: Fn(usize) -> V, PL: Fn(usize) -> PolylineCurve<Q>>(
        &self,
        vertex_of: &VO,
        polyline_of: &PL,
    ) -> bool {
        let t = self.seen@;
        &&& t.vertices.no_duplicates()
        &&& t.edges.no_duplicates()
        &&& t.ends.len() == t.edges.len()
        &&& self.vertices@.len() == t.vertices.len()
        &&& self.edges@.len() == t.edges.len()
        &&& forall|id: usize| self.vertex_places@.contains_key(id) <==> t.vertices.contains(id)
        &&& forall|i: int|
            0 <= i < t.vertices.len() ==> self.vertex_places@[#[trigger] t.vertices[i]] == i
        &&& forall|id: usize| self.edge_places@.contains_key(id) <==> t.edges.contains(id)
        &&& forall|i: int| 0 <= i < t.edges.len() ==> self.edge_places@[#[trigger] t.edges[i]] == i
        &&& forall|i: int|
            0 <= i < t.vertices.len() ==> call_ensures(
                *vertex_of,
                (t.vertices[i],),
                #[trigger] self.vertices@[i],
            )
        &&& forall|i: int|
            0 <= i < t.edges.len() ==> (#[trigger] self.edges@[i]).vertices == t.ends[i]
                && call_ensures(*polyline_of, (t.edges[i],), self.edges@[i].curve)
    }

    /// `self` holds all that `before` held, at the same places.
    pub closed spec fn extends(&self, before: &Registry<V, Q>) -> bool {
        &&& begins(before.seen@.vertices, self.seen@.vertices)
        &&& begins(before.seen@.edges, self.seen@.edges)
        &&& begins(before.seen@.ends, self.seen@.ends)
        &&& begins(before.edges@, self.edges@)
    }

    /// What follows from a registry being well formed.
    pub proof fn lemma_wf<VO: Fn(usize) -> V, PL: Fn(usize) -> PolylineCurve<Q>>(
        &self,
        vertex_of: &VO,
        polyline_of: &PL,
    )
        requires
            self.wf(vertex_of, polyline_of),
        ensures
            self.tables().vertices.no_duplicates(),
            self.tables().edges.no_duplicates(),
            self.tables().ends.len() == self.tables().edges.len(),
            self.vertices_view().len() == self.tables().vertices.len(),
            self.edges_view().len() == self.tables().edges.len(),
            forall|i: int|
                0 <= i < self.tables().vertices.len() ==> call_ensures(
                    *vertex_of,
                    (self.tables().vertices[i],),
                    #[trigger] self.vertices_view()[i],
                ),
            forall|i: int|
                0 <= i < self.tables().edges.len() ==> (#[trigger] self.edges_view()[i]).vertices
                    == self.tables().ends[i] && call_ensures(
                    *polyline_of,
                    (self.tables().edges[i],),
                    self.edges_view()[i].curve,
                ),
    {
    }

    /// What follows from a registry extending another.
    pub proof fn lemma_extends(&self, before: &Registry<V, Q>)
        requires
            self.extends(before),
        ensures
            begins(before.tables().vertices, self.tables().vertices),
            begins(before.tables().edges, self.tables().edges),
            begins(before.tables().ends, self.tables().ends),
            begins(before.edges_view(), self.edges_view()),
            begins(edge_curves(before.edges_view()), edge_curves(self.edges_view())),
    {
    }

    /// The edges met, each with its polyline.
    pub fn edges(&self) -> (res: &Vec<CompressedEdge<PolylineCurve<Q>>>)
        ensures
            res@ == self.edges_view(),
    {
        &self.edges
    }

    /// What was made of the vertices and of the edges met.
    pub fn into_parts(self) -> (res: (Vec<V>, Vec<CompressedEdge<PolylineCurve<Q>>>))
        ensures
            res.0@ == self.vertices_view(),
            res.1@ == self.edges_view(),
    {
        (self.vertices, self.edges)
    }

    /// A registry that has met nothing.
    pub fn new<VO: Fn(usize) -> V, PL: Fn(usize) -> PolylineCurve<Q>>(
        vertex_of: &VO,
        polyline_of: &PL,
    ) -> (res: Registry<V, Q>)
        ensures
            res.wf(vertex_of, polyline_of),
            res.tables() == (Tables {
                vertices: Seq::empty(),
                edges: Seq::empty(),
                ends: Seq::empty(),
            }),
    {
        Registry {
            vertex_places: index_map_new(),
            edge_places: index_map_new(),
            vertices: Vec::new(),
            edges: Vec::new(),
            seen: Ghost(Tables { vertices: Seq::empty(), edges: Seq::empty(), ends: Seq::empty() }),
        }
    }

    /// The place of a vertex; one met for the first time is copied by `vertex_of`
    /// and takes the next place.
    fn vertex_place<VO: Fn(usize) -> V, PL: Fn(usize) -> PolylineCurve<Q>>(
        &mut self,
        id: usize,
        vertex_of: &VO,
        polyline_of: &PL,
    ) -> (slot: usize)
        requires
            old(self).wf(vertex_of, polyline_of),
            forall|i: usize| call_requires(*vertex_of, (i,)),
        ensures
            final(self).wf(vertex_of, polyline_of),
            final(self).extends(old(self)),
            final(self).seen@.vertices == noted(old(self).seen@.vertices, id),
            final(self).seen@.edges == old(self).seen@.edges,
            final(self).seen@.ends == old(self).seen@.ends,
            final(self).edges == old(self).edges,
            final(self).edge_places == old(self).edge_places,
            slot == place(final(self).seen@.vertices, id),
            slot < final(self).seen@.vertices.len(),
    {
        match index_map_get(&self.vertex_places, id) {
            Some(slot) => {
                proof {
                    let t = self.seen@;
                    assert(t.vertices.contains(id));
                    let i = choose|i: int| 0 <= i < t.vertices.len() && t.vertices[i] == id;
                    assert(self.vertex_places@[t.vertices[i]] == i);
                    lemma_place(t.vertices, i);
                }
                slot
            },
            None => {
                let slot = self.vertices.len();
                let v = vertex_of(id);
                self.vertices.push(v);
                index_map_insert(&mut self.vertex_places, id, slot);
                let ghost t = self.seen@;
                self.seen = Ghost(
                    Tables { vertices: t.vertices.push(id), edges: t.edges, ends: t.ends },
                );
                proof {
                    let now = self.seen@.vertices;
                    assert(!t.vertices.contains(id));
                    assert(now.no_duplicates());
                    assert forall|other: usize|
                        self.vertex_places@.contains_key(other) <==> now.contains(other) by {
                        if other == id {
                            assert(now[slot as int] == id);
                        } else if t.vertices.contains(other) {
                            let i = choose|i: int|
                                0 <= i < t.vertices.len() && t.vertices[i] == other;
                            assert(now[i] == other);
                        } else if now.contains(other) {
                            let i = choose|i: int| 0 <= i < now.len() && now[i] == other;
                            assert(t.vertices[i] == other);
                        }
                    }
                    assert forall|i: int| 0 <= i < now.len() implies self.vertex_places@[
                    #[trigger] now[i]] == i by {
                        if i < t.vertices.len() {
                            assert(t.vertices[i] == now[i]);
                            assert(t.vertices.contains(now[i]));
                        }
                    }
                    assert(now[slot as int] == id);
                    lemma_place(now, slot as int);
                }
                slot
            },
        }
    }

    /// The place of the edge that is used; one met for the first time has its
    /// end vertices placed and its curve tessellated by `polyline_of`, and takes
    /// the next place.
    fn edge_place<VO: Fn(usize) -> V, PL: Fn(usize) -> PolylineCurve<Q>>(
        &mut self,
        e: EdgeUse,
        vertex_of: &VO,
        polyline_of: &PL,
    ) -> (slot: usize)
        requires
            old(self).wf(vertex_of, polyline_of),
            forall|i: usize| call_requires(*vertex_of, (i,)),
            forall|i: usize| call_requires(*polyline_of, (i,)),
        ensures
            final(self).wf(vertex_of, polyline_of),
            final(self).extends(old(self)),
            final(self).seen@ == see_edge(old(self).seen@, e),
            slot == place(final(self).seen@.edges, e.id),
            slot < final(self).seen@.edges.len(),
    {
        match index_map_get(&self.edge_places, e.id) {
            Some(slot) => {
                proof {
                    let t = self.seen@;
                    assert(t.edges.contains(e.id));
                    let i = choose|i: int| 0 <= i < t.edges.len() && t.edges[i] == e.id;
                    assert(self.edge_places@[t.edges[i]] == i);
                    lemma_place(t.edges, i);
                }
                slot
            },
            None => {
                let ghost t = self.seen@;
                let ghost start = *self;
                let front = self.vertex_place(e.front, vertex_of, polyline_of);
                let ghost mid = self.seen@.vertices;
                let back = self.vertex_place(e.back, vertex_of, polyline_of);
                let slot = self.edges.len();
                let curve = polyline_of(e.id);
                self.edges.push(CompressedEdge { vertices: (front, back), curve });
                index_map_insert(&mut self.edge_places, e.id, slot);
                let ghost vertices = self.seen@.vertices;
                proof {
                    assert(mid.contains(e.front)) by {
                        if t.vertices.contains(e.front) {
                        } else {
                            assert(mid[mid.len() - 1] == e.front);
                        }
                    }
                    lemma_place_stable(mid, vertices, e.front);
                }
                self.seen = Ghost(
                    Tables {
                        vertices,
                        edges: t.edges.push(e.id),
                        ends: t.ends.push((front, back)),
                    },
                );
                proof {
                    let now = self.seen@.edges;
                    assert(!t.edges.contains(e.id));
                    assert(now.no_duplicates());
                    assert forall|other: usize|
                        self.edge_places@.contains_key(other) <==> now.contains(other) by {
                        if other == e.id {
                            assert(now[slot as int] == e.id);
                        } else if t.edges.contains(other) {
                            let i = choose|i: int| 0 <= i < t.edges.len() && t.edges[i] == other;
                            assert(now[i] == other);
                        } else if now.contains(other) {
                            let i = choose|i: int| 0 <= i < now.len() && now[i] == other;
                            assert(t.edges[i] == other);
                        }
                    }
                    assert forall|i: int| 0 <= i < now.len() implies self.edge_places@[
                    #[trigger] now[i]] == i by {
                        if i < t.edges.len() {
                            assert(t.edges[i] == now[i]);
                            assert(t.edges.contains(now[i]));
                        }
                    }
                    assert forall|i: int| 0 <= i < now.len() implies (
                    #[trigger] self.edges@[i]).vertices == self.seen@.ends[i] && call_ensures(
                        *polyline_of,
                        (now[i],),
                        self.edges@[i].curve,
                    ) by {
                        if i < t.edges.len() {
                            assert(self.edges@[i] == start.edges@[i]);
                        }
                    }
                    assert(now[slot as int] == e.id);
                    lemma_place(now, slot as int);
                    assert(self.seen@ == see_edge(t, e));
                }
                slot
            },
        }
    }

    /// The edge uses of a boundary, each with the place of its edge.
    fn wire_places<VO: Fn(usize) -> V, PL: Fn(usize) -> PolylineCurve<Q>>(
        &mut self,
        wire: &Vec<EdgeUse>,
        vertex_of: &VO,
        polyline_of: &PL,
    ) -> (res: Vec<CompressedEdgeIndex>)
        requires
            old(self).wf(vertex_of, polyline_of),
            forall|i: usize| call_requires(*vertex_of, (i,)),
            forall|i: usize| call_requires(*polyline_of, (i,)),
        ensures
            final(self).wf(vertex_of, polyline_of),
            final(self).extends(old(self)),
            final(self).seen@ == see_wire(old(self).seen@, wire@, wire@.len() as int),
            res@ == placed_uses(final(self).seen@.edges, wire@),
            forall|k: int| 0 <= k < wire@.len() ==> final(self).seen@.edges.contains(wire@[k].id),
    {
        let n = wire.len();
        let mut res: Vec<CompressedEdgeIndex> = Vec::new();
        let mut k: usize = 0;
        while k < n
            invariant
                n == wire@.len(),
                k <= n,
                self.wf(vertex_of, polyline_of),
                self.extends(old(self)),
                forall|i: usize| call_requires(*vertex_of, (i,)),
                forall|i: usize| call_requires(*polyline_of, (i,)),
                self.seen@ == see_wire(old(self).seen@, wire@, k as int),
                res@.len() == k,
                forall|j: int| 0 <= j < k ==> self.seen@.edges.contains(wire@[j].id),
                forall|j: int|
                    0 <= j < k ==> #[trigger] res@[j] == (CompressedEdgeIndex {
                        index: place(self.seen@.edges, wire@[j].id) as usize,
                        orientation: wire@[j].orientation,
                    }),
            decreases n - k,
        {
            let e = wire[k];
            let ghost before = self.seen@.edges;
            let slot = self.edge_place(e, vertex_of, polyline_of);
            res.push(CompressedEdgeIndex { index: slot, orientation: e.orientation });
            proof {
                let now = self.seen@.edges;
                assert(now[slot as int] == e.id) by {
                    let i = place(now, e.id);
                    if before.contains(e.id) {
                        assert(now == before);
                        assert(0 <= i < now.len() && now[i] == e.id);
                    } else {
                        assert(now[now.len() - 1] == e.id);
                    }
                }
                assert forall|j: int| 0 <= j < k + 1 implies now.contains(wire@[j].id) by {
                    if j < k {
                        lemma_place_stable(before, now, wire@[j].id);
                    }
                }
                assert forall|j: int| 0 <= j < k + 1 implies #[trigger] res@[j] == (
                CompressedEdgeIndex {
                    index: place(now, wire@[j].id) as usize,
                    orientation: wire@[j].orientation,
                }) by {
                    if j < k {
                        lemma_place_stable(before, now, wire@[j].id);
                    }
                }
            }
            k = k + 1;
        }
        assert(res@ =~= placed_uses(self.seen@.edges, wire@));
        res
    }

    /// The boundaries of a face, each edge use with the place of its edge.
    pub fn face_places<VO: Fn(usize) -> V, PL: Fn(usize) -> PolylineCurve<Q>>(
        &mut self,
        boundaries: &Vec<Vec<EdgeUse>>,
        vertex_of: &VO,
        polyline_of: &PL,
    ) -> (res: Vec<Vec<CompressedEdgeIndex>>)
        requires
            old(self).wf(vertex_of, polyline_of),
            forall|i: usize| call_requires(*vertex_of, (i,)),
            forall|i: usize| call_requires(*polyline_of, (i,)),
        ensures
            final(self).wf(vertex_of, polyline_of),
            final(self).extends(old(self)),
            final(self).tables() == see_face(
                old(self).tables(),
                uses_view(boundaries@),
                boundaries@.len() as int,
            ),
            boundaries_view(res@) == placed_boundaries(
                final(self).tables().edges,
                uses_view(boundaries@),
            ),
            face_known(final(self).tables().edges, uses_view(boundaries@)),
    {
        let n = boundaries.len();
        let ghost uv = uses_view(boundaries@);
        let mut res: Vec<Vec<CompressedEdgeIndex>> = Vec::new();
        let mut w: usize = 0;
        while w < n
            invariant
                n == boundaries@.len(),
                uv == uses_view(boundaries@),
                w <= n,
                self.wf(vertex_of, polyline_of),
                self.extends(old(self)),
                forall|i: usize| call_requires(*vertex_of, (i,)),
                forall|i: usize| call_requires(*polyline_of, (i,)),
                self.seen@ == see_face(old(self).seen@, uv, w as int),
                res@.len() == w,
                face_known(self.seen@.edges, uv.take(w as int)),
                forall|v: int|
                    0 <= v < w ==> (#[trigger] res@[v])@ == placed_uses(self.seen@.edges, uv[v]),
            decreases n - w,
        {
            let ghost before = self.seen@.edges;
            assert(uv[w as int] == boundaries@[w as int]@);
            let wire = self.wire_places(&boundaries[w], vertex_of, polyline_of);
            res.push(wire);
            proof {
                let now = self.seen@.edges;
                lemma_placed_stable(before, now, uv.take(w as int));
                assert forall|v: int| 0 <= v < w + 1 implies (#[trigger] res@[v])@ == placed_uses(
                    now,
                    uv[v],
                ) by {
                    if v < w {
                        assert(placed_boundaries(now, uv.take(w as int))[v] == placed_boundaries(
                            before,
                            uv.take(w as int),
                        )[v]);
                        assert(uv.take(w as int)[v] == uv[v]);
                    }
                }
                assert forall|v: int, k: int|
                    0 <= v < uv.take(w as int + 1).len() && 0 <= k < uv.take(
                        w as int + 1,
                    )[v].len() implies now.contains((#[trigger] uv.take(w as int + 1)[v][k]).id) by {
                    if v < w {
                        assert(uv.take(w as int)[v][k] == uv.take(w as int + 1)[v][k]);
                        assert(now.contains(uv.take(w as int)[v][k].id));
                    }
                }
            }
            w = w + 1;
        }
        proof {
            assert(uv.take(n as int) =~= uv);
            assert(boundaries_view(res@) =~= placed_boundaries(self.seen@.edges, uv));
        }
        res
    }
}

/// `res` is the shell `shell` tessellated. Its vertices and edges are those that
/// a walk over the faces, boundaries and edge uses meets, each once, in the order
/// in which they are first met: each vertex as `vertex_of` copied it, each edge
/// between the places of its end vertices, with the polyline that `polyline_of`
/// made of its curve. Its faces are those of `shell`, in order, each with its
/// boundaries referring to the edges by their places, its orientation, and an
/// outcome of tessellating its surface within those boundaries, where `meshed`
/// relates a surface and a boundary to the meshes of the surface trimmed by
/// the boundary.
pub open spec fn shell_tessellated<S, V, Q, P: Copy, T, M, VO, PL, PE, F, G, H>(
    shell: &Shell<S>,
    vertex_of: &VO,
    polyline_of: &PL,
    periods_of: &PE,
    sp: &F,
    order: &G,
    apply: &H,
    meshed: spec_fn(S, Polyline<P>, M) -> bool,
    res: &CompressedShell<V, PolylineCurve<Q>, Option<M>>,
) -> bool where
    VO: Fn(usize) -> V,
    PL: Fn(usize) -> PolylineCurve<Q>,
    PE: Fn(&S) -> (Option<T>, Option<T>),
    F: Fn(&S, Q, Option<P>) -> Option<P>,
    G: Fn(Axis, P, T, P) -> SeamOrder,
    H: Fn(Axis, P, T, PeriodShift) -> P,
 {
    let t = see_shell(shell_view(shell.faces@), shell.faces@.len() as int);
    &&& res.vertices@.len() == t.vertices.len()
    &&& forall|i: int|
        0 <= i < t.vertices.len() ==> call_ensures(
            *vertex_of,
            (t.vertices[i],),
            #[trigger] res.vertices@[i],
        )
    &&& res.edges@.len() == t.edges.len()
    &&& t.ends.len() == t.edges.len()
    &&& forall|i: int|
        0 <= i < t.edges.len() ==> (#[trigger] res.edges@[i]).vertices == t.ends[i] && call_ensures(
            *polyline_of,
            (t.edges[i],),
            res.edges@[i].curve,
        )
    &&& res.faces@.len() == shell.faces@.len()
    &&& forall|f: int|
        0 <= f < shell.faces@.len() ==> face_tessellated(
            &shell.faces@[f].surface,
            placed_boundaries(t.edges, uses_view(shell.faces@[f].boundaries@)),
            shell.faces@[f].orientation,
            edge_curves(res.edges@),
            periods_of,
            sp,
            order,
            apply,
            meshed,
            #[trigger] &res.faces@[f],
        )
}

/// A tessellated shell is well formed: its edges end at its vertices, and the
/// boundaries of its faces refer to its edges.
pub proof fn lemma_tessellated_shell_wf<S, V, Q, P: Copy, T, M, VO, PL, PE, F, G, H>(
    shell: &Shell<S>,
    vertex_of: &VO,
    polyline_of: &PL,
    periods_of: &PE,
    sp: &F,
    order: &G,
    apply: &H,
    meshed: spec_fn(S, Polyline<P>, M) -> bool,
    res: &CompressedShell<V, PolylineCurve<Q>, Option<M>>,
) where
    VO: Fn(usize) -> V,
    PL: Fn(usize) -> PolylineCurve<Q>,
    PE: Fn(&S) -> (Option<T>, Option<T>),
    F: Fn(&S, Q, Option<P>) -> Option<P>,
    G: Fn(Axis, P, T, P) -> SeamOrder,
    H: Fn(Axis, P, T, PeriodShift) -> P,

    requires
        shell_tessellated(shell, vertex_of, polyline_of, periods_of, sp, order, apply, meshed, res),
    ensures
        res.wf(),
{
    let sv = shell_view(shell.faces@);
    let t = see_shell(sv, shell.faces@.len() as int);
    lemma_see_shell(sv, shell.faces@.len() as int);
    assert forall|i: int| 0 <= i < res.edges@.len() implies (#[trigger] res.edges@[i]).vertices.0
        < res.vertices@.len() && res.edges@[i].vertices.1 < res.vertices@.len() by {
        assert(res.edges@[i].vertices == t.ends[i]);
    }
    assert forall|f: int, w: int, k: int|
        0 <= f < res.faces@.len() && 0 <= w < res.faces@[f].boundaries@.len() && 0 <= k
            < res.faces@[f].boundaries@[w]@.len() implies (
    #[trigger] res.faces@[f].boundaries@[w]@[k]).index < res.edges@.len() by {
        let uses = uses_view(shell.faces@[f].boundaries@);
        assert(sv[f] == uses);
        let placed = placed_boundaries(t.edges, uses);
        let got = boundaries_view(res.faces@[f].boundaries@);
        assert(face_tessellated(
            &shell.faces@[f].surface,
            placed,
            shell.faces@[f].orientation,
            edge_curves(res.edges@),
            periods_of,
            sp,
            order,
            apply,
            meshed,
            &res.faces@[f],
        ));
        assert(got == placed);
        assert(got.len() == res.faces@[f].boundaries@.len());
        assert(got[w] == res.faces@[f].boundaries@[w]@);
        assert(placed[w] == placed_uses(t.edges, uses[w]));
        assert(face_known(t.edges, sv[f]));
        assert(t.edges.contains(uses[w][k].id));
        let i = place(t.edges, uses[w][k].id);
        assert(0 <= i < t.edges.len());
        assert(res.edges.len() == res.edges@.len());
        assert(placed[w][k].index == i);
    }
}

/// Tessellates a shell in one walk over its faces: the edges of a face are
/// placed, and tessellated where they are new, just before the face is.
pub fn shell_tessellation_single_thread<
    S,
    V,
    Q: Copy,
    P: Copy,
    T: Copy,
    X,
    N,
    TR,
    HD: Copy,
    R,
    VO,
    PL,
    PE,
    F,
    G,
    H,
    FR,
    I,
    L,
    A,
    SN,
    B,
    D,
    MK,
    PB,
    E,
    NM,
    CE,
    O,
>(
    shell: &Shell<S>,
    vertex_of: &VO,
    polyline_of: &PL,
    periods_of: &PE,
    sp: &F,
    order: &G,
    apply: &H,
    k: &Trimmer<FR, I, L, A, SN, B, D, MK, PB, E, NM, CE, O>,
) -> (res: CompressedShell<V, PolylineCurve<Q>, Option<PolygonMesh<X, P, N>>>) where
    VO: Fn(usize) -> V,
    PL: Fn(usize) -> PolylineCurve<Q>,
    PE: Fn(&S) -> (Option<T>, Option<T>),
    F: Fn(&S, Q, Option<P>) -> Option<P>,
    G: Fn(Axis, P, T, P) -> SeamOrder,
    H: Fn(Axis, P, T, PeriodShift) -> P,
    FR: Fn() -> TR,
    I: Fn(&TR, &P) -> Option<HD>,
    L: Fn(&TR, HD, HD) -> bool,
    A: Fn(&TR, HD, HD) -> bool,
    SN: Fn(&TR) -> (Vec<(usize, P)>, Vec<[usize; 3]>),
    B: Fn(&Polyline<P>) -> R,
    D: Fn(&S, R) -> (Vec<T>, Vec<T>),
    MK: Fn(T, T) -> P,
    PB: Fn(&P, &P, &P) -> RayProbe,
    E: Fn(&S, &P) -> X,
    NM: Fn(&S, &P) -> N,
    CE: Fn(&P, &P, &P) -> P,
    O: Fn(&StandardAttributes<X, P, N>, &[StandardVertex; 3]) -> bool,

    requires
        forall|i: usize| call_requires(*vertex_of, (i,)),
        forall|i: usize| call_requires(*polyline_of, (i,)),
        forall|s: &S| call_requires(*periods_of, (s,)),
        forall|s: &S, q: Q, h: Option<P>| call_requires(*sp, (s, q, h)),
        forall|a: Axis, h: P, p: T, q: P| call_requires(*order, (a, h, p, q)),
        forall|a: Axis, h: P, p: T, q: P, o: SeamOrder|
            call_ensures(*order, (a, h, p, q), o) ==> !o.cyclic(),
        forall|a: Axis, h: P, p: T, s: PeriodShift| call_requires(*apply, (a, h, p, s)),
        trimmer_ready(k),
    ensures
        shell_tessellated(
            shell,
            vertex_of,
            polyline_of,
            periods_of,
            sp,
            order,
            apply,
            trimming(k),
            &res,
        ),
        res.wf(),
{
    let n = shell.faces.len();
    let ghost sv = shell_view(shell.faces@);
    let mut registry: Registry<V, Q> = Registry::new(vertex_of, polyline_of);
    let mut faces: Vec<CompressedFace<Option<PolygonMesh<X, P, N>>>> = Vec::new();
    let mut f: usize = 0;
    while f < n
        invariant
            n == shell.faces@.len(),
            sv == shell_view(shell.faces@),
            f <= n,
            registry.wf(vertex_of, polyline_of),
            registry.tables() == see_shell(sv, f as int),
            faces@.len() == f,
            forall|i: usize| call_requires(*vertex_of, (i,)),
            forall|i: usize| call_requires(*polyline_of, (i,)),
            forall|s: &S| call_requires(*periods_of, (s,)),
            forall|s: &S, q: Q, h: Option<P>| call_requires(*sp, (s, q, h)),
            forall|a: Axis, h: P, p: T, q: P| call_requires(*order, (a, h, p, q)),
            forall|a: Axis, h: P, p: T, q: P, o: SeamOrder|
                call_ensures(*order, (a, h, p, q), o) ==> !o.cyclic(),
            forall|a: Axis, h: P, p: T, s: PeriodShift| call_requires(*apply, (a, h, p, s)),
            trimmer_ready(k),
            forall|g: int| 0 <= g < f ==> face_known(registry.tables().edges, #[trigger] sv[g]),
            forall|g: int|
                0 <= g < f ==> face_tessellated(
                    &shell.faces@[g].surface,
                    placed_boundaries(registry.tables().edges, sv[g]),
                    shell.faces@[g].orientation,
                    edge_curves(registry.edges_view()),
                    periods_of,
                    sp,
                    order,
                    apply,
                    trimming(k),
                    #[trigger] &faces@[g],
                ),
        decreases n - f,
    {
        let face = &shell.faces[f];
        let ghost before = registry;
        assert(sv[f as int] == uses_view(face.boundaries@));
        let boundaries = registry.face_places(&face.boundaries, vertex_of, polyline_of);
        let polygon = tessellate_boundaries(
            &face.surface,
            &boundaries,
            registry.edges(),
            periods_of,
            sp,
            order,
            apply,
            k,
        );
        faces.push(CompressedFace { boundaries, orientation: face.orientation, surface: polygon });
        proof {
            registry.lemma_extends(&before);
            registry.lemma_wf(vertex_of, polyline_of);
            before.lemma_wf(vertex_of, polyline_of);
            lemma_earlier_faces_stand(
                shell,
                sv,
                f as int,
                before.tables().edges,
                registry.tables().edges,
                edge_curves(before.edges_view()),
                edge_curves(registry.edges_view()),
                periods_of,
                sp,
                order,
                apply,
                trimming(k),
                faces@.take(f as int),
            );
            assert forall|g: int| 0 <= g < f + 1 implies face_tessellated(
                &shell.faces@[g].surface,
                placed_boundaries(registry.tables().edges, sv[g]),
                shell.faces@[g].orientation,
                edge_curves(registry.edges_view()),
                periods_of,
                sp,
                order,
                apply,
                trimming(k),
                #[trigger] &faces@[g],
            ) by {
                if g < f {
                    assert(faces@.take(f as int)[g] == faces@[g]);
                }
            }
        }
        f = f + 1;
    }
    proof {
        registry.lemma_wf(vertex_of, polyline_of);
    }
    let (vertices, edges) = registry.into_parts();
    let res = CompressedShell { vertices, edges, faces };
    proof {
        lemma_tessellated_shell_wf(
            shell,
            vertex_of,
            polyline_of,
            periods_of,
            sp,
            order,
            apply,
            trimming(k),
            &res,
        );
    }
    res
}

/// Faces tessellated before more edges were met stay tessellated faces of the
/// shell: their boundaries refer to the same places, and their edges have the
/// same polylines.
pub proof fn lemma_earlier_faces_stand<S, Q, P: Copy, T, M, PE, F, G, H>(
    shell: &Shell<S>,
    sv: Seq<Seq<Seq<EdgeUse>>>,
    f: int,
    edges: Seq<usize>,
    longer: Seq<usize>,
    curves: Seq<Seq<Q>>,
    more_curves: Seq<Seq<Q>>,
    periods_of: &PE,
    sp: &F,
    order: &G,
    apply: &H,
    meshed: spec_fn(S, Polyline<P>, M) -> bool,
    faces: Seq<CompressedFace<Option<M>>>,
) where
    PE: Fn(&S) -> (Option<T>, Option<T>),
    F: Fn(&S, Q, Option<P>) -> Option<P>,
    G: Fn(Axis, P, T, P) -> SeamOrder,
    H: Fn(Axis, P, T, PeriodShift) -> P,

    requires
        0 <= f <= sv.len(),
        sv.len() == shell.faces@.len(),
        faces.len() == f,
        begins(edges, longer),
        longer.no_duplicates(),
        begins(curves, more_curves),
        curves.len() == edges.len(),
        forall|g: int| 0 <= g < f ==> face_known(edges, #[trigger] sv[g]),
        forall|g: int|
            0 <= g < f ==> face_tessellated(
                &shell.faces@[g].surface,
                placed_boundaries(edges, sv[g]),
                shell.faces@[g].orientation,
                curves,
                periods_of,
                sp,
                order,
                apply,
                meshed,
                #[trigger] &faces[g],
            ),
    ensures
        forall|g: int| 0 <= g < f ==> face_known(longer, #[trigger] sv[g]),
        forall|g: int|
            0 <= g < f ==> face_tessellated(
                &shell.faces@[g].surface,
                placed_boundaries(longer, sv[g]),
                shell.faces@[g].orientation,
                more_curves,
                periods_of,
                sp,
                order,
                apply,
                meshed,
                #[trigger] &faces[g],
            ),
{
    assert forall|g: int| 0 <= g < f implies face_known(longer, #[trigger] sv[g])
        && face_tessellated(
        &shell.faces@[g].surface,
        placed_boundaries(longer, sv[g]),
        shell.faces@[g].orientation,
        more_curves,
        periods_of,
        sp,
        order,
        apply,
        meshed,
        &faces[g],
    ) by {
        assert(face_known(edges, sv[g]));
        lemma_placed_stable(edges, longer, sv[g]);
        lemma_face_curves_stable(curves, more_curves, placed_boundaries(edges, sv[g]));
    }
}

/// Tessellates a shell in two passes: the first walks the faces and places and
/// tessellates every edge; the second tessellates the faces, one by one and each
/// for itself, against the finished edges.
pub fn shell_tessellation<
    S,
    V,
    Q: Copy,
    P: Copy,
    T: Copy,
    X,
    N,
    TR,
    HD: Copy,
    R,
    VO,
    PL,
    PE,
    F,
    G,
    H,
    FR,
    I,
    L,
    A,
    SN,
    B,
    D,
    MK,
    PB,
    E,
    NM,
    CE,
    O,
>(
    shell: &Shell<S>,
    vertex_of: &VO,
    polyline_of: &PL,
    periods_of: &PE,
    sp: &F,
    order: &G,
    apply: &H,
    k: &Trimmer<FR, I, L, A, SN, B, D, MK, PB, E, NM, CE, O>,
) -> (res: CompressedShell<V, PolylineCurve<Q>, Option<PolygonMesh<X, P, N>>>) where
    VO: Fn(usize) -> V,
    PL: Fn(usize) -> PolylineCurve<Q>,
    PE: Fn(&S) -> (Option<T>, Option<T>),
    F: Fn(&S, Q, Option<P>) -> Option<P>,
    G: Fn(Axis, P, T, P) -> SeamOrder,
    H: Fn(Axis, P, T, PeriodShift) -> P,
    FR: Fn() -> TR,
    I: Fn(&TR, &P) -> Option<HD>,
    L: Fn(&TR, HD, HD) -> bool,
    A: Fn(&TR, HD, HD) -> bool,
    SN: Fn(&TR) -> (Vec<(usize, P)>, Vec<[usize; 3]>),
    B: Fn(&Polyline<P>) -> R,
    D: Fn(&S, R) -> (Vec<T>, Vec<T>),
    MK: Fn(T, T) -> P,
    PB: Fn(&P, &P, &P) -> RayProbe,
    E: Fn(&S, &P) -> X,
    NM: Fn(&S, &P) -> N,
    CE: Fn(&P, &P, &P) -> P,
    O: Fn(&StandardAttributes<X, P, N>, &[StandardVertex; 3]) -> bool,

    requires
        forall|i: usize| call_requires(*vertex_of, (i,)),
        forall|i: usize| call_requires(*polyline_of, (i,)),
        forall|s: &S| call_requires(*periods_of, (s,)),
        forall|s: &S, q: Q, h: Option<P>| call_requires(*sp, (s, q, h)),
        forall|a: Axis, h: P, p: T, q: P| call_requires(*order, (a, h, p, q)),
        forall|a: Axis, h: P, p: T, q: P, o: SeamOrder|
            call_ensures(*order, (a, h, p, q), o) ==> !o.cyclic(),
        forall|a: Axis, h: P, p: T, s: PeriodShift| call_requires(*apply, (a, h, p, s)),
        trimmer_ready(k),
    ensures
        shell_tessellated(
            shell,
            vertex_of,
            polyline_of,
            periods_of,
            sp,
            order,
            apply,
            trimming(k),
            &res,
        ),
        res.wf(),
{
    let n = shell.faces.len();
    let ghost sv = shell_view(shell.faces@);
    let mut registry: Registry<V, Q> = Registry::new(vertex_of, polyline_of);
    let mut placed: Vec<Vec<Vec<CompressedEdgeIndex>>> = Vec::new();
    let mut f: usize = 0;
    while f < n
        invariant
            n == shell.faces@.len(),
            sv == shell_view(shell.faces@),
            f <= n,
            registry.wf(vertex_of, polyline_of),
            registry.tables() == see_shell(sv, f as int),
            placed@.len() == f,
            forall|i: usize| call_requires(*vertex_of, (i,)),
            forall|i: usize| call_requires(*polyline_of, (i,)),
            forall|g: int| 0 <= g < f ==> face_known(registry.tables().edges, #[trigger] sv[g]),
            forall|g: int|
                0 <= g < f ==> boundaries_view((#[trigger] placed@[g])@) == placed_boundaries(
                    registry.tables().edges,
                    sv[g],
                ),
        decreases n - f,
    {
        let face = &shell.faces[f];
        let ghost before = registry;
        assert(sv[f as int] == uses_view(face.boundaries@));
        let boundaries = registry.face_places(&face.boundaries, vertex_of, polyline_of);
        placed.push(boundaries);
        proof {
            registry.lemma_extends(&before);
            registry.lemma_wf(vertex_of, polyline_of);
            assert forall|g: int| 0 <= g < f + 1 implies face_known(
                registry.tables().edges,
                #[trigger] sv[g],
            ) && boundaries_view(placed@[g]@) == placed_boundaries(
                registry.tables().edges,
                sv[g],
            ) by {
                if g < f {
                    assert(face_known(before.tables().edges, sv[g]));
                    lemma_placed_stable(before.tables().edges, registry.tables().edges, sv[g]);
                }
            }
        }
        f = f + 1;
    }
    let mut faces: Vec<CompressedFace<Option<PolygonMesh<X, P, N>>>> = Vec::new();
    let mut f: usize = 0;
    while f < n
        invariant
            n == shell.faces@.len(),
            sv == shell_view(shell.faces@),
            f <= n,
            placed@.len() == n,
            faces@.len() == f,
            forall|s: &S| call_requires(*periods_of, (s,)),
            forall|s: &S, q: Q, h: Option<P>| call_requires(*sp, (s, q, h)),
            forall|a: Axis, h: P, p: T, q: P| call_requires(*order, (a, h, p, q)),
            forall|a: Axis, h: P, p: T, q: P, o: SeamOrder|
                call_ensures(*order, (a, h, p, q), o) ==> !o.cyclic(),
            forall|a: Axis, h: P, p: T, s: PeriodShift| call_requires(*apply, (a, h, p, s)),
            trimmer_ready(k),
            forall|g: int|
                0 <= g < n ==> boundaries_view((#[trigger] placed@[g])@) == placed_boundaries(
                    registry.tables().edges,
                    sv[g],
                ),
            forall|g: int|
                0 <= g < f ==> face_tessellated(
                    &shell.faces@[g].surface,
                    placed_boundaries(registry.tables().edges, sv[g]),
                    shell.faces@[g].orientation,
                    edge_curves(registry.edges_view()),
                    periods_of,
                    sp,
                    order,
                    apply,
                    trimming(k),
                    #[trigger] &faces@[g],
                ),
        decreases n - f,
    {
        let face = &shell.faces[f];
        let boundaries = copy_boundaries(&placed[f]);
        let polygon = tessellate_boundaries(
            &face.surface,
            &placed[f],
            registry.edges(),
            periods_of,
            sp,
            order,
            apply,
            k,
        );
        faces.push(CompressedFace { boundaries, orientation: face.orientation, surface: polygon });
        f = f + 1;
    }
    proof {
        registry.lemma_wf(vertex_of, polyline_of);
    }
    let (vertices, edges) = registry.into_parts();
    let res = CompressedShell { vertices, edges, faces };
    proof {
        lemma_tessellated_shell_wf(
            shell,
            vertex_of,
            polyline_of,
            periods_of,
            sp,
            order,
            apply,
            trimming(k),
            &res,
        );
    }
    res
}

/// The two pipelines give shells of one structure: as many vertices, the same
/// edges between the same places, and the same faces with the same boundaries
/// and orientations. What stands at each place is, in both, something that the
/// same function made of the same argument.
pub proof fn lemma_pipelines_agree<S, V, Q, P: Copy, T, M, VO, PL, PE, F, G, H>(
    shell: &Shell<S>,
    vertex_of: &VO,
    polyline_of: &PL,
    periods_of: &PE,
    sp: &F,
    order: &G,
    apply: &H,
    meshed: spec_fn(S, Polyline<P>, M) -> bool,
    one: &CompressedShell<V, PolylineCurve<Q>, Option<M>>,
    other: &CompressedShell<V, PolylineCurve<Q>, Option<M>>,
) where
    VO: Fn(usize) -> V,
    PL: Fn(usize) -> PolylineCurve<Q>,
    PE: Fn(&S) -> (Option<T>, Option<T>),
    F: Fn(&S, Q, Option<P>) -> Option<P>,
    G: Fn(Axis, P, T, P) -> SeamOrder,
    H: Fn(Axis, P, T, PeriodShift) -> P,

    requires
        shell_tessellated(shell, vertex_of, polyline_of, periods_of, sp, order, apply, meshed, one),
        shell_tessellated(
            shell,
            vertex_of,
            polyline_of,
            periods_of,
            sp,
            order,
            apply,
            meshed,
            other,
        ),
    ensures
        one.vertices@.len() == other.vertices@.len(),
        one.edges@.len() == other.edges@.len(),
        forall|i: int|
            0 <= i < one.edges@.len() ==> (#[trigger] one.edges@[i]).vertices
                == other.edges@[i].vertices,
        one.faces@.len() == other.faces@.len(),
        forall|f: int|
            0 <= f < one.faces@.len() ==> boundaries_view((#[trigger] one.faces@[f]).boundaries@)
                == boundaries_view(other.faces@[f].boundaries@) && one.faces@[f].orientation
                == other.faces@[f].orientation,
{
    let t = see_shell(shell_view(shell.faces@), shell.faces@.len() as int);
    assert forall|i: int| 0 <= i < one.edges@.len() implies (#[trigger] one.edges@[i]).vertices
        == other.edges@[i].vertices by {
        assert(one.edges@[i].vertices == t.ends[i]);
        assert(other.edges@[i].vertices == t.ends[i]);
    }
    assert forall|f: int| 0 <= f < one.faces@.len() implies boundaries_view(
        (#[trigger] one.faces@[f]).boundaries@,
    ) == boundaries_view(other.faces@[f].boundaries@) && one.faces@[f].orientation
        == other.faces@[f].orientation by {
        let a = &one.faces@[f];
        let b = &other.faces@[f];
        assert(face_tessellated(
            &shell.faces@[f].surface,
            placed_boundaries(t.edges, uses_view(shell.faces@[f].boundaries@)),
            shell.faces@[f].orientation,
            edge_curves(one.edges@),
            periods_of,
            sp,
            order,
            apply,
            meshed,
            a,
        ));
        assert(face_tessellated(
            &shell.faces@[f].surface,
            placed_boundaries(t.edges, uses_view(shell.faces@[f].boundaries@)),
            shell.faces@[f].orientation,
            edge_curves(other.edges@),
            periods_of,
            sp,
            order,
            apply,
            meshed,
            b,
        ));
    }
}

/// Where `vertex_of` and `polyline_of` give one value for one identity, the two
/// pipelines agree on what stands at each place: the same vertices, and the same
/// polylines on the edges.
pub proof fn lemma_pipelines_agree_on_contents<S, V, Q, P: Copy, T, M, VO, PL, PE, F, G, H>(
    shell: &Shell<S>,
    vertex_of: &VO,
    polyline_of: &PL,
    periods_of: &PE,
    sp: &F,
    order: &G,
    apply: &H,
    meshed: spec_fn(S, Polyline<P>, M) -> bool,
    one: &CompressedShell<V, PolylineCurve<Q>, Option<M>>,
    other: &CompressedShell<V, PolylineCurve<Q>, Option<M>>,
) where
    VO: Fn(usize) -> V,
    PL: Fn(usize) -> PolylineCurve<Q>,
    PE: Fn(&S) -> (Option<T>, Option<T>),
    F: Fn(&S, Q, Option<P>) -> Option<P>,
    G: Fn(Axis, P, T, P) -> SeamOrder,
    H: Fn(Axis, P, T, PeriodShift) -> P,

    requires
        shell_tessellated(shell, vertex_of, polyline_of, periods_of, sp, order, apply, meshed, one),
        shell_tessellated(
            shell,
            vertex_of,
            polyline_of,
            periods_of,
            sp,
            order,
            apply,
            meshed,
            other,
        ),
        forall|id: usize, a: V, b: V|
            call_ensures(*vertex_of, (id,), a) && call_ensures(*vertex_of, (id,), b) ==> a == b,
        forall|id: usize, a: PolylineCurve<Q>, b: PolylineCurve<Q>|
            call_ensures(*polyline_of, (id,), a) && call_ensures(*polyline_of, (id,), b) ==> a
                == b,
    ensures
        one.vertices@ == other.vertices@,
        edge_curves(one.edges@) == edge_curves(other.edges@),
{
    let t = see_shell(shell_view(shell.faces@), shell.faces@.len() as int);
    assert forall|i: int| 0 <= i < one.vertices@.len() implies one.vertices@[i]
        == other.vertices@[i] by {
        assert(call_ensures(*vertex_of, (t.vertices[i],), one.vertices@[i]));
        assert(call_ensures(*vertex_of, (t.vertices[i],), other.vertices@[i]));
    }
    assert(one.vertices@ =~= other.vertices@);
    assert forall|i: int| 0 <= i < one.edges@.len() implies one.edges@[i].curve
        == other.edges@[i].curve by {
        assert(call_ensures(*polyline_of, (t.edges[i],), one.edges@[i].curve));
        assert(call_ensures(*polyline_of, (t.edges[i],), other.edges@[i].curve));
    }
    assert(edge_curves(one.edges@) =~= edge_curves(other.edges@));
}

/// Where the caller's functions give one result for one argument, the two
/// pipelines tessellate the same faces: a face has a mesh in both or in neither.
pub proof fn lemma_pipelines_mesh_the_same_faces<S, V, Q, P: Copy, T, M, VO, PL, PE, F, G, H>(
    shell: &Shell<S>,
    vertex_of: &VO,
    polyline_of: &PL,
    periods_of: &PE,
    sp: &F,
    order: &G,
    apply: &H,
    meshed: spec_fn(S, Polyline<P>, M) -> bool,
    one: &CompressedShell<V, PolylineCurve<Q>, Option<M>>,
    other: &CompressedShell<V, PolylineCurve<Q>, Option<M>>,
) where
    VO: Fn(usize) -> V,
    PL: Fn(usize) -> PolylineCurve<Q>,
    PE: Fn(&S) -> (Option<T>, Option<T>),
    F: Fn(&S, Q, Option<P>) -> Option<P>,
    G: Fn(Axis, P, T, P) -> SeamOrder,
    H: Fn(Axis, P, T, PeriodShift) -> P,

    requires
        shell_tessellated(shell, vertex_of, polyline_of, periods_of, sp, order, apply, meshed, one),
        shell_tessellated(
            shell,
            vertex_of,
            polyline_of,
            periods_of,
            sp,
            order,
            apply,
            meshed,
            other,
        ),
        forall|id: usize, a: PolylineCurve<Q>, b: PolylineCurve<Q>|
            call_ensures(*polyline_of, (id,), a) && call_ensures(*polyline_of, (id,), b) ==> a
                == b,
        forall|s: &S, a: (Option<T>, Option<T>), b: (Option<T>, Option<T>)|
            call_ensures(*periods_of, (s,), a) && call_ensures(*periods_of, (s,), b) ==> a == b,
        search_single_valued(sp),
        seam_single_valued(order, apply),
    ensures
        forall|f: int|
            0 <= f < shell.faces@.len() ==> (#[trigger] one.faces@[f]).surface.is_some()
                == other.faces@[f].surface.is_some(),
{
    let t = see_shell(shell_view(shell.faces@), shell.faces@.len() as int);
    assert forall|i: int| 0 <= i < one.edges@.len() implies one.edges@[i].curve
        == other.edges@[i].curve by {
        assert(call_ensures(*polyline_of, (t.edges[i],), one.edges@[i].curve));
        assert(call_ensures(*polyline_of, (t.edges[i],), other.edges@[i].curve));
    }
    assert(edge_curves(one.edges@) =~= edge_curves(other.edges@));
    let curves = edge_curves(one.edges@);
    assert forall|f: int| 0 <= f < shell.faces@.len() implies (
    #[trigger] one.faces@[f]).surface.is_some() == other.faces@[f].surface.is_some() by {
        let surface = &shell.faces@[f].surface;
        let boundaries = placed_boundaries(t.edges, uses_view(shell.faces@[f].boundaries@));
        let wires = face_curves(curves, boundaries);
        let r1 = one.faces@[f].surface;
        let r2 = other.faces@[f].surface;
        assert(face_tessellated(
            surface,
            boundaries,
            shell.faces@[f].orientation,
            curves,
            periods_of,
            sp,
            order,
            apply,
            meshed,
            &one.faces@[f],
        ));
        assert(face_tessellated(
            surface,
            boundaries,
            shell.faces@[f].orientation,
            curves,
            periods_of,
            sp,
            order,
            apply,
            meshed,
            &other.faces@[f],
        ));
        assert(boundaries_meshed(
            surface,
            boundaries,
            curves,
            periods_of,
            sp,
            order,
            apply,
            meshed,
            r1,
        ));
        assert(boundaries_meshed(
            surface,
            boundaries,
            curves,
            periods_of,
            sp,
            order,
            apply,
            meshed,
            r2,
        ));
        let p1 = choose|periods: (Option<T>, Option<T>)| #[trigger]
            call_ensures(*periods_of, (surface,), periods) && face_meshed(
                surface,
                wires,
                periods,
                sp,
                order,
                apply,
                meshed,
                r1,
            );
        let p2 = choose|periods: (Option<T>, Option<T>)| #[trigger]
            call_ensures(*periods_of, (surface,), periods) && face_meshed(
                surface,
                wires,
                periods,
                sp,
                order,
                apply,
                meshed,
                r2,
            );
        assert(p1 == p2);
        let s1 = choose|stages: Seq<Polyline<P>>| #[trigger]
            face_meshed_by(surface, wires, p1, sp, order, apply, meshed, r1, stages);
        let s2 = choose|stages: Seq<Polyline<P>>| #[trigger]
            face_meshed_by(surface, wires, p1, sp, order, apply, meshed, r2, stages);
        lemma_face_meshed_single_valued(
            surface,
            wires,
            p1,
            sp,
            order,
            apply,
            meshed,
            r1,
            s1,
            r2,
            s2,
        );
    }
}

} // verus!
