//! Polygon meshes: attributes in arrays, faces whose corners index them, and
//! the guarantee that every index lies within its array.
use rustc_hash::FxBuildHasher;
use rustc_hash::FxHashMap;
use vstd::prelude::*;

verus! {

/// The hasher builder of `rustc_hash`, carried by the index maps below.
#[verifier::external_type_specification]
#[verifier::external_body]
pub struct ExFxBuildHasher(FxBuildHasher);

/// `FxHashMap::default` of `rustc_hash`: a map that holds nothing.
#[verifier::external_body]
pub(crate) fn index_map_new() -> (res: FxHashMap<usize, usize>)
    ensures
        (res@ == Map::<usize, usize>::empty()),
{
    FxHashMap::default()
}

/// `HashMap::insert` on an `FxHashMap`: afterwards the map sends `key` to `value`
/// and every other key to what it sent it to before.
#[verifier::external_body]
pub(crate) fn index_map_insert(m: &mut FxHashMap<usize, usize>, key: usize, value: usize)
    ensures
        final(m)@ == old(m)@.insert(key, value),
{
    m.insert(key, value);
}

/// `HashMap::get` on an `FxHashMap`: what the map sends `key` to, if anything.
#[verifier::external_body]
pub(crate) fn index_map_get(m: &FxHashMap<usize, usize>, key: usize) -> (value: Option<usize>)
    ensures
        value == (if m@.contains_key(key) {
            Some(m@[key])
        } else {
            None
        }),
{
    m.get(&key).copied()
}

/// The indices of one corner of a face into the attributes of a mesh.
#[derive(Clone, Copy, Debug, PartialEq, Eq, Structural)]
pub struct StandardVertex {
    /// Index of the position.
    pub pos: usize,
    /// Index of the texture coordinate.
    pub uv: Option<usize>,
    /// Index of the normal.
    pub nor: Option<usize>,
}

impl StandardVertex {
    /// The corner whose position, texture coordinate and normal all have the index `i`.
    pub open spec fn uniform(i: usize) -> StandardVertex {
        StandardVertex { pos: i, uv: Some(i), nor: Some(i) }
    }
}

/// Per-vertex attributes of a mesh, each kind in an array of its own.
#[derive(Clone, Debug, PartialEq)]
pub struct StandardAttributes<Q, P, N> {
    /// Positions.
    pub positions: Vec<Q>,
    /// Texture coordinates.
    pub uv_coords: Vec<P>,
    /// Normals.
    pub normals: Vec<N>,
}

/// The attributes that one corner of a face refers to.
#[derive(Clone, Debug, PartialEq)]
pub struct StandardAttribute<Q, P, N> {
    pub position: Q,
    pub uv_coord: Option<P>,
    pub normal: Option<N>,
}

/// A container of attributes that corners of faces look up.
pub trait Attributes<V> {
    /// What a corner finds.
    type Output;

    /// The attributes of a corner, or none if the corner refers to what is not there.
    fn get(&self, vertex: V) -> Option<Self::Output>;
}

impl<Q, P, N> StandardAttributes<Q, P, N> {
    /// Every index of the corner lies within its array.
    pub open spec fn holds(&self, v: StandardVertex) -> bool {
        &&& v.pos < self.positions@.len()
        &&& v.uv matches Some(i) ==> i < self.uv_coords@.len()
        &&& v.nor matches Some(i) ==> i < self.normals@.len()
    }

    /// What the corner refers to.
    pub open spec fn at(&self, v: StandardVertex) -> StandardAttribute<Q, P, N> {
        StandardAttribute {
            position: self.positions@[v.pos as int],
            uv_coord: match v.uv {
                Some(i) => Some(self.uv_coords@[i as int]),
                None => None,
            },
            normal: match v.nor {
                Some(i) => Some(self.normals@[i as int]),
                None => None,
            },
        }
    }
}

impl<Q: Copy, P: Copy, N: Copy> Attributes<StandardVertex> for StandardAttributes<Q, P, N> {
    type Output = StandardAttribute<Q, P, N>;

    fn get(&self, vertex: StandardVertex) -> (res: Option<StandardAttribute<Q, P, N>>)
        ensures
            res.is_some() <==> self.holds(vertex),
            res matches Some(a) ==> a == self.at(vertex),
    {
        if vertex.pos >= self.positions.len() {
            return None;
        }
        let uv_coord = match vertex.uv {
            Some(i) => {
                if i >= self.uv_coords.len() {
                    return None;
                }
                Some(self.uv_coords[i])
            },
            None => None,
        };
        let normal = match vertex.nor {
            Some(i) => {
                if i >= self.normals.len() {
                    return None;
                }
                Some(self.normals[i])
            },
            None => None,
        };
        Some(StandardAttribute { position: self.positions[vertex.pos], uv_coord, normal })
    }
}

/// The faces of a mesh: triangles, quadrangles and other polygons, each kind in
/// an array of its own.
#[derive(Clone, Debug, PartialEq)]
pub struct Faces<V = StandardVertex> {
    tri_faces: Vec<[V; 3]>,
    quad_faces: Vec<[V; 4]>,
    other_faces: Vec<Vec<V>>,
}

impl<V> Faces<V> {
    /// The triangles.
    pub closed spec fn tri_view(&self) -> Seq<[V; 3]> {
        self.tri_faces@
    }

    /// The quadrangles.
    pub closed spec fn quad_view(&self) -> Seq<[V; 4]> {
        self.quad_faces@
    }

    /// The other polygons.
    pub closed spec fn other_view(&self) -> Seq<Vec<V>> {
        self.other_faces@
    }

    /// Faces from triangles and quadrangles.
    pub fn from_tri_and_quad_faces(tri_faces: Vec<[V; 3]>, quad_faces: Vec<[V; 4]>) -> (res: Faces<
        V,
    >)
        ensures
            res.tri_view() == tri_faces@,
            res.quad_view() == quad_faces@,
            res.other_view().len() == 0,
    {
        Faces { tri_faces, quad_faces, other_faces: Vec::new() }
    }

    /// The triangles.
    pub fn tri_faces(&self) -> (res: &Vec<[V; 3]>)
        ensures
            res@ == self.tri_view(),
    {
        &self.tri_faces
    }

    /// The quadrangles.
    pub fn quad_faces(&self) -> (res: &Vec<[V; 4]>)
        ensures
            res@ == self.quad_view(),
    {
        &self.quad_faces
    }

    /// The other polygons.
    pub fn other_faces(&self) -> (res: &Vec<Vec<V>>)
        ensures
            res@ == self.other_view(),
    {
        &self.other_faces
    }
}

/// Every corner of every face refers to attributes that exist.
pub open spec fn faces_hold<Q, P, N>(attributes: &StandardAttributes<Q, P, N>, faces: &Faces) -> bool {
    &&& forall|f: int, k: int|
        0 <= f < faces.tri_view().len() && 0 <= k < 3 ==> attributes.holds(
            #[trigger] faces.tri_view()[f][k],
        )
    &&& forall|f: int, k: int|
        0 <= f < faces.quad_view().len() && 0 <= k < 4 ==> attributes.holds(
            #[trigger] faces.quad_view()[f][k],
        )
    &&& forall|f: int, k: int|
        0 <= f < faces.other_view().len() && 0 <= k < faces.other_view()[f]@.len()
            ==> attributes.holds(#[trigger] faces.other_view()[f]@[k])
}

/// The corners of a polygon in the opposite order.
fn reversed(face: &Vec<StandardVertex>) -> (res: Vec<StandardVertex>)
    ensures
        res@ == face@.reverse(),
{
    let n = face.len();
    let mut res: Vec<StandardVertex> = Vec::new();
    let mut k: usize = 0;
    while k < n
        invariant
            n == face@.len(),
            k <= n,
            res@.len() == k,
            forall|i: int| 0 <= i < k ==> res@[i] == face@[n - 1 - i],
        decreases n - k,
    {
        res.push(face[n - 1 - k]);
        k = k + 1;
    }
    assert(res@ =~= face@.reverse());
    res
}

/// Run through in the opposite direction twice, a face is as it was.
pub proof fn lemma_reverse_twice(face: Seq<StandardVertex>)
    ensures
        face.reverse().reverse() == face,
{
    assert(face.reverse().reverse() =~= face);
}

/// `after` is `before` made to agree with the normals: run through in the
/// opposite direction if `opposes` reported it, and unchanged if not.
pub open spec fn turned<Q, P, N, O: Fn(&StandardAttributes<Q, P, N>, &[StandardVertex; 3]) -> bool>(
    attributes: &StandardAttributes<Q, P, N>,
    opposes: &O,
    before: [StandardVertex; 3],
    after: [StandardVertex; 3],
) -> bool {
    exists|flip: bool| #[trigger]
        call_ensures(*opposes, (attributes, &before), flip) && after@ == if flip {
            before@.reverse()
        } else {
            before@
        }
}

/// Why attributes and faces make no mesh.
#[derive(Clone, Copy, Debug, PartialEq, Eq, Structural)]
pub enum MeshError {
    /// A corner of a face refers to an attribute that is not there.
    OutOfRange,
}

/// Tells whether the corner refers to attributes that exist.
fn corner_holds<Q, P, N>(attributes: &StandardAttributes<Q, P, N>, v: StandardVertex) -> (res: bool)
    ensures
        res == attributes.holds(v),
{
    let uv_ok = match v.uv {
        Some(i) => i < attributes.uv_coords.len(),
        None => true,
    };
    let nor_ok = match v.nor {
        Some(i) => i < attributes.normals.len(),
        None => true,
    };
    v.pos < attributes.positions.len() && uv_ok && nor_ok
}

/// Tells whether every corner of every face refers to attributes that exist.
fn corners_hold<Q, P, N>(attributes: &StandardAttributes<Q, P, N>, faces: &Faces) -> (res: bool)
    ensures
        res == faces_hold(attributes, faces),
{
    let mut f: usize = 0;
    while f < faces.tri_faces.len()
        invariant
            f <= faces.tri_faces@.len(),
            forall|g: int, k: int|
                0 <= g < f && 0 <= k < 3 ==> attributes.holds(#[trigger] faces.tri_view()[g][k]),
        decreases faces.tri_faces@.len() - f,
    {
        let face = faces.tri_faces[f];
        if !(corner_holds(attributes, face[0]) && corner_holds(attributes, face[1])
            && corner_holds(attributes, face[2])) {
            proof {
                assert(!attributes.holds(faces.tri_view()[f as int][0]) || !attributes.holds(
                    faces.tri_view()[f as int][1],
                ) || !attributes.holds(faces.tri_view()[f as int][2]));
            }
            return false;
        }
        f = f + 1;
    }
    let mut f: usize = 0;
    while f < faces.quad_faces.len()
        invariant
            f <= faces.quad_faces@.len(),
            forall|g: int, k: int|
                0 <= g < faces.tri_view().len() && 0 <= k < 3 ==> attributes.holds(
                    #[trigger] faces.tri_view()[g][k],
                ),
            forall|g: int, k: int|
                0 <= g < f && 0 <= k < 4 ==> attributes.holds(#[trigger] faces.quad_view()[g][k]),
        decreases faces.quad_faces@.len() - f,
    {
        let face = faces.quad_faces[f];
        if !(corner_holds(attributes, face[0]) && corner_holds(attributes, face[1])
            && corner_holds(attributes, face[2]) && corner_holds(attributes, face[3])) {
            proof {
                assert(!attributes.holds(faces.quad_view()[f as int][0]) || !attributes.holds(
                    faces.quad_view()[f as int][1],
                ) || !attributes.holds(faces.quad_view()[f as int][2]) || !attributes.holds(
                    faces.quad_view()[f as int][3],
                ));
            }
            return false;
        }
        f = f + 1;
    }
    let mut f: usize = 0;
    while f < faces.other_faces.len()
        invariant
            f <= faces.other_faces@.len(),
            forall|g: int, k: int|
                0 <= g < faces.tri_view().len() && 0 <= k < 3 ==> attributes.holds(
                    #[trigger] faces.tri_view()[g][k],
                ),
            forall|g: int, k: int|
                0 <= g < faces.quad_view().len() && 0 <= k < 4 ==> attributes.holds(
                    #[trigger] faces.quad_view()[g][k],
                ),
            forall|g: int, k: int|
                0 <= g < f && 0 <= k < faces.other_view()[g]@.len() ==> attributes.holds(
                    #[trigger] faces.other_view()[g]@[k],
                ),
        decreases faces.other_faces@.len() - f,
    {
        let face = &faces.other_faces[f];
        let mut k: usize = 0;
        while k < face.len()
            invariant
                f < faces.other_faces@.len(),
                *face == faces.other_view()[f as int],
                k <= face@.len(),
                forall|j: int| 0 <= j < k ==> attributes.holds(#[trigger] face@[j]),
            decreases face@.len() - k,
        {
            if !corner_holds(attributes, face[k]) {
                proof {
                    assert(!attributes.holds(faces.other_view()[f as int]@[k as int]));
                }
                return false;
            }
            k = k + 1;
        }
        f = f + 1;
    }
    true
}

/// A polygon mesh: attributes in arrays, and faces whose corners index them.
#[derive(Clone, Debug, PartialEq)]
pub struct PolygonMesh<Q, P, N> {
    attributes: StandardAttributes<Q, P, N>,
    faces: Faces,
}

impl<Q, P, N> PolygonMesh<Q, P, N> {
    /// The attributes.
    pub closed spec fn attributes_view(&self) -> StandardAttributes<Q, P, N> {
        self.attributes
    }

    /// The faces.
    pub closed spec fn faces_view(&self) -> Faces {
        self.faces
    }

    /// Every corner of every face refers to attributes that exist.
    pub open spec fn wf(&self) -> bool {
        faces_hold(&self.attributes_view(), &self.faces_view())
    }

    /// A mesh of the attributes and faces, if every corner of every face refers
    /// to attributes that exist.
    pub fn try_new(attributes: StandardAttributes<Q, P, N>, faces: Faces) -> (res: Result<
        PolygonMesh<Q, P, N>,
        MeshError,
    >)
        ensures
            res.is_ok() <==> faces_hold(&attributes, &faces),
            res matches Ok(mesh) ==> mesh.attributes_view() == attributes && mesh.faces_view()
                == faces && mesh.wf(),
            res matches Err(e) ==> e == MeshError::OutOfRange,
    {
        if corners_hold(&attributes, &faces) {
            Ok(PolygonMesh { attributes, faces })
        } else {
            Err(MeshError::OutOfRange)
        }
    }

    /// A mesh of attributes and faces that fit together.
    pub fn debug_new(attributes: StandardAttributes<Q, P, N>, faces: Faces) -> (res: PolygonMesh<
        Q,
        P,
        N,
    >)
        requires
            faces_hold(&attributes, &faces),
        ensures
            res.attributes_view() == attributes,
            res.faces_view() == faces,
            res.wf(),
    {
        PolygonMesh { attributes, faces }
    }

    /// This mesh is `before` with the winding of its triangles made to agree
    /// with the normals: the same attributes, quadrangles and other polygons, and
    /// each triangle turned or not as `opposes` reported of it.
    pub open spec fn normalized_from<O>(&self, before: &PolygonMesh<Q, P, N>, opposes: &O) -> bool where
        O: Fn(&StandardAttributes<Q, P, N>, &[StandardVertex; 3]) -> bool,
     {
        &&& self.wf()
        &&& self.attributes_view() == before.attributes_view()
        &&& self.faces_view().quad_view() == before.faces_view().quad_view()
        &&& self.faces_view().other_view() == before.faces_view().other_view()
        &&& self.faces_view().tri_view().len() == before.faces_view().tri_view().len()
        &&& forall|f: int|
            0 <= f < before.faces_view().tri_view().len() ==> turned(
                &before.attributes_view(),
                opposes,
                before.faces_view().tri_view()[f],
                #[trigger] self.faces_view().tri_view()[f],
            )
    }

    /// Makes the winding of the triangles agree with the normals at their
    /// corners: every triangle that `opposes` reports is run through in the
    /// opposite direction, and every other face is left as it is.
    pub fn make_face_compatible_to_normal<O>(&mut self, opposes: &O) where
        O: Fn(&StandardAttributes<Q, P, N>, &[StandardVertex; 3]) -> bool,

        requires
            old(self).wf(),
            forall|a: &StandardAttributes<Q, P, N>, f: &[StandardVertex; 3]|
                call_requires(*opposes, (a, f)),
        ensures
            final(self).normalized_from(old(self), opposes),
    {
        let n = self.faces.tri_faces.len();
        let mut f: usize = 0;
        while f < n
            invariant
                n == old(self).faces.tri_faces@.len(),
                n == self.faces.tri_faces@.len(),
                f <= n,
                self.wf(),
                self.attributes == old(self).attributes,
                self.faces.quad_faces == old(self).faces.quad_faces,
                self.faces.other_faces == old(self).faces.other_faces,
                forall|a: &StandardAttributes<Q, P, N>, g: &[StandardVertex; 3]|
                    call_requires(*opposes, (a, g)),
                forall|g: int|
                    0 <= g < f ==> turned(
                        &self.attributes,
                        opposes,
                        old(self).faces.tri_faces@[g],
                        #[trigger] self.faces.tri_faces@[g],
                    ),
                forall|g: int|
                    f <= g < n ==> #[trigger] self.faces.tri_faces@[g] == old(
                        self,
                    ).faces.tri_faces@[g],
            decreases n - f,
        {
            let face = self.faces.tri_faces[f];
            let ghost before = self.faces.tri_faces@;
            let ghost earlier = self.faces_view();
            proof {
                assert(faces_hold(&self.attributes_view(), &self.faces_view()));
                assert(self.faces_view().tri_view() == before);
                assert(self.attributes.holds(self.faces_view().tri_view()[f as int][0]));
                assert(self.attributes.holds(self.faces_view().tri_view()[f as int][1]));
                assert(self.attributes.holds(self.faces_view().tri_view()[f as int][2]));
            }
            if opposes(&self.attributes, &face) {
                let flipped = [face[2], face[1], face[0]];
                assert(flipped@ =~= face@.reverse());
                self.faces.tri_faces.set(f, flipped);
            }
            proof {
                let ghost now = self.faces_view().tri_view();
                assert(self.faces_view().quad_view() == earlier.quad_view());
                assert(self.faces_view().other_view() == earlier.other_view());
                assert forall|g: int, k: int|
                    0 <= g < now.len() && 0 <= k < 3 implies self.attributes_view().holds(
                    #[trigger] now[g][k],
                ) by {
                    if g != f {
                        assert(now[g] == before[g]);
                        assert(self.attributes.holds(before[g][k]));
                    } else {
                        assert(now[g][k] == before[g][0] || now[g][k] == before[g][1] || now[g][k]
                            == before[g][2]);
                    }
                }
            }
            f = f + 1;
        }
    }

    /// This mesh is `before` seen from the other side: the same positions and
    /// texture coordinates, each normal what `negate` made of the normal before,
    /// and every face run through in the opposite direction.
    pub open spec fn inverted_from<NG: Fn(&N) -> N>(
        &self,
        before: &PolygonMesh<Q, P, N>,
        negate: &NG,
    ) -> bool {
        let now = self.attributes_view();
        let was = before.attributes_view();
        &&& self.wf()
        &&& now.positions == was.positions
        &&& now.uv_coords == was.uv_coords
        &&& now.normals@.len() == was.normals@.len()
        &&& forall|i: int|
            0 <= i < was.normals@.len() ==> call_ensures(
                *negate,
                (&was.normals@[i],),
                #[trigger] now.normals@[i],
            )
        &&& self.faces_view().tri_view().len() == before.faces_view().tri_view().len()
        &&& forall|f: int|
            0 <= f < before.faces_view().tri_view().len() ==> (
            #[trigger] self.faces_view().tri_view()[f])@ == before.faces_view().tri_view()[f]@.reverse()
        &&& self.faces_view().quad_view().len() == before.faces_view().quad_view().len()
        &&& forall|f: int|
            0 <= f < before.faces_view().quad_view().len() ==> (
            #[trigger] self.faces_view().quad_view()[f])@
                == before.faces_view().quad_view()[f]@.reverse()
        &&& self.faces_view().other_view().len() == before.faces_view().other_view().len()
        &&& forall|f: int|
            0 <= f < before.faces_view().other_view().len() ==> (
            #[trigger] self.faces_view().other_view()[f])@
                == before.faces_view().other_view()[f]@.reverse()
    }

    /// Turns the mesh to its other side: negates every normal and reverses the
    /// winding of every face.
    pub fn invert<NG: Fn(&N) -> N>(&mut self, negate: &NG)
        requires
            old(self).wf(),
            forall|n: &N| call_requires(*negate, (n,)),
        ensures
            final(self).inverted_from(old(self), negate),
    {
        let mut normals: Vec<N> = Vec::new();
        let mut i: usize = 0;
        while i < self.attributes.normals.len()
            invariant
                *self == *old(self),
                i <= self.attributes.normals@.len(),
                normals@.len() == i,
                forall|n: &N| call_requires(*negate, (n,)),
                forall|j: int|
                    0 <= j < i ==> call_ensures(
                        *negate,
                        (&self.attributes.normals@[j],),
                        #[trigger] normals@[j],
                    ),
            decreases self.attributes.normals@.len() - i,
        {
            normals.push(negate(&self.attributes.normals[i]));
            i = i + 1;
        }
        let mut tri_faces: Vec<[StandardVertex; 3]> = Vec::new();
        let mut f: usize = 0;
        while f < self.faces.tri_faces.len()
            invariant
                *self == *old(self),
                f <= self.faces.tri_faces@.len(),
                tri_faces@.len() == f,
                forall|g: int|
                    0 <= g < f ==> (#[trigger] tri_faces@[g])@
                        == self.faces.tri_faces@[g]@.reverse(),
            decreases self.faces.tri_faces@.len() - f,
        {
            let face = self.faces.tri_faces[f];
            let turned = [face[2], face[1], face[0]];
            assert(turned@ =~= face@.reverse());
            tri_faces.push(turned);
            f = f + 1;
        }
        let mut quad_faces: Vec<[StandardVertex; 4]> = Vec::new();
        let mut f: usize = 0;
        while f < self.faces.quad_faces.len()
            invariant
                *self == *old(self),
                f <= self.faces.quad_faces@.len(),
                quad_faces@.len() == f,
                forall|g: int|
                    0 <= g < f ==> (#[trigger] quad_faces@[g])@
                        == self.faces.quad_faces@[g]@.reverse(),
            decreases self.faces.quad_faces@.len() - f,
        {
            let face = self.faces.quad_faces[f];
            let turned = [face[3], face[2], face[1], face[0]];
            assert(turned@ =~= face@.reverse());
            quad_faces.push(turned);
            f = f + 1;
        }
        let mut other_faces: Vec<Vec<StandardVertex>> = Vec::new();
        let mut f: usize = 0;
        while f < self.faces.other_faces.len()
            invariant
                *self == *old(self),
                f <= self.faces.other_faces@.len(),
                other_faces@.len() == f,
                forall|g: int|
                    0 <= g < f ==> (#[trigger] other_faces@[g])@
                        == self.faces.other_faces@[g]@.reverse(),
            decreases self.faces.other_faces@.len() - f,
        {
            let turned = reversed(&self.faces.other_faces[f]);
            other_faces.push(turned);
            f = f + 1;
        }
        proof {
            let was = old(self).faces_view();
            let attrs = old(self).attributes_view();
            assert(faces_hold(&attrs, &was));
            assert forall|g: int, k: int| 0 <= g < tri_faces@.len() && 0 <= k < 3 implies (
            attrs.holds(#[trigger] tri_faces@[g][k])) by {
                assert(tri_faces@[g]@[k] == was.tri_view()[g]@[2 - k]);
                assert(attrs.holds(was.tri_view()[g][2 - k]));
            }
            assert forall|g: int, k: int| 0 <= g < quad_faces@.len() && 0 <= k < 4 implies (
            attrs.holds(#[trigger] quad_faces@[g][k])) by {
                assert(quad_faces@[g]@[k] == was.quad_view()[g]@[3 - k]);
                assert(attrs.holds(was.quad_view()[g][3 - k]));
            }
            assert forall|g: int, k: int|
                0 <= g < other_faces@.len() && 0 <= k < other_faces@[g]@.len() implies (
            attrs.holds(#[trigger] other_faces@[g]@[k])) by {
                let n = was.other_view()[g]@.len();
                assert(other_faces@[g]@[k] == was.other_view()[g]@[n - 1 - k]);
                assert(attrs.holds(was.other_view()[g]@[n - 1 - k]));
            }
        }
        self.attributes.normals = normals;
        self.faces.tri_faces = tri_faces;
        self.faces.quad_faces = quad_faces;
        self.faces.other_faces = other_faces;
    }

    /// The attributes.
    pub fn attributes(&self) -> (res: &StandardAttributes<Q, P, N>)
        ensures
            *res == self.attributes_view(),
    {
        &self.attributes
    }

    /// The faces.
    pub fn faces(&self) -> (res: &Faces)
        ensures
            *res == self.faces_view(),
    {
        &self.faces
    }
}

} // verus!
