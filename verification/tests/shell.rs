use brep_tessellation::inclusion::RayProbe;
use brep_tessellation::mesh::{PolygonMesh, StandardAttributes, StandardVertex};
use brep_tessellation::polyline::Polyline;
use brep_tessellation::polyline_curve::PolylineCurve;
use brep_tessellation::seam::{Axis, PeriodShift, SeamOrder};
use brep_tessellation::shell::{
    cshell_tessellation, tessellate_compressed_face, tessellate_edge, CompressedEdge,
    CompressedEdgeIndex, CompressedFace, CompressedShell,
};
use brep_tessellation::topology::{
    shell_tessellation, shell_tessellation_single_thread, EdgeUse, FaceUse, Shell,
};
use brep_tessellation::trimming::Trimmer;
use spade::{ConstrainedDelaunayTriangulation, Triangulation};
use std::cell::RefCell;
use truck_base::cgmath64::{InnerSpace, Point2, Point3, Vector2, Vector3};
use truck_base::hash::HashGen;
use truck_base::tolerance::Origin;

type Cdt = RefCell<ConstrainedDelaunayTriangulation<spade::Point2<f64>>>;
type Handle = spade::handles::FixedVertexHandle;
type Range = ((f64, f64), (f64, f64));
type Mesh = PolygonMesh<Point3, Point2, Vector3>;
type Meshed = CompressedShell<Point3, PolylineCurve<Point3>, Option<Mesh>>;

fn ray_probe(c: &Point2, a: &Point2, b: &Point2) -> RayProbe {
    let t = 2.0 * std::f64::consts::PI * HashGen::hash1(*c);
    let r = Vector2::new(f64::cos(t), f64::sin(t));
    let a = a - c;
    let b = b - c;
    let s0 = r[0] * a[1] - r[1] * a[0];
    let s1 = r[0] * b[1] - r[1] * b[0];
    let s2 = a[0] * b[1] - a[1] * b[0];
    let x = s2 / (s1 - s0);
    RayProbe {
        at_origin: x.so_small(),
        straddles: s0 * s1 < 0.0,
        ahead: x > 0.0,
        start_nonpos: s0 <= 0.0,
        start_nonneg: s0 >= 0.0,
        end_pos: s1 > 0.0,
        end_neg: s1 < 0.0,
    }
}

fn seam_order(axis: Axis, h: Point2, p: f64, q: Point2) -> SeamOrder {
    let (h, q) = match axis {
        Axis::U => (h.x, q.x),
        Axis::V => (h.y, q.y),
    };
    let d0 = f64::abs(h - q);
    let d1 = f64::abs(h - p - q);
    let d2 = f64::abs(h + p - q);
    SeamOrder {
        keep_lt_minus: d0 < d1,
        minus_lt_plus: d1 < d2,
        plus_lt_keep: d2 < d0,
    }
}

fn seam_apply(axis: Axis, h: Point2, p: f64, shift: PeriodShift) -> Point2 {
    let d = match shift {
        PeriodShift::Keep => 0.0,
        PeriodShift::Minus => -p,
        PeriodShift::Plus => p,
    };
    match axis {
        Axis::U => Point2::new(h.x + d, h.y),
        Axis::V => Point2::new(h.x, h.y + d),
    }
}

/// A plane at a height; `blind` makes every inversion on it fail.
struct Plane {
    height: f64,
    blind: bool,
}

fn no_periods(_s: &Plane) -> (Option<f64>, Option<f64>) {
    (None, None)
}

fn invert(surface: &Plane, pt: Point3, _hint: Option<Point2>) -> Option<Point2> {
    if surface.blind {
        None
    } else {
        Some(Point2::new(pt.x, pt.y))
    }
}

fn opposes(attrs: &StandardAttributes<Point3, Point2, Vector3>, face: &[StandardVertex; 3]) -> bool {
    let p = [
        attrs.positions[face[0].pos],
        attrs.positions[face[1].pos],
        attrs.positions[face[2].pos],
    ];
    let n = attrs.normals[face[0].pos] + attrs.normals[face[1].pos] + attrs.normals[face[2].pos];
    n.dot((p[1] - p[0]).cross(p[2] - p[0])) < 0.0
}

fn fresh() -> Cdt {
    RefCell::new(ConstrainedDelaunayTriangulation::new())
}

fn insert(cdt: &Cdt, p: &Point2) -> Option<Handle> {
    cdt.borrow_mut().insert(spade::Point2::new(p.x, p.y)).ok()
}

fn can_add(cdt: &Cdt, a: Handle, b: Handle) -> bool {
    cdt.borrow().can_add_constraint(a, b)
}

fn add_constraint(cdt: &Cdt, a: Handle, b: Handle) -> bool {
    cdt.borrow_mut().add_constraint(a, b)
}

fn snapshot(cdt: &Cdt) -> (Vec<(usize, Point2)>, Vec<[usize; 3]>) {
    let cdt = cdt.borrow();
    let vertices: Vec<(usize, Point2)> = cdt
        .vertices()
        .map(|v| (v.fix().index(), Point2::new(v.position().x, v.position().y)))
        .collect();
    let triangles: Vec<[usize; 3]> = cdt
        .inner_faces()
        .map(|f| {
            let v = f.vertices();
            [v[0].fix().index(), v[1].fix().index(), v[2].fix().index()]
        })
        .collect();
    (vertices, triangles)
}

fn bounds(_boundary: &Polyline<Point2>) -> Range {
    ((0.0, 0.0), (0.0, 0.0))
}

fn division(_s: &Plane, _range: Range) -> (Vec<f64>, Vec<f64>) {
    (Vec::new(), Vec::new())
}

fn point(u: f64, v: f64) -> Point2 {
    Point2::new(u, v)
}

fn subs(surface: &Plane, uv: &Point2) -> Point3 {
    Point3::new(uv.x, uv.y, surface.height)
}

fn normal(_s: &Plane, _uv: &Point2) -> Vector3 {
    Vector3::new(0.0, 0.0, 1.0)
}

fn centroid(a: &Point2, b: &Point2, c: &Point2) -> Point2 {
    Point2::new((a.x + b.x + c.x) / 3.0, (a.y + b.y + c.y) / 3.0)
}

fn trimmer() -> Trimmer<
    impl Fn() -> Cdt,
    impl Fn(&Cdt, &Point2) -> Option<Handle>,
    impl Fn(&Cdt, Handle, Handle) -> bool,
    impl Fn(&Cdt, Handle, Handle) -> bool,
    impl Fn(&Cdt) -> (Vec<(usize, Point2)>, Vec<[usize; 3]>),
    impl Fn(&Polyline<Point2>) -> Range,
    impl Fn(&Plane, Range) -> (Vec<f64>, Vec<f64>),
    impl Fn(f64, f64) -> Point2,
    impl Fn(&Point2, &Point2, &Point2) -> RayProbe,
    impl Fn(&Plane, &Point2) -> Point3,
    impl Fn(&Plane, &Point2) -> Vector3,
    impl Fn(&Point2, &Point2, &Point2) -> Point2,
    impl Fn(&StandardAttributes<Point3, Point2, Vector3>, &[StandardVertex; 3]) -> bool,
> {
    Trimmer {
        fresh,
        insert,
        can_add,
        add_constraint,
        snapshot,
        bounds,
        division,
        point,
        probe: ray_probe,
        subs,
        normal,
        centroid,
        opposes,
    }
}

fn corner(id: usize) -> Point3 {
    match id {
        1 => Point3::new(0.0, 0.0, 0.0),
        2 => Point3::new(1.0, 0.0, 0.0),
        3 => Point3::new(1.0, 1.0, 0.0),
        4 => Point3::new(0.0, 1.0, 0.0),
        5 => Point3::new(2.0, 0.0, 0.0),
        6 => Point3::new(2.0, 1.0, 0.0),
        _ => panic!("no such vertex"),
    }
}

fn ends(id: usize) -> (usize, usize) {
    match id {
        10 => (1, 2),
        11 => (2, 3),
        12 => (3, 4),
        13 => (4, 1),
        14 => (2, 5),
        15 => (5, 6),
        16 => (6, 3),
        _ => panic!("no such edge"),
    }
}

fn straight(id: usize) -> PolylineCurve<Point3> {
    let (a, b) = ends(id);
    let (a, b) = (corner(a), corner(b));
    PolylineCurve(vec![a, a + (b - a) * 0.5, b])
}

fn edge_use(id: usize, orientation: bool) -> EdgeUse {
    let (front, back) = ends(id);
    EdgeUse {
        id,
        front,
        back,
        orientation,
    }
}

fn two_squares(second_blind: bool) -> Shell<Plane> {
    Shell {
        faces: vec![
            FaceUse {
                boundaries: vec![vec![
                    edge_use(10, true),
                    edge_use(11, true),
                    edge_use(12, true),
                    edge_use(13, true),
                ]],
                orientation: true,
                surface: Plane {
                    height: 0.0,
                    blind: false,
                },
            },
            FaceUse {
                boundaries: vec![vec![
                    edge_use(14, true),
                    edge_use(15, true),
                    edge_use(16, true),
                    edge_use(11, false),
                ]],
                orientation: false,
                surface: Plane {
                    height: 0.0,
                    blind: second_blind,
                },
            },
        ],
    }
}

fn lazy(shell: &Shell<Plane>) -> Meshed {
    shell_tessellation_single_thread(
        shell, &corner, &straight, &no_periods, &invert, &seam_order, &seam_apply, &trimmer(),
    )
}

fn eager(shell: &Shell<Plane>) -> Meshed {
    shell_tessellation(
        shell, &corner, &straight, &no_periods, &invert, &seam_order, &seam_apply, &trimmer(),
    )
}

fn uses(face: &CompressedFace<Option<Mesh>>) -> Vec<Vec<(usize, bool)>> {
    face.boundaries
        .iter()
        .map(|w| w.iter().map(|e| (e.index, e.orientation)).collect())
        .collect()
}

fn sorted_triangles(mesh: &Mesh) -> Vec<Vec<(i64, i64)>> {
    let uv = &mesh.attributes().uv_coords;
    let mut all: Vec<Vec<(i64, i64)>> = mesh
        .faces()
        .tri_faces()
        .iter()
        .map(|f| {
            let mut t: Vec<(i64, i64)> = f
                .iter()
                .map(|v| ((uv[v.pos].x * 1024.0) as i64, (uv[v.pos].y * 1024.0) as i64))
                .collect();
            t.sort();
            t
        })
        .collect();
    all.sort();
    all
}

#[test]
fn every_identity_gets_one_place() {
    let res = lazy(&two_squares(false));
    let expected: Vec<Point3> = (1..=6).map(corner).collect();
    assert_eq!(res.vertices, expected);
    let joined: Vec<(usize, usize)> = res.edges.iter().map(|e| e.vertices).collect();
    assert_eq!(
        joined,
        vec![(0, 1), (1, 2), (2, 3), (3, 0), (1, 4), (4, 5), (5, 2)]
    );
    for (edge, id) in res.edges.iter().zip(10..=16) {
        assert_eq!(edge.curve.0, straight(id).0);
    }
    assert_eq!(
        uses(&res.faces[0]),
        vec![vec![(0, true), (1, true), (2, true), (3, true)]]
    );
    assert_eq!(
        uses(&res.faces[1]),
        vec![vec![(4, true), (5, true), (6, true), (1, false)]]
    );
    assert!(res.faces[0].orientation);
    assert!(!res.faces[1].orientation);
}

#[test]
fn shared_edge_is_tessellated_once() {
    let vertex_calls = RefCell::new(Vec::new());
    let edge_calls = RefCell::new(Vec::new());
    let vertex_of = |id: usize| {
        vertex_calls.borrow_mut().push(id);
        corner(id)
    };
    let polyline_of = |id: usize| {
        edge_calls.borrow_mut().push(id);
        straight(id)
    };
    let shell = two_squares(false);
    let _: Meshed = shell_tessellation_single_thread(
        &shell, &vertex_of, &polyline_of, &no_periods, &invert, &seam_order, &seam_apply, &trimmer(),
    );
    assert_eq!(*vertex_calls.borrow(), vec![1, 2, 3, 4, 5, 6]);
    assert_eq!(*edge_calls.borrow(), vec![10, 11, 12, 13, 14, 15, 16]);
    vertex_calls.borrow_mut().clear();
    edge_calls.borrow_mut().clear();
    let _: Meshed = shell_tessellation(
        &shell, &vertex_of, &polyline_of, &no_periods, &invert, &seam_order, &seam_apply, &trimmer(),
    );
    assert_eq!(*vertex_calls.borrow(), vec![1, 2, 3, 4, 5, 6]);
    assert_eq!(*edge_calls.borrow(), vec![10, 11, 12, 13, 14, 15, 16]);
}

#[test]
fn faces_are_meshed_within_their_boundaries() {
    let res = lazy(&two_squares(false));
    let first = res.faces[0].surface.as_ref().unwrap();
    let second = res.faces[1].surface.as_ref().unwrap();
    assert_eq!(first.attributes().positions.len(), 8);
    assert_eq!(second.attributes().positions.len(), 8);
    let area = |mesh: &Mesh| -> f64 {
        let uv = &mesh.attributes().uv_coords;
        mesh.faces()
            .tri_faces()
            .iter()
            .map(|f| f64::abs((uv[f[1].pos] - uv[f[0].pos]).perp_dot(uv[f[2].pos] - uv[f[0].pos])) / 2.0)
            .sum()
    };
    assert!(f64::abs(area(first) - 1.0) < 1.0e-12);
    assert!(f64::abs(area(second) - 1.0) < 1.0e-12);
    assert!(second.attributes().uv_coords.iter().all(|p| p.x >= 1.0));
}

#[test]
fn both_pipelines_give_the_same_shell() {
    for blind in [false, true] {
        let shell = two_squares(blind);
        let a = lazy(&shell);
        let b = eager(&shell);
        assert_eq!(a.vertices, b.vertices);
        assert_eq!(a.edges.len(), b.edges.len());
        for (x, y) in a.edges.iter().zip(b.edges.iter()) {
            assert_eq!(x.vertices, y.vertices);
            assert_eq!(x.curve.0, y.curve.0);
        }
        assert_eq!(a.faces.len(), b.faces.len());
        for (x, y) in a.faces.iter().zip(b.faces.iter()) {
            assert_eq!(uses(x), uses(y));
            assert_eq!(x.orientation, y.orientation);
            match (&x.surface, &y.surface) {
                (Some(m), Some(n)) => {
                    assert_eq!(m.attributes().positions, n.attributes().positions);
                    assert_eq!(m.attributes().uv_coords, n.attributes().uv_coords);
                    assert_eq!(m.attributes().normals, n.attributes().normals);
                    assert_eq!(sorted_triangles(m), sorted_triangles(n));
                }
                (None, None) => {}
                _ => panic!("one pipeline meshed a face that the other did not"),
            }
        }
    }
}

#[test]
fn face_that_cannot_be_projected_keeps_its_topology() {
    for res in [lazy(&two_squares(true)), eager(&two_squares(true))] {
        assert!(res.faces[0].surface.is_some());
        assert!(res.faces[1].surface.is_none());
        assert_eq!(
            uses(&res.faces[1]),
            vec![vec![(4, true), (5, true), (6, true), (1, false)]]
        );
        assert_eq!(res.edges.len(), 7);
        assert_eq!(res.vertices.len(), 6);
    }
}

#[test]
fn empty_shell_stays_empty() {
    let shell: Shell<Plane> = Shell { faces: Vec::new() };
    let res = lazy(&shell);
    assert!(res.vertices.is_empty() && res.edges.is_empty() && res.faces.is_empty());
    let res = eager(&shell);
    assert!(res.vertices.is_empty() && res.edges.is_empty() && res.faces.is_empty());
}

fn line(curve: &(Point3, Point3)) -> PolylineCurve<Point3> {
    PolylineCurve(vec![curve.0, curve.0 + (curve.1 - curve.0) * 0.5, curve.1])
}

fn compressed_square() -> CompressedShell<Point3, (Point3, Point3), Plane> {
    let edge = |a: usize, b: usize| CompressedEdge {
        vertices: (a - 1, b - 1),
        curve: (corner(a), corner(b)),
    };
    let at = |index: usize, orientation: bool| CompressedEdgeIndex { index, orientation };
    CompressedShell {
        vertices: (1..=4).map(corner).collect(),
        edges: vec![edge(1, 2), edge(3, 2), edge(3, 4), edge(4, 1)],
        faces: vec![CompressedFace {
            boundaries: vec![vec![at(0, true), at(1, false), at(9, true), at(2, true), at(3, true)]],
            orientation: true,
            surface: Plane {
                height: 2.0,
                blind: false,
            },
        }],
    }
}

#[test]
fn compressed_shell_keeps_its_shape() {
    let shell = compressed_square();
    let res: Meshed = cshell_tessellation(
        &shell, &line, &no_periods, &invert, &seam_order, &seam_apply, &trimmer(),
    );
    assert_eq!(res.vertices, shell.vertices);
    assert_eq!(res.edges.len(), 4);
    for (a, b) in res.edges.iter().zip(shell.edges.iter()) {
        assert_eq!(a.vertices, b.vertices);
        assert_eq!(a.curve.0, line(&b.curve).0);
    }
    assert_eq!(res.faces.len(), 1);
    assert_eq!(res.faces[0].boundaries, shell.faces[0].boundaries);
    assert!(res.faces[0].orientation);
}

#[test]
fn edge_against_its_direction_is_run_backwards() {
    let shell = compressed_square();
    let seen: RefCell<Vec<(f64, f64)>> = RefCell::new(Vec::new());
    let sp = |_s: &Plane, pt: Point3, _h: Option<Point2>| {
        seen.borrow_mut().push((pt.x, pt.y));
        Some(Point2::new(pt.x, pt.y))
    };
    let res: Meshed = cshell_tessellation(
        &shell, &line, &no_periods, &sp, &seam_order, &seam_apply, &trimmer(),
    );
    assert_eq!(
        *seen.borrow(),
        vec![
            (0.0, 0.0),
            (0.5, 0.0),
            (1.0, 0.0),
            (1.0, 0.5),
            (1.0, 1.0),
            (0.5, 1.0),
            (0.0, 1.0),
            (0.0, 0.5),
        ]
    );
    let mesh = res.faces[0].surface.as_ref().unwrap();
    assert!(mesh.attributes().positions.iter().all(|p| p.z == 2.0));
    assert_eq!(mesh.attributes().positions.len(), 8);
}

#[test]
fn edges_and_faces_can_be_done_one_by_one() {
    let shell = compressed_square();
    let edges: Vec<CompressedEdge<PolylineCurve<Point3>>> =
        shell.edges.iter().map(|e| tessellate_edge(e, &line)).collect();
    let face: CompressedFace<Option<Mesh>> = tessellate_compressed_face(
        &shell.faces[0], &edges, &no_periods, &invert, &seam_order, &seam_apply, &trimmer(),
    );
    let whole: Meshed = cshell_tessellation(
        &shell, &line, &no_periods, &invert, &seam_order, &seam_apply, &trimmer(),
    );
    assert_eq!(face.boundaries, whole.faces[0].boundaries);
    assert_eq!(
        face.surface.as_ref().unwrap().attributes().positions,
        whole.faces[0].surface.as_ref().unwrap().attributes().positions
    );
}
