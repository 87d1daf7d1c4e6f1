use brep_tessellation::constraint::insert_surface;
use brep_tessellation::inclusion::RayProbe;
use brep_tessellation::mesh::{PolygonMesh, StandardAttributes, StandardVertex};
use brep_tessellation::polyline::Polyline;
use brep_tessellation::triangulation::triangulation_into_polymesh;
use brep_tessellation::trimming::{trimming_tessellation, Trimmer};
use spade::{ConstrainedDelaunayTriangulation, Triangulation};
use std::cell::RefCell;
use truck_base::cgmath64::{InnerSpace, Point2, Point3, Vector2, Vector3};
use truck_base::hash::HashGen;
use truck_base::tolerance::Origin;

type Cdt = RefCell<ConstrainedDelaunayTriangulation<spade::Point2<f64>>>;
type Handle = spade::handles::FixedVertexHandle;
type Range = ((f64, f64), (f64, f64));
type Mesh = PolygonMesh<Point3, Point2, Vector3>;

/// A plane that rises with `u` and `v`, with its normals up or down.
struct Plane {
    up: bool,
}

fn ray_probe(c: &Point2, a: &Point2, b: &Point2) -> RayProbe {
    let t = 2.0 * std::f64::consts::PI * HashGen::hash1(*c);
    let r = Vector2::new(f64::cos(t), f64::sin(t));
    let a = a - c;
    let b = b - c;
    let s0 = r[0] * a[1] - r[1] * a[0];
    let s1 = r[0] * b[1] - r[1] * b[0];
    let s2 = a[0] * b[1] - a[1] * b[0];
    let x = s2 / (s1 - s0);
    RayProbe {
        at_origin: x.so_small(),
        straddles: s0 * s1 < 0.0,
        ahead: x > 0.0,
        start_nonpos: s0 <= 0.0,
        start_nonneg: s0 >= 0.0,
        end_pos: s1 > 0.0,
        end_neg: s1 < 0.0,
    }
}

fn centroid(a: &Point2, b: &Point2, c: &Point2) -> Point2 {
    Point2::new((a.x + b.x + c.x) / 3.0, (a.y + b.y + c.y) / 3.0)
}

fn lift(_s: &Plane, uv: &Point2) -> Point3 {
    Point3::new(uv.x, uv.y, uv.x + 2.0 * uv.y)
}

fn normal(s: &Plane, _uv: &Point2) -> Vector3 {
    Vector3::new(0.0, 0.0, if s.up { 1.0 } else { -1.0 })
}

fn face_normal(attrs: &StandardAttributes<Point3, Point2, Vector3>, face: &[StandardVertex; 3]) -> Vector3 {
    let p = [
        attrs.positions[face[0].pos],
        attrs.positions[face[1].pos],
        attrs.positions[face[2].pos],
    ];
    (p[1] - p[0]).cross(p[2] - p[0])
}

fn vertex_normal(attrs: &StandardAttributes<Point3, Point2, Vector3>, face: &[StandardVertex; 3]) -> Vector3 {
    face.iter().fold(Vector3::new(0.0, 0.0, 0.0), |sum, v| match v.nor {
        Some(i) => sum + attrs.normals[i],
        None => sum,
    })
}

fn opposes(attrs: &StandardAttributes<Point3, Point2, Vector3>, face: &[StandardVertex; 3]) -> bool {
    vertex_normal(attrs, face).dot(face_normal(attrs, face)) < 0.0
}

fn loops(rings: &[&[(f64, f64)]]) -> Polyline<Point2> {
    let mut polyline: Polyline<Point2> = Polyline::new();
    for ring in rings {
        let start = polyline.positions.len();
        let n = ring.len();
        for (i, p) in ring.iter().enumerate() {
            polyline.positions.push(Point2::new(p.0, p.1));
            polyline.indices.push((start + i, start + (i + 1) % n));
        }
    }
    polyline
}

const OUTER: [(f64, f64); 4] = [(0.0, 0.0), (4.0, 0.0), (4.0, 4.0), (0.0, 4.0)];
const HOLE: [(f64, f64); 4] = [(1.0, 1.0), (1.0, 3.0), (3.0, 3.0), (3.0, 1.0)];

fn fresh() -> Cdt {
    RefCell::new(ConstrainedDelaunayTriangulation::new())
}

fn insert(cdt: &Cdt, p: &Point2) -> Option<Handle> {
    cdt.borrow_mut().insert(spade::Point2::new(p.x, p.y)).ok()
}

fn can_add(cdt: &Cdt, a: Handle, b: Handle) -> bool {
    cdt.borrow().can_add_constraint(a, b)
}

fn add_constraint(cdt: &Cdt, a: Handle, b: Handle) -> bool {
    cdt.borrow_mut().add_constraint(a, b)
}

fn snapshot(cdt: &Cdt) -> (Vec<(usize, Point2)>, Vec<[usize; 3]>) {
    let cdt = cdt.borrow();
    let vertices = cdt
        .vertices()
        .map(|v| {
            let p = v.position();
            (v.fix().index(), Point2::new(p.x, p.y))
        })
        .collect();
    let triangles = cdt
        .inner_faces()
        .map(|f| {
            let v = f.vertices();
            [v[0].fix().index(), v[1].fix().index(), v[2].fix().index()]
        })
        .collect();
    (vertices, triangles)
}

fn bounds(boundary: &Polyline<Point2>) -> Range {
    let mut range = (
        (f64::INFINITY, f64::NEG_INFINITY),
        (f64::INFINITY, f64::NEG_INFINITY),
    );
    for p in boundary.positions.iter() {
        range.0 = (f64::min(range.0 .0, p.x), f64::max(range.0 .1, p.x));
        range.1 = (f64::min(range.1 .0, p.y), f64::max(range.1 .1, p.y));
    }
    range
}

/// Divides each side of the range at its ends, an eighth in from each, and its middle.
fn division(_s: &Plane, range: Range) -> (Vec<f64>, Vec<f64>) {
    let cut = |(a, b): (f64, f64)| vec![a, a + (b - a) / 8.0, (a + b) / 2.0, b - (b - a) / 8.0, b];
    (cut(range.0), cut(range.1))
}

fn point(u: f64, v: f64) -> Point2 {
    Point2::new(u, v)
}

/// A triangulation that only counts the points it is given.
fn counting_insert(next: &RefCell<usize>, _p: &Point2) -> Option<usize> {
    let mut n = next.borrow_mut();
    *n += 1;
    Some(*n - 1)
}

#[test]
fn constraints_follow_the_segments() {
    let polyline = loops(&[&OUTER]);
    let attempts: RefCell<Vec<(usize, usize)>> = RefCell::new(Vec::new());
    let can_add = |_t: &RefCell<usize>, a: usize, b: usize| {
        attempts.borrow_mut().push((a, b));
        true
    };
    let added: RefCell<Vec<(usize, usize)>> = RefCell::new(Vec::new());
    let add = |_t: &RefCell<usize>, a: usize, b: usize| {
        added.borrow_mut().push((a, b));
        true
    };
    let res = polyline.insert_to(&RefCell::new(0), &counting_insert, &can_add, &add);
    assert_eq!(res.handles, vec![Some(0), Some(1), Some(2), Some(3)]);
    assert_eq!(res.constraints, vec![(0, 1), (1, 2), (2, 3), (3, 0)]);
    assert_eq!(*attempts.borrow(), vec![(0, 1), (1, 2), (2, 3), (3, 0)]);
    assert_eq!(*added.borrow(), vec![(0, 1), (1, 2), (2, 3), (3, 0)]);
}

#[test]
fn rejected_constraint_leaves_its_start_pending() {
    let polyline = loops(&[&OUTER]);
    let can_add = |_t: &RefCell<usize>, a: usize, b: usize| (a, b) != (1, 2);
    let add = |_t: &RefCell<usize>, _a: usize, _b: usize| true;
    let res = polyline.insert_to(&RefCell::new(0), &counting_insert, &can_add, &add);
    assert_eq!(res.constraints, vec![(0, 1), (1, 3), (3, 0)]);
}

#[test]
fn pending_start_is_kept_while_attempts_fail() {
    let polyline = loops(&[&OUTER]);
    let attempts: RefCell<Vec<(usize, usize)>> = RefCell::new(Vec::new());
    let can_add = |_t: &RefCell<usize>, a: usize, b: usize| {
        attempts.borrow_mut().push((a, b));
        a != 1 || b == 0
    };
    let add = |_t: &RefCell<usize>, _a: usize, _b: usize| true;
    let res = polyline.insert_to(&RefCell::new(0), &counting_insert, &can_add, &add);
    assert_eq!(*attempts.borrow(), vec![(0, 1), (1, 2), (1, 3), (1, 0)]);
    assert_eq!(res.constraints, vec![(0, 1), (1, 0)]);
}

#[test]
fn handles_stand_for_indices_in_the_calls() {
    let polyline = loops(&[&OUTER]);
    let insert = |_t: &(), p: &Point2| Some(100 + (p.x + 10.0 * p.y) as usize);
    let attempts: RefCell<Vec<(usize, usize)>> = RefCell::new(Vec::new());
    let can_add = |_t: &(), a: usize, b: usize| {
        attempts.borrow_mut().push((a, b));
        true
    };
    let add = |_t: &(), _a: usize, _b: usize| true;
    let res = polyline.insert_to(&(), &insert, &can_add, &add);
    assert_eq!(res.handles, vec![Some(100), Some(104), Some(144), Some(140)]);
    assert_eq!(
        *attempts.borrow(),
        vec![(100, 104), (104, 144), (144, 140), (140, 100)]
    );
    assert_eq!(res.constraints, vec![(0, 1), (1, 2), (2, 3), (3, 0)]);
}

#[test]
fn point_without_handle_cannot_be_constrained() {
    let polyline = loops(&[&OUTER]);
    let insert = |_t: &(), p: &Point2| {
        if p.x == 4.0 && p.y == 4.0 {
            None
        } else {
            Some((p.x + 10.0 * p.y) as usize)
        }
    };
    let attempts: RefCell<Vec<(usize, usize)>> = RefCell::new(Vec::new());
    let can_add = |_t: &(), a: usize, b: usize| {
        attempts.borrow_mut().push((a, b));
        true
    };
    let add = |_t: &(), _a: usize, _b: usize| true;
    let res = polyline.insert_to(&(), &insert, &can_add, &add);
    assert_eq!(res.handles, vec![Some(0), Some(4), None, Some(40)]);
    assert_eq!(*attempts.borrow(), vec![(0, 4), (4, 40), (40, 0)]);
    assert_eq!(res.constraints, vec![(0, 1), (1, 3), (3, 0)]);
}

#[test]
fn boundary_goes_into_a_triangulation() {
    let polyline = loops(&[&OUTER, &HOLE]);
    let cdt = fresh();
    let res = polyline.insert_to(&cdt, &insert, &can_add, &add_constraint);
    assert!(res.handles.iter().all(|h| h.is_some()));
    assert_eq!(res.constraints, polyline.indices);
    assert_eq!(cdt.borrow().num_vertices(), 8);
    assert_eq!(cdt.borrow().num_constraints(), 8);
}

#[test]
fn crossing_segment_is_skipped_in_a_triangulation() {
    let bow = [(0.0, 0.0), (2.0, 2.0), (2.0, 0.0), (0.0, 2.0)];
    let polyline = loops(&[&bow]);
    let cdt = fresh();
    let res = polyline.insert_to(&cdt, &insert, &can_add, &add_constraint);
    assert_eq!(res.constraints, vec![(0, 1), (1, 2), (2, 0)]);
    assert_eq!(cdt.borrow().num_constraints(), 3);
}

#[test]
fn surface_is_divided_over_the_bounds_of_the_boundary() {
    let polyline = loops(&[&OUTER, &HOLE]);
    let asked: RefCell<Vec<Range>> = RefCell::new(Vec::new());
    let division = |s: &Plane, range: Range| {
        assert!(s.up);
        asked.borrow_mut().push(range);
        (vec![0.5, 2.0, 3.5, 5.0], vec![0.5, 2.0])
    };
    let placed = insert_surface(
        &RefCell::new(0),
        &Plane { up: true },
        &polyline,
        &bounds,
        &division,
        &point,
        &ray_probe,
        &counting_insert,
    );
    assert_eq!(*asked.borrow(), vec![((0.0, 4.0), (0.0, 4.0))]);
    let got: Vec<(f64, f64, Option<usize>)> = placed.iter().map(|(p, h)| (p.x, p.y, *h)).collect();
    assert_eq!(
        got,
        vec![
            (0.5, 0.5, Some(0)),
            (0.5, 2.0, Some(1)),
            (2.0, 0.5, Some(2)),
            (3.5, 0.5, Some(3)),
            (3.5, 2.0, Some(4)),
        ]
    );
}

#[test]
fn handles_are_looked_up_not_assumed() {
    let polyline = loops(&[&[(0.0, 0.0), (3.0, 0.0), (0.0, 3.0)]]);
    let vertices = vec![
        (30usize, Point2::new(0.0, 0.0)),
        (10usize, Point2::new(3.0, 0.0)),
        (20usize, Point2::new(0.0, 3.0)),
    ];
    let triangles = vec![[10usize, 20, 30]];
    let mesh: Mesh = triangulation_into_polymesh(
        &vertices,
        &triangles,
        &Plane { up: true },
        &polyline,
        &lift,
        &normal,
        &centroid,
        &ray_probe,
    );
    let faces = mesh.faces().tri_faces();
    assert_eq!(faces.len(), 1);
    let corner = |i: usize| StandardVertex {
        pos: i,
        uv: Some(i),
        nor: Some(i),
    };
    assert_eq!(faces[0], [corner(1), corner(2), corner(0)]);
    let attrs = mesh.attributes();
    assert_eq!(
        attrs.positions,
        vec![Point3::new(0.0, 0.0, 0.0), Point3::new(3.0, 0.0, 3.0), Point3::new(0.0, 3.0, 6.0)]
    );
    assert_eq!(
        attrs.uv_coords,
        vec![Point2::new(0.0, 0.0), Point2::new(3.0, 0.0), Point2::new(0.0, 3.0)]
    );
    assert_eq!(attrs.normals, vec![Vector3::new(0.0, 0.0, 1.0); 3]);
    assert!(mesh.faces().quad_faces().is_empty());
    assert!(mesh.faces().other_faces().is_empty());
}

#[test]
fn triangle_outside_the_boundary_is_dropped() {
    let polyline = loops(&[&[(0.0, 0.0), (3.0, 0.0), (0.0, 3.0)]]);
    let vertices = vec![
        (0usize, Point2::new(0.0, 0.0)),
        (1usize, Point2::new(3.0, 0.0)),
        (2usize, Point2::new(0.0, 3.0)),
        (3usize, Point2::new(3.0, 3.0)),
    ];
    let triangles = vec![[1usize, 3, 2], [0usize, 1, 2]];
    let mesh: Mesh = triangulation_into_polymesh(
        &vertices,
        &triangles,
        &Plane { up: true },
        &polyline,
        &lift,
        &normal,
        &centroid,
        &ray_probe,
    );
    assert_eq!(mesh.attributes().positions.len(), 4);
    assert_eq!(mesh.faces().tri_faces().len(), 1);
    assert_eq!(mesh.faces().tri_faces()[0][0].pos, 0);
}

fn holed_mesh(up: bool) -> (Polyline<Point2>, Mesh) {
    let polyline = loops(&[&OUTER, &HOLE]);
    let trimmer = Trimmer {
        fresh,
        insert,
        can_add,
        add_constraint,
        snapshot,
        bounds,
        division,
        point,
        probe: ray_probe,
        subs: lift,
        normal,
        centroid,
        opposes,
    };
    let mesh = trimming_tessellation(&Plane { up }, &polyline, &trimmer);
    (polyline, mesh)
}

#[test]
fn no_triangle_lies_in_the_hole() {
    let (_, mesh) = holed_mesh(true);
    let attrs = mesh.attributes();
    let faces = mesh.faces().tri_faces();
    assert!(faces.len() >= 8);
    let mut area = 0.0;
    for face in faces.iter() {
        let uv = [
            attrs.uv_coords[face[0].uv.unwrap()],
            attrs.uv_coords[face[1].uv.unwrap()],
            attrs.uv_coords[face[2].uv.unwrap()],
        ];
        let c = centroid(&uv[0], &uv[1], &uv[2]);
        let in_outer = 0.0 < c.x && c.x < 4.0 && 0.0 < c.y && c.y < 4.0;
        let in_hole = 1.0 < c.x && c.x < 3.0 && 1.0 < c.y && c.y < 3.0;
        assert!(in_outer && !in_hole);
        area += f64::abs((uv[1] - uv[0]).perp_dot(uv[2] - uv[0])) / 2.0;
    }
    assert!(f64::abs(area - 12.0) < 1.0e-9);
}

#[test]
fn interior_samples_become_vertices() {
    let (polyline, mesh) = holed_mesh(true);
    let uv = &mesh.attributes().uv_coords;
    assert!(uv.len() > polyline.positions.len());
    assert!(uv.iter().any(|p| p.x == 0.5 && p.y == 0.5));
    assert!(uv.iter().all(|p| !(p.x == 2.0 && p.y == 2.0)));
}

#[test]
fn mesh_boundary_is_the_input_boundary() {
    let (polyline, mesh) = holed_mesh(true);
    let attrs = mesh.attributes();
    let key = |p: Point2| ((p.x * 1024.0) as i64, (p.y * 1024.0) as i64);
    let mut count: std::collections::HashMap<((i64, i64), (i64, i64)), usize> =
        std::collections::HashMap::new();
    for face in mesh.faces().tri_faces().iter() {
        for k in 0..3 {
            let a = key(attrs.uv_coords[face[k].uv.unwrap()]);
            let b = key(attrs.uv_coords[face[(k + 1) % 3].uv.unwrap()]);
            let edge = if a <= b { (a, b) } else { (b, a) };
            *count.entry(edge).or_insert(0) += 1;
        }
    }
    let mut rim: Vec<((i64, i64), (i64, i64))> =
        count.iter().filter(|(_, n)| **n == 1).map(|(e, _)| *e).collect();
    rim.sort();
    let mut expected: Vec<((i64, i64), (i64, i64))> = polyline
        .indices
        .iter()
        .map(|(i, j)| {
            let a = key(polyline.positions[*i]);
            let b = key(polyline.positions[*j]);
            if a <= b {
                (a, b)
            } else {
                (b, a)
            }
        })
        .collect();
    expected.sort();
    assert_eq!(rim, expected);
    assert!(count.values().all(|n| *n == 1 || *n == 2));
}

#[test]
fn winding_agrees_with_the_normals() {
    for up in [true, false] {
        let (_, mesh) = holed_mesh(up);
        let attrs = mesh.attributes();
        for face in mesh.faces().tri_faces().iter() {
            assert!(vertex_normal(attrs, face).dot(face_normal(attrs, face)) >= 0.0);
        }
    }
}

#[test]
fn opposed_triangles_are_turned_round() {
    let (_, up) = holed_mesh(true);
    let (_, down) = holed_mesh(false);
    let a = up.faces().tri_faces();
    let b = down.faces().tri_faces();
    assert_eq!(a.len(), b.len());
    let ccw = |mesh: &Mesh, face: &[StandardVertex; 3]| {
        let uv = &mesh.attributes().uv_coords;
        (uv[face[1].pos] - uv[face[0].pos]).perp_dot(uv[face[2].pos] - uv[face[0].pos]) > 0.0
    };
    assert!(a.iter().all(|f| ccw(&up, f)));
    assert!(b.iter().all(|f| !ccw(&down, f)));
}
