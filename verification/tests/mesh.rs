use brep_tessellation::face::tessellate_face;
use brep_tessellation::inclusion::RayProbe;
use brep_tessellation::mesh::{
    Attributes, Faces, MeshError, PolygonMesh, StandardAttributes, StandardVertex,
};
use brep_tessellation::triangulation::is_triangulation;
use brep_tessellation::trimming::Trimmer;
use std::cell::{Cell, RefCell};
use brep_tessellation::polyline::Polyline;
use brep_tessellation::polyline_curve::PolylineCurve;
use brep_tessellation::seam::{Axis, PeriodShift, SeamOrder};

fn corner(i: usize) -> StandardVertex {
    StandardVertex {
        pos: i,
        uv: Some(i),
        nor: Some(i),
    }
}

fn attributes() -> StandardAttributes<u32, u16, u8> {
    StandardAttributes {
        positions: vec![10, 11, 12, 13],
        uv_coords: vec![20, 21, 22],
        normals: vec![30, 31],
    }
}

#[test]
fn corner_finds_its_attributes() {
    let attrs = attributes();
    let found = attrs.get(corner(1)).unwrap();
    assert_eq!((found.position, found.uv_coord, found.normal), (11, Some(21), Some(31)));
    let bare = attrs
        .get(StandardVertex {
            pos: 3,
            uv: None,
            nor: None,
        })
        .unwrap();
    assert_eq!((bare.position, bare.uv_coord, bare.normal), (13, None, None));
}

#[test]
fn corner_out_of_range_finds_nothing() {
    let attrs = attributes();
    assert!(attrs.get(corner(2)).is_none());
    assert!(attrs
        .get(StandardVertex {
            pos: 4,
            uv: None,
            nor: None
        })
        .is_none());
    assert!(attrs
        .get(StandardVertex {
            pos: 0,
            uv: Some(3),
            nor: None
        })
        .is_none());
    assert!(attrs
        .get(StandardVertex {
            pos: 0,
            uv: None,
            nor: Some(2)
        })
        .is_none());
}

fn small_mesh() -> PolygonMesh<u32, u16, u8> {
    let attrs = StandardAttributes {
        positions: vec![10, 11, 12, 13],
        uv_coords: vec![20, 21, 22, 23],
        normals: vec![30, 31, 32, 33],
    };
    let faces = Faces::from_tri_and_quad_faces(
        vec![[corner(0), corner(1), corner(2)], [corner(0), corner(2), corner(3)]],
        vec![[corner(0), corner(1), corner(2), corner(3)]],
    );
    PolygonMesh::debug_new(attrs, faces)
}

#[test]
fn mesh_holds_what_it_was_made_of() {
    let mesh = small_mesh();
    assert_eq!(mesh.attributes().positions, vec![10, 11, 12, 13]);
    assert_eq!(mesh.faces().tri_faces().len(), 2);
    assert_eq!(mesh.faces().quad_faces().len(), 1);
    assert!(mesh.faces().other_faces().is_empty());
}

#[test]
fn only_opposed_triangles_are_reversed() {
    let mut mesh = small_mesh();
    let opposes = |attrs: &StandardAttributes<u32, u16, u8>, face: &[StandardVertex; 3]| {
        attrs.positions[face[2].pos] == 13
    };
    mesh.make_face_compatible_to_normal(&opposes);
    let faces = mesh.faces().tri_faces();
    assert_eq!(faces[0], [corner(0), corner(1), corner(2)]);
    assert_eq!(faces[1], [corner(3), corner(2), corner(0)]);
    assert_eq!(mesh.faces().quad_faces()[0], [corner(0), corner(1), corner(2), corner(3)]);
    assert_eq!(mesh.attributes().normals, vec![30, 31, 32, 33]);
}

#[test]
fn polyline_curve_pops_and_reverses() {
    let mut curve = PolylineCurve(vec![1, 2, 3]);
    assert_eq!(curve.len(), 3);
    assert_eq!(curve.inverse().0, vec![3, 2, 1]);
    assert_eq!(curve.clone().0, vec![1, 2, 3]);
    assert_eq!(curve.pop(), Some(3));
    assert_eq!(curve.0, vec![1, 2]);
    assert_eq!(curve.pop(), Some(2));
    assert_eq!(curve.pop(), Some(1));
    assert_eq!(curve.pop(), None);
    assert_eq!(curve.len(), 0);
    assert!(curve.inverse().0.is_empty());
}

#[test]
fn polyline_curve_takes_the_points_of_the_division() {
    let division = |curve: &u32, range: (u32, u32), tol: u32| {
        (vec![range.0, range.1], vec![*curve + range.0, *curve + tol, *curve + range.1])
    };
    let curve: PolylineCurve<u32> = PolylineCurve::from_curve(&100, (1, 9), 5, &division);
    assert_eq!(curve.0, vec![101, 105, 109]);
}

fn order(_a: Axis, _h: i32, _p: i32, _q: i32) -> SeamOrder {
    SeamOrder {
        keep_lt_minus: true,
        minus_lt_plus: true,
        plus_lt_keep: false,
    }
}

fn apply(_a: Axis, h: i32, _p: i32, _s: PeriodShift) -> i32 {
    h
}

fn wires() -> Vec<Vec<PolylineCurve<i32>>> {
    vec![
        vec![PolylineCurve(vec![1, 2, 3]), PolylineCurve(vec![3, 4, 1])],
        vec![PolylineCurve(vec![7, 8]), PolylineCurve(vec![8, 9]), PolylineCurve(vec![9, 7])],
    ]
}

fn miss(_c: &i32, _a: &i32, _b: &i32) -> RayProbe {
    RayProbe {
        at_origin: false,
        straddles: false,
        ahead: false,
        start_nonpos: false,
        start_nonneg: false,
        end_pos: false,
        end_neg: false,
    }
}

#[test]
fn face_boundary_is_all_its_wires() {
    let sp = |_s: &u8, q: i32, _h: Option<i32>| Some(10 * q);
    let periods: (Option<i32>, Option<i32>) = (None, None);
    let made = Cell::new(0usize);
    let constrained: RefCell<Vec<(usize, usize)>> = RefCell::new(Vec::new());
    let trimmer = Trimmer {
        fresh: || {
            made.set(made.get() + 1);
            RefCell::new(Vec::<i32>::new())
        },
        insert: |t: &RefCell<Vec<i32>>, p: &i32| {
            t.borrow_mut().push(*p);
            Some(t.borrow().len() - 1)
        },
        can_add: |_t: &RefCell<Vec<i32>>, _a: usize, _b: usize| true,
        add_constraint: |_t: &RefCell<Vec<i32>>, a: usize, b: usize| {
            constrained.borrow_mut().push((a, b));
            true
        },
        snapshot: |t: &RefCell<Vec<i32>>| {
            let vertices: Vec<(usize, i32)> = t.borrow().iter().cloned().enumerate().collect();
            (vertices, Vec::<[usize; 3]>::new())
        },
        bounds: |b: &Polyline<i32>| b.positions.len(),
        division: |_s: &u8, _r: usize| (Vec::<i32>::new(), Vec::<i32>::new()),
        point: |u: i32, v: i32| u + v,
        probe: miss,
        subs: |s: &u8, p: &i32| (*s, *p),
        normal: |_s: &u8, p: &i32| -*p,
        centroid: |a: &i32, _b: &i32, _c: &i32| *a,
        opposes: |_a: &StandardAttributes<(u8, i32), i32, i32>, _f: &[StandardVertex; 3]| false,
    };
    let mesh = tessellate_face(&7u8, &wires(), periods, &sp, &order, &apply, &trimmer).unwrap();
    assert_eq!(made.get(), 1);
    assert_eq!(mesh.attributes().uv_coords, vec![10, 20, 30, 40, 70, 80, 90]);
    assert_eq!(mesh.attributes().positions[4], (7, 70));
    assert_eq!(mesh.attributes().normals[6], -90);
    assert_eq!(
        *constrained.borrow(),
        vec![(0, 1), (1, 2), (2, 3), (3, 0), (4, 5), (5, 6), (6, 4)]
    );
    assert!(mesh.faces().tri_faces().is_empty());
}

#[test]
fn face_with_a_failing_wire_has_no_mesh() {
    let calls = Cell::new(0usize);
    let sp = |_s: &u8, q: i32, _h: Option<i32>| {
        calls.set(calls.get() + 1);
        if q == 8 {
            None
        } else {
            Some(q)
        }
    };
    let made = Cell::new(false);
    let trimmer = Trimmer {
        fresh: || made.set(true),
        insert: |_t: &(), _p: &i32| Some(0usize),
        can_add: |_t: &(), _a: usize, _b: usize| true,
        add_constraint: |_t: &(), _a: usize, _b: usize| true,
        snapshot: |_t: &()| (Vec::<(usize, i32)>::new(), Vec::<[usize; 3]>::new()),
        bounds: |_b: &Polyline<i32>| (),
        division: |_s: &u8, _r: ()| (Vec::<i32>::new(), Vec::<i32>::new()),
        point: |u: i32, v: i32| u + v,
        probe: miss,
        subs: |_s: &u8, p: &i32| *p,
        normal: |_s: &u8, p: &i32| *p,
        centroid: |a: &i32, _b: &i32, _c: &i32| *a,
        opposes: |_a: &StandardAttributes<i32, i32, i32>, _f: &[StandardVertex; 3]| false,
    };
    let periods: (Option<i32>, Option<i32>) = (None, None);
    assert!(tessellate_face(&7u8, &wires(), periods, &sp, &order, &apply, &trimmer).is_none());
    assert_eq!(calls.get(), 6);
    assert!(!made.get());
}

#[test]
fn mesh_is_refused_where_a_corner_is_out_of_range() {
    let attrs = || StandardAttributes {
        positions: vec![10u32, 11, 12],
        uv_coords: vec![20u16, 21, 22],
        normals: vec![30u8, 31, 32],
    };
    let good = Faces::from_tri_and_quad_faces(vec![[corner(0), corner(1), corner(2)]], Vec::new());
    let mesh = PolygonMesh::try_new(attrs(), good).unwrap();
    assert_eq!(mesh.faces().tri_faces().len(), 1);
    let tri = Faces::from_tri_and_quad_faces(vec![[corner(0), corner(1), corner(3)]], Vec::new());
    assert_eq!(PolygonMesh::try_new(attrs(), tri).unwrap_err(), MeshError::OutOfRange);
    let quad = Faces::from_tri_and_quad_faces(
        Vec::new(),
        vec![[corner(0), corner(1), corner(2), corner(7)]],
    );
    assert_eq!(PolygonMesh::try_new(attrs(), quad).unwrap_err(), MeshError::OutOfRange);
    let short = StandardAttributes {
        positions: vec![10u32, 11, 12],
        uv_coords: vec![20u16, 21],
        normals: vec![30u8, 31, 32],
    };
    let faces = Faces::from_tri_and_quad_faces(vec![[corner(0), corner(1), corner(2)]], Vec::new());
    assert_eq!(PolygonMesh::try_new(short, faces).unwrap_err(), MeshError::OutOfRange);
}

#[test]
fn inverted_mesh_shows_its_other_side() {
    let mut mesh = small_mesh();
    let negate = |n: &u8| 255 - *n;
    mesh.invert(&negate);
    assert_eq!(mesh.attributes().positions, vec![10, 11, 12, 13]);
    assert_eq!(mesh.attributes().uv_coords, vec![20, 21, 22, 23]);
    assert_eq!(mesh.attributes().normals, vec![225, 224, 223, 222]);
    assert_eq!(
        *mesh.faces().tri_faces(),
        vec![[corner(2), corner(1), corner(0)], [corner(3), corner(2), corner(0)]]
    );
    assert_eq!(
        *mesh.faces().quad_faces(),
        vec![[corner(3), corner(2), corner(1), corner(0)]]
    );
    mesh.invert(&negate);
    assert_eq!(mesh, small_mesh());
}

#[test]
fn boundary_is_well_formed_where_its_segments_end_at_points() {
    let mut polyline = Polyline {
        positions: vec![1, 2, 3],
        indices: vec![(0, 1), (1, 2), (2, 0)],
    };
    assert!(polyline.is_well_formed());
    polyline.indices.push((2, 3));
    assert!(!polyline.is_well_formed());
    polyline.indices[3] = (3, 0);
    assert!(!polyline.is_well_formed());
    let empty: Polyline<i32> = Polyline::new();
    assert!(empty.is_well_formed());
}

#[test]
fn triangulation_needs_distinct_handles_and_known_corners() {
    let vertices = vec![(5usize, 'a'), (9, 'b'), (2, 'c')];
    assert!(is_triangulation(&vertices, &vec![[5, 9, 2], [2, 9, 5]]));
    assert!(is_triangulation(&vertices, &Vec::new()));
    assert!(!is_triangulation(&vertices, &vec![[5, 9, 2], [2, 9, 0]]));
    let twice = vec![(5usize, 'a'), (9, 'b'), (5, 'c')];
    assert!(!is_triangulation(&twice, &Vec::new()));
}
