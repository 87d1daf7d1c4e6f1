use brep_tessellation::pcurve::{
    CurveOrder, PCurve, Partial, SPHint1D, SPHint2D, PRESEARCH_DIVISION,
};
use std::cell::RefCell;
use std::ops::Bound;
use truck_base::cgmath64::{InnerSpace, Point2, Point3, Vector2, Vector3};
use truck_base::tolerance::{Origin, Tolerance};
use truck_geotrait::algo;
use truck_geotrait::{
    BoundedCurve, BoundedSurface, ParameterRange, ParametricCurve, ParametricSurface,
    ParametricSurface3D,
};

const UNIT: ParameterRange = (Bound::Included(0.0), Bound::Included(1.0));

/// A Bezier curve of degree two in the plane.
#[derive(Clone, Debug)]
struct Bezier {
    ctrl: Vec<Point2>,
}

impl ParametricCurve for Bezier {
    type Point = Point2;
    type Vector = Vector2;
    fn subs(&self, t: f64) -> Point2 {
        let c = &self.ctrl;
        let a = c[0] + (c[1] - c[0]) * t;
        let b = c[1] + (c[2] - c[1]) * t;
        a + (b - a) * t
    }
    fn der(&self, t: f64) -> Vector2 {
        let c = &self.ctrl;
        ((c[1] - c[0]) * (1.0 - t) + (c[2] - c[1]) * t) * 2.0
    }
    fn der2(&self, _t: f64) -> Vector2 {
        let c = &self.ctrl;
        ((c[2] - c[1]) - (c[1] - c[0])) * 2.0
    }
    fn parameter_range(&self) -> ParameterRange {
        UNIT
    }
}

impl BoundedCurve for Bezier {}

/// A Bezier patch of degree two in `u` and one in `v`.
#[derive(Clone, Debug)]
struct Patch {
    ctrl: Vec<Vec<Point3>>,
}

impl Patch {
    fn row(&self, i: usize, v: f64) -> Point3 {
        self.ctrl[i][0] + (self.ctrl[i][1] - self.ctrl[i][0]) * v
    }
    fn row_der(&self, i: usize) -> Vector3 {
        self.ctrl[i][1] - self.ctrl[i][0]
    }
}

impl ParametricSurface for Patch {
    type Point = Point3;
    type Vector = Vector3;
    fn subs(&self, u: f64, v: f64) -> Point3 {
        let a = self.row(0, v) + (self.row(1, v) - self.row(0, v)) * u;
        let b = self.row(1, v) + (self.row(2, v) - self.row(1, v)) * u;
        a + (b - a) * u
    }
    fn uder(&self, u: f64, v: f64) -> Vector3 {
        ((self.row(1, v) - self.row(0, v)) * (1.0 - u) + (self.row(2, v) - self.row(1, v)) * u) * 2.0
    }
    fn vder(&self, u: f64, _v: f64) -> Vector3 {
        let a = self.row_der(0) + (self.row_der(1) - self.row_der(0)) * u;
        let b = self.row_der(1) + (self.row_der(2) - self.row_der(1)) * u;
        a + (b - a) * u
    }
    fn uuder(&self, _u: f64, v: f64) -> Vector3 {
        ((self.row(2, v) - self.row(1, v)) - (self.row(1, v) - self.row(0, v))) * 2.0
    }
    fn uvder(&self, u: f64, _v: f64) -> Vector3 {
        ((self.row_der(1) - self.row_der(0)) * (1.0 - u) + (self.row_der(2) - self.row_der(1)) * u) * 2.0
    }
    fn vvder(&self, _u: f64, _v: f64) -> Vector3 {
        Vector3::new(0.0, 0.0, 0.0)
    }
    fn parameter_range(&self) -> (ParameterRange, ParameterRange) {
        (UNIT, UNIT)
    }
}

impl ParametricSurface3D for Patch {}

impl BoundedSurface for Patch {}

fn curve_at(curve: &Bezier, order: CurveOrder, t: f64) -> (f64, f64) {
    match order {
        CurveOrder::Point => {
            let p = curve.subs(t);
            (p.x, p.y)
        }
        CurveOrder::First => {
            let d = curve.der(t);
            (d.x, d.y)
        }
        CurveOrder::Second => {
            let d = curve.der2(t);
            (d.x, d.y)
        }
    }
}

fn curve_subs(curve: &Bezier, t: f64) -> (f64, f64) {
    curve_at(curve, CurveOrder::Point, t)
}

fn surface_subs(surface: &Patch, u: f64, v: f64) -> Point3 {
    surface.subs(u, v)
}

fn partial(surface: &Patch, which: Partial, u: f64, v: f64) -> Vector3 {
    match which {
        Partial::U => surface.uder(u, v),
        Partial::V => surface.vder(u, v),
        Partial::UU => surface.uuder(u, v),
        Partial::UV => surface.uvder(u, v),
        Partial::VV => surface.vvder(u, v),
    }
}

fn scale(w: Vector3, k: f64) -> Vector3 {
    w * k
}

fn plus(a: Vector3, b: Vector3) -> Vector3 {
    a + b
}

fn range(curve: &Bezier) -> (f64, f64) {
    curve.range_tuple()
}

fn at(x: f64, y: f64, i: usize) -> f64 {
    x + (y - x) * i as f64 / PRESEARCH_DIVISION as f64
}

fn surface_search(surface: &Patch, point: Point3, hint: SPHint2D<f64>, trials: usize) -> Option<(f64, f64)> {
    let start = match hint {
        SPHint2D::Parameter(u, v) => (u, v),
        SPHint2D::Range(a, b) => algo::surface::presearch(surface, point, (a, b), PRESEARCH_DIVISION),
        SPHint2D::NoHint => algo::surface::presearch(surface, point, surface.range_tuple(), PRESEARCH_DIVISION),
    };
    algo::surface::search_parameter3d(surface, point, start, trials)
}

fn curve_search(curve: &Bezier, point: (f64, f64), hint: SPHint1D<f64>, trials: usize) -> Option<f64> {
    let point = Point2::new(point.0, point.1);
    let start = match hint {
        SPHint1D::Parameter(t) => t,
        SPHint1D::Range(x, y) => algo::curve::presearch(curve, point, (x, y), PRESEARCH_DIVISION),
        SPHint1D::NoHint => algo::curve::presearch(curve, point, curve.range_tuple(), PRESEARCH_DIVISION),
    };
    algo::curve::search_parameter(curve, point, start, trials)
}

/// The composed curve, as the searches of the geometric traits want it.
#[derive(Clone, Copy)]
struct Composed<'a>(&'a PCurve<Bezier, Patch>);

impl<'a> ParametricCurve for Composed<'a> {
    type Point = Point3;
    type Vector = Vector3;
    fn subs(&self, t: f64) -> Point3 {
        self.0.subs(t, &curve_at, &surface_subs)
    }
    fn der(&self, t: f64) -> Vector3 {
        self.0.der(t, &curve_at, &partial, &scale, &plus)
    }
    fn der2(&self, t: f64) -> Vector3 {
        self.0.der2(t, &curve_at, &partial, &scale, &plus)
    }
    fn parameter_range(&self) -> ParameterRange {
        UNIT
    }
}

fn presearch(pcurve: &PCurve<Bezier, Patch>, point: Point3, range: (f64, f64), division: usize) -> f64 {
    algo::curve::presearch(&Composed(pcurve), point, range, division)
}

fn nearest(pcurve: &PCurve<Bezier, Patch>, point: Point3, start: f64, trials: usize) -> Option<f64> {
    algo::curve::search_nearest_parameter(&Composed(pcurve), point, start, trials)
}

fn search(pcurve: &PCurve<Bezier, Patch>, point: Point3, hint: SPHint1D<f64>, trials: usize) -> Option<f64> {
    pcurve.search_parameter(
        point,
        hint,
        trials,
        &curve_subs,
        &at,
        &f64::min,
        &f64::max,
        &surface_search,
        &curve_search,
    )
}

fn sample() -> PCurve<Bezier, Patch> {
    let curve = Bezier {
        ctrl: vec![
            Point2::new(1.0, 1.0),
            Point2::new(1.0, 0.0),
            Point2::new(0.0, 0.0),
        ],
    };
    let surface = Patch {
        ctrl: vec![
            vec![Point3::new(0.0, 0.0, 0.0), Point3::new(0.0, 1.0, 0.0)],
            vec![Point3::new(0.0, 0.0, 1.0), Point3::new(0.0, 1.0, 1.0)],
            vec![Point3::new(1.0, 0.0, 1.0), Point3::new(1.0, 1.0, 1.0)],
        ],
    };
    PCurve::new(curve, surface)
}

#[test]
fn pcurve_test() {
    let pcurve = sample();
    assert_eq!(pcurve.parameter_range(&range), (0.0, 1.0));

    const N: usize = 100;
    for i in 0..=N {
        let t = i as f64 / N as f64;
        assert!(pcurve.subs(t, &curve_at, &surface_subs).near(&Point3::new(
            (1.0 - t * t) * (1.0 - t * t),
            (1.0 - t) * (1.0 - t),
            1.0 - t * t * t * t,
        )));
        assert!(pcurve.der(t, &curve_at, &partial, &scale, &plus).near(&Vector3::new(
            4.0 * t * (t * t - 1.0),
            2.0 * (t - 1.0),
            -4.0 * t * t * t,
        )));
        assert!(pcurve.der2(t, &curve_at, &partial, &scale, &plus).near(&Vector3::new(
            4.0 * (3.0 * t * t - 1.0),
            2.0,
            -12.0 * t * t,
        )));
    }

    let t = 0.675;
    let pt = pcurve.subs(t, &curve_at, &surface_subs);
    assert!(search(&pcurve, pt, SPHint1D::NoHint, 100).unwrap().near(&t));

    let pt = pt + Vector3::new(0.01, 0.06, -0.03);
    assert!(search(&pcurve, pt, SPHint1D::NoHint, 100).is_none());
    let t = pcurve
        .search_nearest_parameter(pt, SPHint1D::NoHint, 100, &presearch, &range, &nearest)
        .unwrap();
    let der = pcurve.der(t, &curve_at, &partial, &scale, &plus);
    let diff = pcurve.subs(t, &curve_at, &surface_subs) - pt;
    assert!(der.dot(diff).so_small());
}

#[test]
fn pcurve_keeps_its_parts() {
    let pcurve = PCurve::new(7u32, "surface");
    assert_eq!(*pcurve.curve(), 7);
    assert_eq!(*pcurve.surface(), "surface");
}

#[test]
fn derivatives_match_difference_quotients() {
    let pcurve = sample();
    let h = 1.0e-4;
    for i in 1..20 {
        let t = i as f64 / 20.0;
        let ahead = pcurve.subs(t + h, &curve_at, &surface_subs);
        let here = pcurve.subs(t, &curve_at, &surface_subs);
        let behind = pcurve.subs(t - h, &curve_at, &surface_subs);
        let first = (ahead - behind) / (2.0 * h);
        let second = ((ahead - here) - (here - behind)) / (h * h);
        let der = pcurve.der(t, &curve_at, &partial, &scale, &plus);
        let der2 = pcurve.der2(t, &curve_at, &partial, &scale, &plus);
        assert!((first - der).magnitude() < 1.0e-6);
        assert!((second - der2).magnitude() < 1.0e-5);
    }
}

#[test]
fn search_returns_the_parameter_of_a_point_on_the_curve() {
    let pcurve = sample();
    for i in 1..20 {
        let t = i as f64 / 20.0;
        let pt = pcurve.subs(t, &curve_at, &surface_subs);
        let found = search(&pcurve, pt, SPHint1D::NoHint, 100).unwrap();
        assert!(found.near(&t));
        let hinted = search(&pcurve, pt, SPHint1D::Parameter(t + 0.01), 100).unwrap();
        assert!(hinted.near(&t));
        let ranged = search(&pcurve, pt, SPHint1D::Range(t - 0.04, t + 0.04), 100).unwrap();
        assert!(ranged.near(&t));
    }
}

#[test]
fn nearest_parameter_is_at_a_foot_of_the_perpendicular() {
    let pcurve = sample();
    let offsets = [
        Vector3::new(0.01, 0.06, -0.03),
        Vector3::new(-0.05, 0.02, 0.04),
        Vector3::new(0.0, -0.03, 0.02),
    ];
    for i in 2..9 {
        for offset in offsets.iter() {
            let pt = pcurve.subs(i as f64 / 10.0, &curve_at, &surface_subs) + *offset;
            let t = pcurve
                .search_nearest_parameter(pt, SPHint1D::NoHint, 100, &presearch, &range, &nearest)
                .unwrap();
            let der = pcurve.der(t, &curve_at, &partial, &scale, &plus);
            let diff = pcurve.subs(t, &curve_at, &surface_subs) - pt;
            assert!(der.dot(diff).so_small());
        }
    }
}

#[test]
fn inverted_curve_runs_backwards_on_the_same_surface() {
    let forward = sample();
    let mut backward = sample();
    let inverted = |c: &Bezier| Bezier {
        ctrl: c.ctrl.iter().rev().cloned().collect(),
    };
    backward.invert(&inverted);
    let (t0, t1) = forward.parameter_range(&range);
    assert_eq!(backward.parameter_range(&range), (t0, t1));
    for i in 0..=50 {
        let t = i as f64 / 50.0;
        let a = backward.subs(t, &curve_at, &surface_subs);
        let b = forward.subs(t0 + t1 - t, &curve_at, &surface_subs);
        assert!(a.near(&b));
    }
    assert_eq!(backward.surface().ctrl, forward.surface().ctrl);
    assert_eq!(backward.curve().ctrl[0], Point2::new(0.0, 0.0));
}

#[test]
fn parameter_hint_becomes_the_point_of_the_plane_curve() {
    let pcurve = sample();
    match pcurve.lift_hint(SPHint1D::Parameter(0.5), &curve_subs, &at, &f64::min, &f64::max) {
        SPHint2D::Parameter(u, v) => assert_eq!((u, v), (0.75, 0.25)),
        _ => panic!("a parameter must stay a parameter"),
    }
    assert!(matches!(
        pcurve.lift_hint(SPHint1D::NoHint, &curve_subs, &at, &f64::min, &f64::max),
        SPHint2D::NoHint
    ));
}

#[test]
fn range_hint_becomes_the_box_of_the_samples() {
    let pcurve = sample();
    let asked: RefCell<Vec<f64>> = RefCell::new(Vec::new());
    let subs = |c: &Bezier, t: f64| {
        asked.borrow_mut().push(t);
        curve_subs(c, t)
    };
    match pcurve.lift_hint(SPHint1D::Range(0.2, 0.6), &subs, &at, &f64::min, &f64::max) {
        SPHint2D::Range(u, v) => {
            assert!(f64::abs(u.0 - 0.64) < 1.0e-12 && f64::abs(u.1 - 0.96) < 1.0e-12);
            assert!(f64::abs(v.0 - 0.16) < 1.0e-12 && f64::abs(v.1 - 0.64) < 1.0e-12);
        }
        _ => panic!("a range must become a box"),
    }
    let asked = asked.borrow();
    assert_eq!(asked.len(), PRESEARCH_DIVISION + 1);
    assert_eq!(asked[0], 0.6);
    assert_eq!(asked[1], 0.2);
    assert!(f64::abs(asked[PRESEARCH_DIVISION] - (0.6 - 0.4 / 50.0)) < 1.0e-12);
}

#[test]
fn presearch_division_is_fifty() {
    assert_eq!(PRESEARCH_DIVISION, 50);
}

#[test]
fn curve_is_not_searched_where_the_surface_search_fails() {
    let pcurve = PCurve::new(3u8, 4u8);
    let curve_calls = RefCell::new(0usize);
    let subs = |_c: &u8, t: i32| (t, t);
    let at = |x: i32, _y: i32, _i: usize| x;
    let lesser = |a: i32, b: i32| a.min(b);
    let greater = |a: i32, b: i32| a.max(b);
    let surface_search = |_s: &u8, q: i32, _h: SPHint2D<i32>, _n: usize| if q < 0 { None } else { Some((q, q + 1)) };
    let curve_search = |_c: &u8, p: (i32, i32), _h: SPHint1D<i32>, n: usize| {
        *curve_calls.borrow_mut() += 1;
        Some(p.0 + p.1 + n as i32)
    };
    let miss = pcurve.search_parameter(-1, SPHint1D::NoHint, 7, &subs, &at, &lesser, &greater, &surface_search, &curve_search);
    assert_eq!(miss, None);
    assert_eq!(*curve_calls.borrow(), 0);
    let hit = pcurve.search_parameter(5, SPHint1D::NoHint, 7, &subs, &at, &lesser, &greater, &surface_search, &curve_search);
    assert_eq!(hit, Some(5 + 6 + 7));
    assert_eq!(*curve_calls.borrow(), 1);
}

#[test]
fn nearest_search_starts_where_the_hint_says() {
    let pcurve = PCurve::new(3u8, 4u8);
    let ranges: RefCell<Vec<((i32, i32), usize)>> = RefCell::new(Vec::new());
    let presearch = |_c: &PCurve<u8, u8>, _q: i32, r: (i32, i32), n: usize| {
        ranges.borrow_mut().push((r, n));
        r.0 + r.1
    };
    let range = |_c: &u8| (10, 20);
    let nearest = |_c: &PCurve<u8, u8>, q: i32, start: i32, trials: usize| Some(q + start + trials as i32);
    let got = pcurve.search_nearest_parameter(1000, SPHint1D::Parameter(5), 3, &presearch, &range, &nearest);
    assert_eq!(got, Some(1008));
    assert!(ranges.borrow().is_empty());
    let got = pcurve.search_nearest_parameter(1000, SPHint1D::Range(1, 2), 3, &presearch, &range, &nearest);
    assert_eq!(got, Some(1006));
    let got = pcurve.search_nearest_parameter(1000, SPHint1D::NoHint, 3, &presearch, &range, &nearest);
    assert_eq!(got, Some(1033));
    assert_eq!(*ranges.borrow(), vec![((1, 2), 50), ((10, 20), 50)]);
}
