use brep_tessellation::seam::{choose_shift, unwrap_axis, Axis, PeriodShift, SeamOrder};

fn order_of(d0: f64, d1: f64, d2: f64) -> SeamOrder {
    SeamOrder {
        keep_lt_minus: d0 < d1,
        minus_lt_plus: d1 < d2,
        plus_lt_keep: d2 < d0,
    }
}

fn seam_order(_axis: Axis, h: f64, p: f64, q: f64) -> SeamOrder {
    order_of((h - q).abs(), (h - p - q).abs(), (h + p - q).abs())
}

fn seam_apply(_axis: Axis, h: f64, p: f64, shift: PeriodShift) -> f64 {
    match shift {
        PeriodShift::Keep => h,
        PeriodShift::Minus => h - p,
        PeriodShift::Plus => h + p,
    }
}

#[test]
fn shift_table_has_seven_rows() {
    let row = |a: bool, b: bool, c: bool| {
        choose_shift(SeamOrder {
            keep_lt_minus: a,
            minus_lt_plus: b,
            plus_lt_keep: c,
        })
    };
    assert_eq!(row(false, true, false), PeriodShift::Minus);
    assert_eq!(row(false, true, true), PeriodShift::Minus);
    assert_eq!(row(false, false, true), PeriodShift::Plus);
    assert_eq!(row(true, false, true), PeriodShift::Plus);
    assert_eq!(row(true, true, false), PeriodShift::Keep);
    assert_eq!(row(true, false, false), PeriodShift::Keep);
    assert_eq!(row(false, false, false), PeriodShift::Keep);
}

#[test]
fn shift_selects_a_nearest_image() {
    let samples: [f64; 8] = [0.0, 0.5, 1.0, 2.5, 3.0, 3.5, 5.9, 6.2];
    let period: f64 = 6.0;
    for &h in samples.iter() {
        for &q in samples.iter() {
            let d = [(h - q).abs(), (h - period - q).abs(), (h + period - q).abs()];
            let chosen = match choose_shift(order_of(d[0], d[1], d[2])) {
                PeriodShift::Keep => d[0],
                PeriodShift::Minus => d[1],
                PeriodShift::Plus => d[2],
            };
            assert!(chosen <= d[0] && chosen <= d[1] && chosen <= d[2]);
        }
    }
}

#[test]
fn tie_between_keep_and_minus_goes_to_minus() {
    assert_eq!(choose_shift(order_of(1.0, 1.0, 2.0)), PeriodShift::Minus);
    assert_eq!(choose_shift(order_of(1.0, 2.0, 1.0)), PeriodShift::Keep);
    assert_eq!(choose_shift(order_of(2.0, 1.0, 1.0)), PeriodShift::Plus);
}

#[test]
fn unwrap_moves_across_the_seam() {
    let period = Some(6.0);
    let out = unwrap_axis(Axis::U, period, 0.25, Some(5.75), &seam_order, &seam_apply);
    assert_eq!(out, 6.25);
    let out = unwrap_axis(Axis::U, period, 5.75, Some(0.25), &seam_order, &seam_apply);
    assert_eq!(out, -0.25);
    let out = unwrap_axis(Axis::U, period, 2.0, Some(3.0), &seam_order, &seam_apply);
    assert_eq!(out, 2.0);
}

#[test]
fn unwrap_needs_a_period_and_a_previous_point() {
    let none: Option<f64> = None;
    assert_eq!(
        unwrap_axis(Axis::V, none, 0.25, Some(5.75), &seam_order, &seam_apply),
        0.25
    );
    assert_eq!(
        unwrap_axis(Axis::V, Some(6.0), 0.25, None, &seam_order, &seam_apply),
        0.25
    );
}
