//! Behavioral tests for the circle analyzer.

use circle_gesture::analyzer::analyze_circle;
use circle_gesture::Point;

/// Points on an arc of a circle: `n` samples, evenly spaced over `frac` of
/// a full counter-clockwise turn, rounded to integer pixels.
fn arc_points(cx: f64, cy: f64, r: f64, n: usize, frac: f64) -> Vec<Point> {
    let mut v = Vec::new();
    for k in 0..n {
        let t = frac * 2.0 * std::f64::consts::PI * (k as f64) / (n as f64);
        v.push(Point { x: (cx + r * t.cos()).round() as i32, y: (cy + r * t.sin()).round() as i32 });
    }
    v
}

#[test]
fn rejects_too_few_points() {
    let pts = arc_points(400.0, 300.0, 100.0, 11, 1.0);
    assert_eq!(pts.len(), 11);
    assert!(analyze_circle(&pts).is_none());
}

#[test]
fn rejects_empty_trajectory() {
    let pts: Vec<Point> = Vec::new();
    assert!(analyze_circle(&pts).is_none());
}

#[test]
fn accepts_perfect_circle() {
    let (cx, cy, r) = (412.0, 297.0, 137.0);
    let pts = arc_points(cx, cy, r, 48, 1.0);
    let res = analyze_circle(&pts).expect("a clean synthetic circle must be recognized");
    let count = res.count as f64;
    let got_cx = res.center_x_num as f64 / count;
    let got_cy = res.center_y_num as f64 / count;
    let got_r = res.radius_num as f64 / (count * count);
    assert!((got_cx - cx).abs() <= 1.0, "center x {got_cx} vs {cx}");
    assert!((got_cy - cy).abs() <= 1.0, "center y {got_cy} vs {cy}");
    assert!((got_r - r).abs() <= 1.0, "radius {got_r} vs {r}");
}

#[test]
fn accepts_circle_with_negative_coordinates() {
    // a stroke on a monitor placed left of the primary one
    let pts = arc_points(-900.0, 250.0, 80.0, 36, 1.0);
    let res = analyze_circle(&pts).expect("circle in negative coordinate space");
    let count = res.count as f64;
    assert!((res.center_x_num as f64 / count + 900.0).abs() <= 1.0);
    assert!((res.center_y_num as f64 / count - 250.0).abs() <= 1.0);
}

#[test]
fn exact_fields_for_symmetric_circle() {
    // 24 points of a radius-100 circle around the origin; by symmetry the
    // rounded coordinates sum to zero, and each scaled centroid distance is
    // the integer square root of 576 times a hand-checked squared norm:
    // four turns of 2400, 2410, 2408, 2409, 2408, 2410 sum to 57780.
    let pts = arc_points(0.0, 0.0, 100.0, 24, 1.0);
    assert_eq!(pts[0], Point { x: 100, y: 0 });
    assert_eq!(pts[1], Point { x: 97, y: 26 });
    assert_eq!(pts[2], Point { x: 87, y: 50 });
    assert_eq!(pts[3], Point { x: 71, y: 71 });
    let res = analyze_circle(&pts).expect("symmetric circle");
    assert_eq!(res.center_x_num, 0);
    assert_eq!(res.center_y_num, 0);
    assert_eq!(res.count, 24);
    assert_eq!(res.radius_num, 57780);
}

#[test]
fn rejects_straight_line() {
    let mut pts = Vec::new();
    for k in 0..40i32 {
        pts.push(Point { x: 50 + 17 * k, y: 900 - 6 * k });
    }
    assert!(analyze_circle(&pts).is_none());
}

#[test]
fn rejects_long_horizontal_line() {
    let mut pts = Vec::new();
    for k in 0..200i32 {
        pts.push(Point { x: 10 * k, y: 333 });
    }
    assert!(analyze_circle(&pts).is_none());
}

#[test]
fn rejects_semicircle() {
    let pts = arc_points(500.0, 500.0, 120.0, 24, 0.5);
    assert!(analyze_circle(&pts).is_none());
}

#[test]
fn rejects_open_arc() {
    // three quarters of a turn sweeps enough sectors and keeps a steady
    // radius, but the endpoints sit a chord of r * sqrt(2) apart — well
    // beyond 0.8 of the radius — so the closure gate rejects it
    let pts = arc_points(300.0, 300.0, 100.0, 36, 0.75);
    assert!(analyze_circle(&pts).is_none());
}

#[test]
fn rejects_small_circle() {
    // radius 20 is below the 30-pixel minimum, whatever the shape quality
    let pts = arc_points(640.0, 480.0, 20.0, 36, 1.0);
    assert!(analyze_circle(&pts).is_none());
}

#[test]
fn rejects_zigzag_stroke() {
    // consistent bounding box but wildly varying centroid distance
    let mut pts = Vec::new();
    for k in 0..30i32 {
        let y = if k % 2 == 0 { 100 } else { 400 };
        pts.push(Point { x: 100 + 20 * k, y });
    }
    assert!(analyze_circle(&pts).is_none());
}

#[test]
fn rejects_oversized_trajectory() {
    // a trajectory beyond the analyzer's capacity bound is rejected even
    // when its shape is a clean circle
    let pts = arc_points(0.0, 0.0, 4000.0, 4097, 1.0);
    assert!(analyze_circle(&pts).is_none());
    let pts_ok = arc_points(0.0, 0.0, 4000.0, 4096, 1.0);
    assert!(analyze_circle(&pts_ok).is_some());
}
