//! Behavioral tests for the gesture recording session and its
//! downsampling filter.

use circle_gesture::analyzer::analyze_circle;
use circle_gesture::{GestureSession, Point};

#[test]
fn starts_idle_and_empty() {
    let s = GestureSession::new();
    assert!(!s.is_recording());
    assert_eq!(s.len(), 0);
}

#[test]
fn downsample_dense_points() {
    // a dense run — every point within 5 pixels of the first — keeps
    // exactly one point no matter how long the run is
    let mut s = GestureSession::new();
    s.on_press();
    for k in 0..500i32 {
        s.on_move(Point { x: 1000 + k % 3, y: 1000 + (k * 2) % 3 });
    }
    assert_eq!(s.len(), 1);
    let snap = s.on_release().expect("recording was live");
    assert_eq!(snap.len(), 1);
    assert_eq!(snap[0], Point { x: 1000, y: 1000 });
}

#[test]
fn downsample_threshold_is_five_pixels() {
    let mut s = GestureSession::new();
    s.on_press();
    s.on_move(Point { x: 0, y: 0 });
    s.on_move(Point { x: 3, y: 3 });  // distance sqrt(18) < 5: dropped
    assert_eq!(s.len(), 1);
    s.on_move(Point { x: 3, y: 4 });  // distance exactly 5: kept
    assert_eq!(s.len(), 2);
}

#[test]
fn empty_stroke_rejected_by_analyzer() {
    // press-then-release with no intervening move hands analysis an empty
    // snapshot, which fails the minimum point count
    let mut s = GestureSession::new();
    s.on_press();
    let snap = s.on_release().expect("recording was live");
    assert!(snap.is_empty());
    assert!(analyze_circle(&snap).is_none());
    assert!(!s.is_recording());
    assert_eq!(s.len(), 0);
}

#[test]
fn release_while_idle_is_a_no_op() {
    let mut s = GestureSession::new();
    assert!(s.on_release().is_none());
    assert!(!s.is_recording());
    assert_eq!(s.len(), 0);
}

#[test]
fn moves_while_idle_are_ignored() {
    let mut s = GestureSession::new();
    s.on_move(Point { x: 10, y: 10 });
    s.on_move(Point { x: 200, y: 200 });
    assert!(!s.is_recording());
    assert_eq!(s.len(), 0);
}

#[test]
fn press_clears_stale_points() {
    let mut s = GestureSession::new();
    s.on_press();
    s.on_move(Point { x: 0, y: 0 });
    s.on_move(Point { x: 100, y: 0 });
    s.on_move(Point { x: 100, y: 100 });
    assert_eq!(s.len(), 3);
    s.on_press();
    assert!(s.is_recording());
    assert_eq!(s.len(), 0);
}

#[test]
fn release_hands_off_the_whole_trajectory() {
    let mut s = GestureSession::new();
    s.on_press();
    let pts = [
        Point { x: 0, y: 0 },
        Point { x: 10, y: 0 },
        Point { x: 20, y: 5 },
        Point { x: 30, y: 15 },
    ];
    for p in pts {
        s.on_move(p);
    }
    let snap = s.on_release().expect("recording was live");
    assert_eq!(snap, pts.to_vec());
    // the session is drained: a second release hands off nothing
    assert!(s.on_release().is_none());
}

#[test]
fn full_stroke_through_session_is_recognized() {
    // press, a circular drag, release: the snapshot passes the analyzer
    let mut s = GestureSession::new();
    s.on_press();
    for k in 0..72 {
        let t = 2.0 * std::f64::consts::PI * (k as f64) / 72.0;
        s.on_move(Point {
            x: (640.0 + 90.0 * t.cos()).round() as i32,
            y: (360.0 + 90.0 * t.sin()).round() as i32,
        });
    }
    let snap = s.on_release().expect("recording was live");
    assert!(snap.len() >= 12, "downsampling must leave enough samples");
    assert!(analyze_circle(&snap).is_some());
}
