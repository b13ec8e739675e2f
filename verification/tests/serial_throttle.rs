use std::time::Duration;

use light::serial_throttle::{min_interval_nanos, SendThrottle};

fn compute_min_interval(baud_rate: u32, frame_size: usize) -> Duration {
    Duration::from_nanos(min_interval_nanos(baud_rate, frame_size))
}

#[test]
fn test_compute_min_interval() {
    // 100 LEDs: frame_size = 6 + 100 * 3 = 306 bytes
    // At 115200 baud: theoretical = 11520 / 306 ≈ 37.6 FPS
    // Safe FPS = floor(37.6) - 1 = 36 FPS
    let interval = compute_min_interval(115_200, 306);
    let fps = 1.0 / interval.as_secs_f64();
    assert!((fps - 36.0).abs() < 0.1, "Expected ~36 FPS, got {}", fps);
}

#[test]
fn test_compute_min_interval_small_frame() {
    // 10 LEDs: frame_size = 6 + 10 * 3 = 36 bytes
    // At 115200 baud: theoretical = 11520 / 36 = 320 FPS
    // Safe FPS = floor(320) - 1 = 319 FPS
    let interval = compute_min_interval(115_200, 36);
    let fps = 1.0 / interval.as_secs_f64();
    assert!((fps - 319.0).abs() < 0.1, "Expected ~319 FPS, got {}", fps);
}

#[test]
fn test_compute_min_interval_large_frame() {
    // 500 LEDs: frame_size = 6 + 500 * 3 = 1506 bytes
    // At 115200 baud: theoretical = 11520 / 1506 ≈ 7.65 FPS
    // Safe FPS = floor(7.65) - 1 = 6 FPS
    let interval = compute_min_interval(115_200, 1506);
    let fps = 1.0 / interval.as_secs_f64();
    assert!((fps - 6.0).abs() < 0.1, "Expected ~6 FPS, got {}", fps);
}

#[test]
fn min_interval_exact_nanos() {
    // 11520 / 306 = 37 whole frames, 36 safe: 1e9 / 36 rounded down.
    assert_eq!(min_interval_nanos(115_200, 306), 27_777_777);
    assert_eq!(min_interval_nanos(115_200, 36), 3_134_796);
}

#[test]
fn slow_line_sends_once_a_second() {
    // 9600 baud carries 960 bytes/s: 3 frames of 300 bytes, 2 safe; 1000 bytes: 0 frames, at least 1.
    assert_eq!(min_interval_nanos(9_600, 300), 500_000_000);
    assert_eq!(min_interval_nanos(9_600, 1_000), 1_000_000_000);
}

#[test]
fn empty_frames_are_not_throttled_on_a_running_line() {
    assert_eq!(min_interval_nanos(115_200, 0), 0);
    assert_eq!(min_interval_nanos(0, 0), 1_000_000_000);
}

#[test]
fn throttle_admits_after_interval_only() {
    let mut t = SendThrottle::new(115_200, 306);
    assert_eq!(t.baud_rate, 115_200);
    assert!(t.admits(None));
    assert!(!t.admits(Some(27_777_776)));
    assert!(t.admits(Some(27_777_777)));
    t.set_frame_size(36);
    assert_eq!(t.min_interval_nanos, 3_134_796);
    assert!(t.admits(Some(3_134_796)));
    assert!(!t.admits(Some(1)));
}

#[test]
fn throttle_keeps_last_send_time_only_for_written_frames() {
    let mut t = SendThrottle::new(115_200, 306);
    assert!(t.admits_at(5));
    t.record_attempt(5, false);
    assert_eq!(t.last_send_nanos, None);
    t.record_attempt(5, true);
    assert_eq!(t.last_send_nanos, Some(5));
    assert!(!t.admits_at(5 + 27_777_776));
    t.record_attempt(5 + 27_777_776, true);
    assert_eq!(t.last_send_nanos, Some(5));
    assert!(t.admits_at(5 + 27_777_777));
    t.record_attempt(5 + 27_777_777, true);
    assert_eq!(t.last_send_nanos, Some(27_777_782));
    assert!(!t.admits_at(3));
}
