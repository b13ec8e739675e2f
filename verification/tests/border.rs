use light::border::{
    BlackBorder, BlackBorderDetector, BlackBorderMode, BlackBorderProcessor, DEFAULT_BLACK_THRESHOLD,
};
use light::screen::ScreenFrame;

/// A 12x12 BGRA frame: black bars of 2 rows at top and bottom, white in between.
fn letterbox_pixels() -> Vec<u8> {
    let mut px = Vec::new();
    for y in 0..12 {
        for _x in 0..12 {
            let v = if (2..10).contains(&y) { 255 } else { 0 };
            px.extend_from_slice(&[v, v, v, 255]);
        }
    }
    px
}

fn frame(px: &[u8]) -> ScreenFrame<'_> {
    ScreenFrame { width: 12, height: 12, stride: 48, pixels: px, dirty_regions: &[] }
}

fn known(h: i32, v: i32) -> BlackBorder {
    BlackBorder { unknown: false, horizontal_size: h, vertical_size: v }
}

#[test]
fn mode_from_value() {
    assert!(matches!(BlackBorderMode::from_value(1), BlackBorderMode::Classic));
    assert!(matches!(BlackBorderMode::from_value(2), BlackBorderMode::Osd));
    assert!(matches!(BlackBorderMode::from_value(3), BlackBorderMode::Letterbox));
    assert!(matches!(BlackBorderMode::from_value(0), BlackBorderMode::Default));
    assert!(matches!(BlackBorderMode::from_value(-7), BlackBorderMode::Default));
}

#[test]
fn unknown_borders_are_equal_whatever_their_sizes() {
    let a = BlackBorder { unknown: true, horizontal_size: 3, vertical_size: 4 };
    let b = BlackBorder { unknown: true, horizontal_size: -1, vertical_size: -1 };
    assert!(a == b);
    assert!(known(2, 0) == known(2, 0));
    assert!(known(2, 0) != known(3, 0));
    assert!(known(2, 0) != b);
    assert!(BlackBorder::default() == known(0, 0));
}

#[test]
fn default_mode_finds_letterbox() {
    let px = letterbox_pixels();
    let d = BlackBorderDetector::with_threshold(DEFAULT_BLACK_THRESHOLD);
    let b = d.detect(&frame(&px), BlackBorderMode::Default);
    assert!(!b.unknown);
    assert_eq!((b.horizontal_size, b.vertical_size), (2, 0));
}

#[test]
fn letterbox_and_classic_modes_find_letterbox() {
    let px = letterbox_pixels();
    let d = BlackBorderDetector::with_threshold(DEFAULT_BLACK_THRESHOLD);
    let l = d.detect(&frame(&px), BlackBorderMode::Letterbox);
    assert_eq!((l.unknown, l.horizontal_size, l.vertical_size), (false, 2, 0));
    let c = d.detect(&frame(&px), BlackBorderMode::Classic);
    assert_eq!((c.unknown, c.horizontal_size, c.vertical_size), (false, 2, 0));
    let o = d.detect(&frame(&px), BlackBorderMode::Osd);
    assert_eq!(o.vertical_size, 0);
}

#[test]
fn black_frame_has_unknown_border() {
    let px = vec![0u8; 12 * 12 * 4];
    let d = BlackBorderDetector::with_threshold(DEFAULT_BLACK_THRESHOLD);
    let b = d.detect(&frame(&px), BlackBorderMode::Default);
    assert!(b.unknown);
    assert_eq!((b.horizontal_size, b.vertical_size), (-1, -1));
    let c = d.detect(&frame(&px), BlackBorderMode::Classic);
    assert!(c.unknown);
}

#[test]
fn empty_frame_has_no_border() {
    let d = BlackBorderDetector::with_threshold(DEFAULT_BLACK_THRESHOLD);
    let f = ScreenFrame { width: 0, height: 0, stride: 0, pixels: &[], dirty_regions: &[] };
    let b = d.detect(&f, BlackBorderMode::Default);
    assert!(b == known(0, 0) && !b.unknown);
}

#[test]
fn new_processor_defaults() {
    let p = BlackBorderProcessor::new();
    assert!(p.enabled);
    assert_eq!(p.unknown_switch_cnt, 600);
    assert_eq!(p.border_switch_cnt, 50);
    assert_eq!(p.max_inconsistent_cnt, 10);
    assert_eq!(p.blur_remove_cnt, 1);
    assert!(matches!(p.mode, BlackBorderMode::Default));
    assert_eq!(p.detector.threshold, 13);
    assert!(p.current_border() == known(0, 0));
}

#[test]
fn processor_switches_after_fifty_agreeing_frames() {
    let px = letterbox_pixels();
    let mut p = BlackBorderProcessor::new();
    // The first detection becomes the previous one; then 49 agreeing ones are not enough.
    for _ in 0..50 {
        p.process_frame(&frame(&px));
    }
    assert!(p.current_border() == known(0, 0));
    // The 50th agreeing detection switches; the bars are widened by the blur count.
    p.process_frame(&frame(&px));
    let b = p.current_border();
    assert!(!b.unknown);
    assert_eq!((b.horizontal_size, b.vertical_size), (3, 0));
}

#[test]
fn disabled_processor_uses_no_border() {
    let px = letterbox_pixels();
    let mut p = BlackBorderProcessor::new();
    for _ in 0..51 {
        p.process_frame(&frame(&px));
    }
    assert!(p.current_border() == known(3, 0));
    p.set_enabled(false);
    assert!(p.current_border() == known(0, 0));
    assert_eq!(p.inconsistent_cnt, 10);
    assert_eq!(p.consistent_cnt, 0);
    p.process_frame(&frame(&px));
    assert!(p.current_border() == known(0, 0));
}

#[test]
fn threshold_setting_changes_darkness() {
    // A frame of gray 20: black under threshold 40, lit under 13.
    let px = vec![20u8; 12 * 12 * 4];
    let mut p = BlackBorderProcessor::new();
    p.set_threshold(40);
    assert_eq!(p.detector.threshold, 40);
    let b = p.detector.detect(&frame(&px), BlackBorderMode::Default);
    assert!(b.unknown);
    p.set_threshold(13);
    let b = p.detector.detect(&frame(&px), BlackBorderMode::Default);
    assert_eq!((b.unknown, b.horizontal_size, b.vertical_size), (false, 0, 0));
}

#[test]
fn reset_processor_behaves_like_a_fresh_one() {
    let px = letterbox_pixels();
    let mut used = BlackBorderProcessor::new();
    for _ in 0..51 {
        used.process_frame(&frame(&px));
    }
    assert!(used.current_border() == known(3, 0));
    used.reset_state();
    let mut fresh = BlackBorderProcessor::new();
    for _ in 0..51 {
        used.process_frame(&frame(&px));
        fresh.process_frame(&frame(&px));
        assert!(used.current_border() == fresh.current_border());
        assert_eq!((used.consistent_cnt, used.inconsistent_cnt), (fresh.consistent_cnt, fresh.inconsistent_cnt));
    }
    assert!(used.current_border() == known(3, 0));
}

#[test]
fn disabled_processor_keeps_no_border_over_frames() {
    let px = letterbox_pixels();
    let mut p = BlackBorderProcessor::new();
    p.set_enabled(false);
    for _ in 0..60 {
        p.process_frame(&frame(&px));
        assert!(p.current_border() == known(0, 0));
        assert!(!p.enabled);
    }
}
