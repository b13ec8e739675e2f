use light::screen::{
    compute_scaled_dimensions, compute_scaled_dimensions_by_max_pixels, normalize_capture_max_pixels, rgba_to_bgra,
    MonitorSize, ScreenCaptureError, WindowsCaptureMethod, WindowsCaptureSettings, XcapCaptureSettings, XcapCapturer,
};

#[test]
fn error_messages() {
    assert_eq!(ScreenCaptureError::Unsupported("no displays").message(), "Screen capture unsupported: no displays");
    assert_eq!(
        ScreenCaptureError::OsError { context: "BitBlt", code: 0x8000_4005 }.message(),
        "Screen capture OS error (BitBlt): 0x80004005"
    );
    assert_eq!(ScreenCaptureError::InvalidState("busy").message(), "Screen capture invalid state: busy");
}

#[test]
fn budget_snaps_to_nearest_preset() {
    assert_eq!(normalize_capture_max_pixels(0), 0);
    assert_eq!(normalize_capture_max_pixels(2_000_000), 2_073_600);
    assert_eq!(normalize_capture_max_pixels(600), 576);
    assert_eq!(normalize_capture_max_pixels(1), 576);
}

#[test]
fn halving_to_a_pixel_budget() {
    assert_eq!(compute_scaled_dimensions_by_max_pixels(1920, 1080, 0), (1920, 1080));
    assert_eq!(compute_scaled_dimensions_by_max_pixels(1920, 1080, 2_073_600), (1920, 1080));
    // 960x540 = 518400 > 230400; 480x270 = 129600 fits.
    assert_eq!(compute_scaled_dimensions_by_max_pixels(1920, 1080, 230_400), (480, 270));
    assert_eq!(compute_scaled_dimensions_by_max_pixels(0, 0, 10), (1, 1));
}

#[test]
fn halving_to_a_percentage() {
    // Targets 96x54: halve while both halves stay at or above them.
    assert_eq!(compute_scaled_dimensions(1920, 1080, 5), (120, 67));
    assert_eq!(compute_scaled_dimensions(1920, 1080, 100), (1920, 1080));
    assert_eq!(compute_scaled_dimensions(1920, 1080, 50), (960, 540));
}

#[test]
fn capture_method_names() {
    assert_eq!(WindowsCaptureMethod::parse("DXGI").unwrap(), WindowsCaptureMethod::Dxgi);
    assert_eq!(WindowsCaptureMethod::parse("gdi").unwrap(), WindowsCaptureMethod::Gdi);
    assert_eq!(WindowsCaptureMethod::parse("Graphics").unwrap(), WindowsCaptureMethod::Graphics);
    assert_eq!(WindowsCaptureMethod::parse("opengl").unwrap_err(), "Unknown capture method: opengl");
    assert_eq!(WindowsCaptureMethod::Graphics.name(), "graphics");
}

#[test]
fn windows_settings() {
    let mut s = WindowsCaptureSettings::new();
    assert_eq!(s.get_capture_scale_percent(), 5);
    assert_eq!(s.get_capture_fps(), 30);
    assert_eq!(s.get_capture_method(), WindowsCaptureMethod::Dxgi);
    s.set_capture_method(WindowsCaptureMethod::Gdi);
    assert_eq!(s.get_capture_method(), WindowsCaptureMethod::Gdi);
}

#[test]
fn xcap_settings_fps_is_clamped() {
    let mut s = XcapCaptureSettings::new();
    s.set_capture_fps(0);
    assert_eq!(s.get_capture_fps(), 1);
    s.set_capture_fps(200);
    assert_eq!(s.get_capture_fps(), 60);
}

#[test]
fn rgba_becomes_bgra() {
    assert_eq!(rgba_to_bgra(&[1, 2, 3, 4, 5, 6, 7, 8, 9]), vec![3, 2, 1, 4, 7, 6, 5, 8]);
}

#[test]
fn xcap_capturer_keeps_frame() {
    let monitors = vec![MonitorSize { width: Some(2), height: Some(1) }];
    let mut c = XcapCapturer::new(&monitors).unwrap();
    c.store_rgba(&[10, 20, 30, 255, 40, 50, 60, 255], 2, 1);
    assert_eq!(c.size(), (2, 1));
    let f = c.frame();
    assert_eq!(f.pixels, &[30, 20, 10, 255, 60, 50, 40, 255]);
    assert_eq!(f.stride, 8);
    assert!(XcapCapturer::new(&vec![]).is_err());
}

#[test]
fn last_successful_output_index_wins() {
    let monitors = vec![
        MonitorSize { width: Some(2), height: Some(1) },
        MonitorSize { width: None, height: None },
        MonitorSize { width: Some(4), height: Some(3) },
    ];
    let mut c = XcapCapturer::with_output(&monitors, 1).unwrap();
    assert_eq!(c.output_index(), 1);
    assert!(c.set_output_index(&monitors, 2).is_ok());
    assert!(c.set_output_index(&monitors, 7).is_err());
    assert_eq!(c.output_index(), 2);
    assert!(c.set_output_index(&monitors, 0).is_ok());
    assert!(c.set_output_index(&monitors, 3).is_err());
    assert_eq!(c.output_index(), 0);
    assert_eq!((c.width, c.height), (2, 1));
}
