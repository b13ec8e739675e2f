use light::app_config::{
    default_window_effect_for_platform, get_window_effects_macos, get_window_effects_windows, is_windows_11,
    minimize_to_tray_enabled, normalize_app_config, AppConfigDto, Platform, UiSettings, WindowsVersion,
};

#[test]
fn defaults_per_platform() {
    let c = AppConfigDto::default_for_platform(Platform::Windows);
    assert_eq!(c.schema_version, 1);
    assert_eq!(c.window_effect, "");
    assert!(!c.minimize_to_tray);
    assert_eq!(c.screen_capture.scale_percent, 5);
    assert_eq!(c.screen_capture.fps, 30);
    assert_eq!(c.screen_capture.method, "dxgi");
    assert_eq!(AppConfigDto::default_for_platform(Platform::MacOs).screen_capture.method, "screencapturekit");
    assert_eq!(AppConfigDto::default_for_platform(Platform::Other).screen_capture.method, "xcap");
}

#[test]
fn default_window_effects() {
    let w11 = WindowsVersion { major: 10, build: 22631 };
    let w10 = WindowsVersion { major: 10, build: 19045 };
    assert!(is_windows_11(&w11));
    assert!(!is_windows_11(&w10));
    assert_eq!(default_window_effect_for_platform(Platform::Windows, Some(w11)), "mica");
    assert_eq!(default_window_effect_for_platform(Platform::Windows, Some(w10)), "blur");
    assert_eq!(default_window_effect_for_platform(Platform::Windows, None), "blur");
    assert_eq!(default_window_effect_for_platform(Platform::MacOs, None), "sidebar");
    assert_eq!(default_window_effect_for_platform(Platform::Other, None), "none");
}

#[test]
fn windows_effect_lists() {
    assert_eq!(get_window_effects_windows("", None), vec!["blur"]);
    assert_eq!(get_window_effects_windows("22H2", Some(WindowsVersion { major: 10, build: 17763 })), vec!["blur", "acrylic"]);
    assert_eq!(get_window_effects_windows("22H2", Some(WindowsVersion { major: 10, build: 19045 })), vec!["blur"]);
    assert_eq!(
        get_window_effects_windows("23H2", Some(WindowsVersion { major: 10, build: 22631 })),
        vec!["acrylic", "mica", "tabbed"]
    );
    assert_eq!(get_window_effects_windows("21H2", Some(WindowsVersion { major: 10, build: 22000 })), vec!["mica", "tabbed"]);
    assert_eq!(
        get_window_effects_windows("22H1", Some(WindowsVersion { major: 10, build: 22500 })),
        vec!["blur", "acrylic", "mica", "tabbed"]
    );
}

#[test]
fn macos_effect_list() {
    let e = get_window_effects_macos();
    assert_eq!(e.len(), 19);
    assert_eq!(e[0], "appearanceBased");
    assert_eq!(e[9], "sidebar");
}

#[test]
fn normalization_clamps_fps_and_fills_effect() {
    let mut c = AppConfigDto::default_for_platform(Platform::Windows);
    c.screen_capture.fps = 0;
    normalize_app_config(&mut c, Platform::Windows, Some(WindowsVersion { major: 10, build: 22631 }));
    assert_eq!(c.screen_capture.fps, 1);
    assert_eq!(c.window_effect, "mica");
    c.screen_capture.fps = 240;
    c.window_effect = "acrylic".to_string();
    normalize_app_config(&mut c, Platform::Windows, None);
    assert_eq!(c.screen_capture.fps, 60);
    assert_eq!(c.window_effect, "acrylic");
}

#[test]
fn tray_setting() {
    assert!(minimize_to_tray_enabled(&UiSettings { minimize_to_tray: true }));
    assert!(!minimize_to_tray_enabled(&UiSettings { minimize_to_tray: false }));
}

#[test]
fn tray_setting_reads_the_last_write() {
    let mut ui = UiSettings::new();
    assert!(!minimize_to_tray_enabled(&ui));
    ui.set_minimize_to_tray(true);
    assert!(minimize_to_tray_enabled(&ui));
    assert!(light::app_config::get_minimize_to_tray(&ui));
    let mut cfg = AppConfigDto::default_for_platform(Platform::Other);
    cfg.minimize_to_tray = false;
    ui.apply_app_config(&cfg);
    assert!(!minimize_to_tray_enabled(&ui));
}
