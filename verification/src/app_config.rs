//! Application settings: defaults per platform, the window background effects a
//! platform offers, and the normalization of a settings update.
use vstd::prelude::*;
use crate::text::owned;

verus! {

/// The operating system the application runs on.
#[derive(Clone, Copy, Debug, PartialEq, Eq, Structural)]
pub enum Platform {
    Windows,
    MacOs,
    Other,
}

/// Screen capture settings.
#[derive(Debug)]
pub struct ScreenCaptureConfigDto {
    pub scale_percent: u8,
    pub fps: u8,
    /// Capture backend identifier (e.g. "dxgi", "gdi", "graphics", "xcap").
    pub method: String,
}

/// The persisted application settings.
#[derive(Debug)]
pub struct AppConfigDto {
    pub schema_version: u32,
    pub window_effect: String,
    pub minimize_to_tray: bool,
    pub screen_capture: ScreenCaptureConfigDto,
}

/// The capture backend a platform uses by default.
pub open spec fn default_method(p: Platform) -> Seq<char> {
    match p {
        Platform::Windows => "dxgi"@,
        Platform::MacOs => "screencapturekit"@,
        Platform::Other => "xcap"@,
    }
}

impl AppConfigDto {
    /// The settings a fresh installation starts with.
    pub fn default_for_platform(platform: Platform) -> (c: AppConfigDto)
        ensures
            c.schema_version == 1,
            c.window_effect@ == Seq::<char>::empty(),
            !c.minimize_to_tray,
            c.screen_capture.scale_percent == 5,
            c.screen_capture.fps == 30,
            c.screen_capture.method@ == default_method(platform),
    {
        let method = match platform {
            Platform::Windows => "dxgi",
            Platform::MacOs => "screencapturekit",
            Platform::Other => "xcap",
        };
        proof {
            reveal_strlit("");
        }
        AppConfigDto {
            schema_version: 1,
            window_effect: owned(""),
            minimize_to_tray: false,
            screen_capture: ScreenCaptureConfigDto { scale_percent: 5, fps: 30, method: owned(method) },
        }
    }
}

/// Operating system identification for the user interface.
#[derive(Debug)]
pub struct SystemInfoResponse {
    pub os_platform: String,
    pub os_version: String,
    pub os_build: String,
    pub arch: String,
}

/// The user-interface settings held while the application runs.
#[derive(Debug)]
pub struct UiSettings {
    pub minimize_to_tray: bool,
}

/// Whether closing the window minimizes to the tray.
pub fn minimize_to_tray_enabled(settings: &UiSettings) -> (b: bool)
    ensures
        b == settings.minimize_to_tray,
{
    settings.minimize_to_tray
}

impl UiSettings {
    /// At start nothing minimizes to the tray.
    pub fn new() -> (s: UiSettings)
        ensures
            !s.minimize_to_tray,
    {
        UiSettings { minimize_to_tray: false }
    }

    /// Sets whether closing the window minimizes to the tray.
    pub fn set_minimize_to_tray(&mut self, enabled: bool)
        ensures
            final(self).minimize_to_tray == enabled,
    {
        self.minimize_to_tray = enabled;
    }

    /// Takes the tray setting of a loaded application configuration.
    pub fn apply_app_config(&mut self, cfg: &AppConfigDto)
        ensures
            final(self).minimize_to_tray == cfg.minimize_to_tray,
    {
        self.minimize_to_tray = cfg.minimize_to_tray;
    }
}

/// Whether closing the window minimizes to the tray (the value the user interface reads).
pub fn get_minimize_to_tray(settings: &UiSettings) -> (b: bool)
    ensures
        b == settings.minimize_to_tray,
{
    settings.minimize_to_tray
}

/// The tray setting after the writes `writes` (each from `set_minimize_to_tray` or
/// `apply_app_config`), starting from `first`: the last write, or `first` where none.
pub open spec fn tray_after(first: bool, writes: Seq<bool>) -> bool {
    if writes.len() == 0 { first } else { writes.last() }
}

/// After any writes of the tray setting, both readers answer the last value written
/// (false where nothing was written to fresh settings).
pub proof fn law_tray_reads_last_write(ss: Seq<UiSettings>, writes: Seq<bool>)
    requires
        ss.len() == writes.len() + 1,
        forall|i: int| 0 <= i < writes.len() ==> (#[trigger] ss[i + 1]).minimize_to_tray == writes[i],
    ensures
        ss.last().minimize_to_tray == tray_after(ss[0].minimize_to_tray, writes),
{
    if writes.len() > 0 {
        let n = writes.len() - 1;
        assert(ss[n + 1].minimize_to_tray == writes[n]);
    }
}

/// A Windows version: major version and build number.
#[derive(Clone, Copy, Debug)]
pub struct WindowsVersion {
    pub major: u32,
    pub build: u32,
}

/// Windows 11 is major version 10 or later with build 22000 or later.
pub fn is_windows_11(ver: &WindowsVersion) -> (b: bool)
    ensures
        b == (ver.major >= 10 && ver.build >= 22000),
{
    ver.major >= 10 && ver.build >= 22000
}

/// The window effect a platform starts with.
pub open spec fn default_effect(p: Platform, ver: Option<WindowsVersion>) -> Seq<char> {
    match p {
        Platform::Windows => match ver {
            Some(v) => if v.major >= 10 && v.build >= 22000 { "mica"@ } else { "blur"@ },
            None => "blur"@,
        },
        Platform::MacOs => "sidebar"@,
        Platform::Other => "none"@,
    }
}

/// The window effect a platform starts with: Mica on Windows 11, blur on older Windows
/// (or when the version is unknown), the sidebar material on macOS, none elsewhere.
pub fn default_window_effect_for_platform(platform: Platform, windows_version: Option<WindowsVersion>) -> (s: &'static str)
    ensures
        s@ == default_effect(platform, windows_version),
{
    match platform {
        Platform::Windows => match windows_version {
            Some(v) => if is_windows_11(&v) { "mica" } else { "blur" },
            None => "blur",
        },
        Platform::MacOs => "sidebar",
        Platform::Other => "none",
    }
}

/// The window effects Windows offers for a version and display version: blur on
/// Windows 7/10 and on Windows 11 22H1 (not build 22621), acrylic on Windows 10 before
/// build 18362 and on Windows 11 except build 22000, Mica and tabbed on Windows 11.
pub open spec fn windows_effects(display_version: Seq<char>, ver: Option<WindowsVersion>) -> Seq<Seq<char>> {
    match ver {
        None => seq!["blur"@],
        Some(v) => {
            let win11 = v.major >= 10 && v.build >= 22000;
            let blur = if win11 { display_version == "22H1"@ && v.build != 22621 } else { true };
            let acrylic = if win11 { v.build != 22000 } else if v.major == 10 { v.build < 18362 } else { false };
            (if blur { seq!["blur"@] } else { Seq::empty() }) + (if acrylic { seq!["acrylic"@] } else { Seq::empty() })
                + (if win11 { seq!["mica"@, "tabbed"@] } else { Seq::empty() })
        },
    }
}

/// The views of a list of strings.
pub open spec fn string_views(v: Seq<String>) -> Seq<Seq<char>> {
    Seq::new(v.len(), |i: int| v[i]@)
}

/// The window effects Windows offers.
pub fn get_window_effects_windows(display_version: &str, windows_version: Option<WindowsVersion>) -> (r: Vec<String>)
    ensures
        string_views(r@) == windows_effects(display_version@, windows_version),
{
    let mut effects: Vec<String> = Vec::new();
    match windows_version {
        None => {
            effects.push(owned("blur"));
            proof {
                assert(string_views(effects@) =~= windows_effects(display_version@, windows_version));
            }
        },
        Some(v) => {
            let win11 = is_windows_11(&v);
            let blur = if win11 {
                crate::text::str_equal(display_version, "22H1") && v.build != 22621
            } else {
                true
            };
            let acrylic = if win11 {
                v.build != 22000
            } else if v.major == 10 {
                v.build < 18362
            } else {
                false
            };
            if blur {
                effects.push(owned("blur"));
            }
            if acrylic {
                effects.push(owned("acrylic"));
            }
            if win11 {
                effects.push(owned("mica"));
                effects.push(owned("tabbed"));
            }
            proof {
                assert(string_views(effects@) =~= windows_effects(display_version@, windows_version));
            }
        },
    }
    effects
}

/// The vibrancy materials macOS offers, by name.
pub open spec fn macos_effects() -> Seq<Seq<char>> {
    seq![
        "appearanceBased"@, "light"@, "dark"@, "mediumLight"@, "ultraDark"@, "titlebar"@, "selection"@, "menu"@,
        "popover"@, "sidebar"@, "headerView"@, "sheet"@, "windowBackground"@, "hudWindow"@, "fullScreenUI"@,
        "tooltip"@, "contentBackground"@, "underWindowBackground"@, "underPageBackground"@,
    ]
}

/// The vibrancy materials macOS offers.
pub fn get_window_effects_macos() -> (r: Vec<String>)
    ensures
        string_views(r@) == macos_effects(),
{
    let mut r: Vec<String> = Vec::new();
    r.push(owned("appearanceBased"));
    r.push(owned("light"));
    r.push(owned("dark"));
    r.push(owned("mediumLight"));
    r.push(owned("ultraDark"));
    r.push(owned("titlebar"));
    r.push(owned("selection"));
    r.push(owned("menu"));
    r.push(owned("popover"));
    r.push(owned("sidebar"));
    r.push(owned("headerView"));
    r.push(owned("sheet"));
    r.push(owned("windowBackground"));
    r.push(owned("hudWindow"));
    r.push(owned("fullScreenUI"));
    r.push(owned("tooltip"));
    r.push(owned("contentBackground"));
    r.push(owned("underWindowBackground"));
    r.push(owned("underPageBackground"));
    proof {
        assert(string_views(r@) =~= macos_effects());
    }
    r
}

/// `v` clamped to `lo..=hi`.
pub open spec fn clamp_u8(v: u8, lo: u8, hi: u8) -> u8 {
    if v < lo { lo } else if v > hi { hi } else { v }
}

/// Normalizes a settings update: the capture rate is clamped to 1..=60 frames per
/// second, and an empty window effect becomes the platform's default.
pub fn normalize_app_config(cfg: &mut AppConfigDto, platform: Platform, windows_version: Option<WindowsVersion>)
    ensures
        final(cfg).screen_capture.fps == clamp_u8(old(cfg).screen_capture.fps, 1, 60),
        final(cfg).window_effect@ == (if old(cfg).window_effect@.len() == 0 {
            default_effect(platform, windows_version)
        } else {
            old(cfg).window_effect@
        }),
        final(cfg).schema_version == old(cfg).schema_version,
        final(cfg).minimize_to_tray == old(cfg).minimize_to_tray,
        final(cfg).screen_capture.scale_percent == old(cfg).screen_capture.scale_percent,
        final(cfg).screen_capture.method == old(cfg).screen_capture.method,
{
    let fps = cfg.screen_capture.fps;
    cfg.screen_capture.fps = if fps < 1 { 1 } else if fps > 60 { 60 } else { fps };
    if cfg.window_effect.as_str().is_empty() {
        cfg.window_effect = owned(default_window_effect_for_platform(platform, windows_version));
    }
}

} // verus!
