//! Screen capture: frames, errors, the capture resolution budget and the capture
//! settings each platform's backend keeps.
use vstd::prelude::*;
use crate::text::{chars_of, concat2};

verus! {

/// A BGRA screen frame stored in contiguous memory.
pub struct ScreenFrame<'a> {
    pub width: u32,
    pub height: u32,
    pub stride: usize,
    pub pixels: &'a [u8],
    /// Dirty regions reported by the backend; empty means "unknown / entire frame".
    pub dirty_regions: &'a [DirtyRegion],
}

/// A rectangular dirty region within a captured frame.
#[derive(Clone, Copy, Debug, Default)]
pub struct DirtyRegion {
    pub x: i32,
    pub y: i32,
    pub width: i32,
    pub height: i32,
}

/// A platform screen capture backend.
pub trait ScreenCapturer {
    /// Captures the next frame.
    fn capture(&mut self) -> Result<ScreenFrame<'_>, ScreenCaptureError>;

    /// The size of the captured frames, width first.
    fn size(&self) -> (u32, u32);
}

/// Errors that can occur while capturing the screen.
#[derive(Debug)]
pub enum ScreenCaptureError {
    Unsupported(&'static str),
    OsError { context: &'static str, code: u32 },
    InvalidState(&'static str),
}

/// The eight upper-case hexadecimal digits of `code`.
pub open spec fn hex8(code: u32) -> Seq<char> {
    Seq::new(8, |i: int| hex_digit(((code as int) / pow16(7 - i)) % 16))
}

/// `16^e`.
pub open spec fn pow16(e: int) -> int
    decreases e,
{
    if e <= 0 { 1 } else { 16 * pow16(e - 1) }
}

/// An upper-case hexadecimal digit.
pub open spec fn hex_digit(d: int) -> char {
    if d == 0 { '0' } else if d == 1 { '1' } else if d == 2 { '2' } else if d == 3 { '3' }
    else if d == 4 { '4' } else if d == 5 { '5' } else if d == 6 { '6' } else if d == 7 { '7' }
    else if d == 8 { '8' } else if d == 9 { '9' } else if d == 10 { 'A' } else if d == 11 { 'B' }
    else if d == 12 { 'C' } else if d == 13 { 'D' } else if d == 14 { 'E' } else { 'F' }
}

/// The message of a capture error.
pub open spec fn capture_error_message(e: ScreenCaptureError) -> Seq<char> {
    match e {
        ScreenCaptureError::Unsupported(ctx) => "Screen capture unsupported: "@ + ctx@,
        ScreenCaptureError::OsError { context, code } => "Screen capture OS error ("@ + context@ + "): 0x"@ + hex8(code),
        ScreenCaptureError::InvalidState(ctx) => "Screen capture invalid state: "@ + ctx@,
    }
}

fn hex_digit_str(d: u32) -> (s: &'static str)
    requires
        d < 16,
    ensures
        s@ == seq![hex_digit(d as int)],
{
    proof {
        reveal_strlit("0");
        reveal_strlit("1");
        reveal_strlit("2");
        reveal_strlit("3");
        reveal_strlit("4");
        reveal_strlit("5");
        reveal_strlit("6");
        reveal_strlit("7");
        reveal_strlit("8");
        reveal_strlit("9");
        reveal_strlit("A");
        reveal_strlit("B");
        reveal_strlit("C");
        reveal_strlit("D");
        reveal_strlit("E");
        reveal_strlit("F");
    }
    match d {
        0 => "0",
        1 => "1",
        2 => "2",
        3 => "3",
        4 => "4",
        5 => "5",
        6 => "6",
        7 => "7",
        8 => "8",
        9 => "9",
        10 => "A",
        11 => "B",
        12 => "C",
        13 => "D",
        14 => "E",
        _ => "F",
    }
}

impl ScreenCaptureError {
    /// The message shown for this error.
    pub fn message(&self) -> (s: String)
        ensures
            s@ == capture_error_message(*self),
    {
        match self {
            ScreenCaptureError::Unsupported(ctx) => concat2("Screen capture unsupported: ", ctx),
            ScreenCaptureError::OsError { context, code } => {
                let mut s = crate::text::concat3("Screen capture OS error (", context, "): 0x");
                let ghost start = s@;
                let mut i: u32 = 0;
                let mut div: u32 = 0x1000_0000;
                assert(pow16(7) == 0x1000_0000) by {
                    reveal_with_fuel(pow16, 8);
                }
                while i < 8
                    invariant
                        i <= 8,
                        div as int == pow16(7 - i),
                        s@ == start + hex8(*code).take(i as int),
                    decreases 8 - i,
                {
                    proof {
                        assert(pow16(7 - i) >= 1) by {
                            lemma_pow16_pos(7 - i);
                        }
                    }
                    let d = (*code / div) % 16;
                    s.append(hex_digit_str(d));
                    proof {
                        assert(s@ =~= start + hex8(*code).take(i + 1));
                    }
                    if i < 7 {
                        proof {
                            assert(pow16(7 - i) == 16 * pow16(7 - i - 1));
                        }
                        div = div / 16;
                    }
                    i = i + 1;
                }
                proof {
                    assert(hex8(*code).take(8) =~= hex8(*code));
                }
                s
            },
            ScreenCaptureError::InvalidState(ctx) => concat2("Screen capture invalid state: ", ctx),
        }
    }
}

proof fn lemma_pow16_pos(e: int)
    ensures
        pow16(e) >= 1,
    decreases e,
{
    if e > 0 {
        lemma_pow16_pos(e - 1);
    }
}

/// The capture resolution presets (pixel budgets of common 16:9 sizes), largest first.
pub open spec fn capture_presets() -> Seq<u32> {
    seq![2_073_600u32, 921_600, 518_400, 230_400, 129_600, 57_600, 14_400, 3_600, 2_304, 576]
}

/// The default capture budget (36p).
pub const DEFAULT_CAPTURE_MAX_PIXELS: u32 = 2_304;

/// `|a - b|`.
pub open spec fn abs_diff(a: u32, b: u32) -> int {
    if a >= b { a - b } else { b - a }
}

/// `r` is the preset nearest to `v` (the larger one on a tie), or 0 for "no limit".
pub open spec fn normalized_budget(v: u32, r: u32) -> bool {
    if v == 0 {
        r == 0
    } else {
        &&& capture_presets().contains(r)
        &&& forall|i: int| 0 <= i < capture_presets().len() ==> {
            let p = #[trigger] capture_presets()[i];
            abs_diff(r, v) < abs_diff(p, v) || (abs_diff(r, v) == abs_diff(p, v) && p <= r)
        }
    }
}

/// Snaps a capture pixel budget to the nearest preset (the larger on a tie); 0 stays 0,
/// meaning "no limit".
pub fn normalize_capture_max_pixels(value: u32) -> (r: u32)
    ensures
        normalized_budget(value, r),
{
    if value == 0 {
        return 0;
    }
    let presets: [u32; 10] = [2_073_600, 921_600, 518_400, 230_400, 129_600, 57_600, 14_400, 3_600, 2_304, 576];
    assert(presets@ =~= capture_presets());
    let mut closest = presets[0];
    let mut closest_delta = if closest >= value { closest - value } else { value - closest };
    assert(presets@.take(1)[0] == closest);
    let mut i: usize = 1;
    while i < 10
        invariant
            1 <= i <= 10,
            presets@ == capture_presets(),
            value > 0,
            presets@.take(i as int).contains(closest),
            closest_delta == abs_diff(closest, value),
            forall|j: int| 0 <= j < i ==> {
                let p = #[trigger] presets@[j];
                abs_diff(closest, value) < abs_diff(p, value) || (abs_diff(closest, value) == abs_diff(p, value)
                    && p <= closest)
            },
        decreases 10 - i,
    {
        let preset = presets[i];
        let delta = if preset >= value { preset - value } else { value - preset };
        proof {
            assert(presets@.take(i + 1) =~= presets@.take(i as int).push(preset));
        }
        if delta < closest_delta || (delta == closest_delta && preset > closest) {
            closest = preset;
            closest_delta = delta;
            proof {
                assert(presets@.take(i + 1)[i as int] == preset);
            }
        }
        i = i + 1;
    }
    proof {
        assert(presets@.take(10) =~= presets@);
    }
    closest
}

/// The size after halving both sides `k` times (never below 1).
pub open spec fn halved(n: u32, k: nat) -> u32
    decreases k,
{
    if k == 0 {
        if n == 0 { 1 } else { n }
    } else {
        let h = halved(n, (k - 1) as nat) / 2;
        if h == 0 { 1 } else { h }
    }
}

/// The scaled size fits the budget, or cannot shrink further.
pub open spec fn fits_budget(w: u32, h: u32, max_pixels: u32) -> bool {
    (w as int) * (h as int) <= max_pixels || (w == 1 && h == 1)
}

/// Halves a capture size until it fits a pixel budget: both sides are halved together
/// (never below 1) until the area fits or the size is 1x1; 0 means no limit.
pub fn compute_scaled_dimensions_by_max_pixels(width: u32, height: u32, max_pixels: u32) -> (r: (u32, u32))
    ensures
        max_pixels == 0 ==> r == (halved(width, 0), halved(height, 0)),
        max_pixels > 0 ==> exists|k: nat| #![trigger halved(width, k)] r == (halved(width, k), halved(height, k))
            && fits_budget(r.0, r.1, max_pixels)
            && forall|j: nat| j < k ==> !fits_budget(#[trigger] halved(width, j), halved(height, j), max_pixels),
{
    let mut w: u32 = if width == 0 { 1 } else { width };
    let mut h: u32 = if height == 0 { 1 } else { height };
    if max_pixels == 0 {
        return (w, h);
    }
    let ghost mut k: nat = 0;
    while area(w, h) > max_pixels as u64 && (w > 1 || h > 1)
        invariant
            w == halved(width, k),
            h == halved(height, k),
            w >= 1 && h >= 1,
            forall|j: nat| j < k ==> !fits_budget(#[trigger] halved(width, j), halved(height, j), max_pixels),
        decreases w as int + h as int,
    {
        proof {
            assert(!fits_budget(halved(width, k), halved(height, k), max_pixels));
            assert forall|j: nat| j < k + 1 implies !fits_budget(#[trigger] halved(width, j), halved(height, j), max_pixels) by {
                if j < k {
                }
            }
        }
        w = if w / 2 == 0 { 1 } else { w / 2 };
        h = if h / 2 == 0 { 1 } else { h / 2 };
        proof {
            k = k + 1;
        }
    }
    proof {
        assert(fits_budget(w, h, max_pixels));
    }
    (w, h)
}

/// The target side for a scale percentage: `side * percent / 100` (saturating), at least 1.
pub open spec fn scale_target(side: u32, percent: u8) -> int {
    let prod = (side as int) * (percent as int);
    let t = (if prod > u32::MAX { u32::MAX as int } else { prod }) / 100;
    if t < 1 { 1 } else { t }
}

/// Both sides can be halved once more and stay at or above their targets.
pub open spec fn can_halve(w: u32, h: u32, tw: int, th: int) -> bool {
    w / 2 >= tw && h / 2 >= th
}

/// Halves a capture size, both sides together, as long as both halves stay at or above
/// the given percentage of the full sides.
pub fn compute_scaled_dimensions(width: u32, height: u32, scale_percent: u8) -> (r: (u32, u32))
    ensures
        exists|k: nat| #![trigger halved(width, k)] r == (halved(width, k), halved(height, k))
            && !can_halve(r.0, r.1, scale_target(width, scale_percent), scale_target(height, scale_percent))
            && forall|j: nat| j < k ==> can_halve(
                #[trigger] halved(width, j),
                halved(height, j),
                scale_target(width, scale_percent),
                scale_target(height, scale_percent),
            ),
{
    assert((width as int) * (scale_percent as int) <= 0xffff_ffff * 255) by (nonlinear_arith)
        requires
            width <= 0xffff_ffff,
            scale_percent <= 255,
    ;
    assert((height as int) * (scale_percent as int) <= 0xffff_ffff * 255) by (nonlinear_arith)
        requires
            height <= 0xffff_ffff,
            scale_percent <= 255,
    ;
    let wp: u64 = width as u64 * scale_percent as u64;
    let hp: u64 = height as u64 * scale_percent as u64;
    let tw0: u64 = (if wp > u32::MAX as u64 { u32::MAX as u64 } else { wp }) / 100;
    let th0: u64 = (if hp > u32::MAX as u64 { u32::MAX as u64 } else { hp }) / 100;
    let target_width: u32 = if tw0 > 1 { tw0 as u32 } else { 1 };
    let target_height: u32 = if th0 > 1 { th0 as u32 } else { 1 };
    let mut w: u32 = if width == 0 { 1 } else { width };
    let mut h: u32 = if height == 0 { 1 } else { height };
    let ghost mut k: nat = 0;
    while w / 2 >= target_width && h / 2 >= target_height
        invariant
            target_width == scale_target(width, scale_percent),
            target_height == scale_target(height, scale_percent),
            target_width >= 1 && target_height >= 1,
            w == halved(width, k),
            h == halved(height, k),
            forall|j: nat| j < k ==> can_halve(#[trigger] halved(width, j), halved(height, j), target_width as int, target_height as int),
        decreases w,
    {
        proof {
            assert forall|j: nat| j < k + 1 implies can_halve(#[trigger] halved(width, j), halved(height, j), target_width as int, target_height as int) by {
                if j < k {
                }
            }
        }
        w = if w / 2 == 0 { 1 } else { w / 2 };
        h = if h / 2 == 0 { 1 } else { h / 2 };
        proof {
            k = k + 1;
        }
    }
    (w, h)
}

/// The area of a `w` x `h` size.
fn area(w: u32, h: u32) -> (a: u64)
    ensures
        a as int == (w as int) * (h as int),
{
    assert((w as int) * (h as int) <= 0xffff_ffff * 0xffff_ffffint) by (nonlinear_arith)
        requires
            w <= 0xffff_ffff,
            h <= 0xffff_ffff,
    ;
    (w as u64) * (h as u64)
}

/// Capture settings of the cross-platform (xcap) backend.
#[derive(Debug)]
pub struct XcapCaptureSettings {
    /// Pixel budget of the capture resolution; 0 means no limit.
    pub max_pixels: u32,
    pub fps: u8,
    /// Bumped whenever a change requires capture pipelines to be rebuilt.
    pub generation: u64,
}

/// The capture rate clamped to 1..=60.
pub open spec fn clamp_fps(fps: u8) -> u8 {
    if fps < 1 { 1 } else if fps > 60 { 60 } else { fps }
}

/// The generation after a settings change (wrapping).
pub open spec fn next_generation(g: u64) -> u64 {
    if g == u64::MAX { 0 } else { (g + 1) as u64 }
}

fn clamp_fps_exec(fps: u8) -> (r: u8)
    ensures
        r == clamp_fps(fps),
{
    if fps < 1 { 1 } else if fps > 60 { 60 } else { fps }
}

impl XcapCaptureSettings {
    /// 36p budget at 30 frames per second.
    pub fn new() -> (s: XcapCaptureSettings)
        ensures
            s.max_pixels == DEFAULT_CAPTURE_MAX_PIXELS && s.fps == 30 && s.generation == 0,
    {
        XcapCaptureSettings { max_pixels: DEFAULT_CAPTURE_MAX_PIXELS, fps: 30, generation: 0 }
    }

    /// Sets the pixel budget (snapped to a preset). Returns whether it changed, in which
    /// case running captures must be rebuilt and the generation is bumped.
    pub fn set_capture_max_pixels(&mut self, max_pixels: u32) -> (changed: bool)
        ensures
            normalized_budget(max_pixels, final(self).max_pixels),
            changed == (final(self).max_pixels != old(self).max_pixels),
            final(self).generation == if changed { next_generation(old(self).generation) } else { old(self).generation },
            final(self).fps == old(self).fps,
    {
        let normalized = normalize_capture_max_pixels(max_pixels);
        let previous = self.max_pixels;
        self.max_pixels = normalized;
        if previous != normalized {
            self.generation = self.generation.wrapping_add(1);
            true
        } else {
            false
        }
    }

    pub fn get_capture_max_pixels(&self) -> (r: u32)
        ensures
            r == self.max_pixels,
    {
        self.max_pixels
    }

    /// Sets the capture rate, clamped to 1..=60.
    pub fn set_capture_fps(&mut self, fps: u8)
        ensures
            final(self).fps == clamp_fps(fps),
            final(self).max_pixels == old(self).max_pixels,
            final(self).generation == old(self).generation,
    {
        self.fps = clamp_fps_exec(fps);
    }

    pub fn get_capture_fps(&self) -> (r: u8)
        ensures
            r == self.fps,
    {
        self.fps
    }

    /// Hardware acceleration does not apply to this backend.
    pub fn set_hardware_acceleration(&mut self, _enabled: bool)
        ensures
            *final(self) == *old(self),
    {
    }

    pub fn get_hardware_acceleration(&self) -> (b: bool)
        ensures
            !b,
    {
        false
    }

    /// Sampling always covers every pixel on this backend.
    pub fn set_sample_ratio(&mut self, _percent: u8)
        ensures
            *final(self) == *old(self),
    {
    }

    pub fn get_sample_ratio(&self) -> (r: u8)
        ensures
            r == 100,
    {
        100
    }
}

/// Capture settings of the macOS (ScreenCaptureKit) backend.
#[derive(Debug)]
pub struct MacCaptureSettings {
    /// Pixel budget of the capture resolution; 0 means no limit.
    pub max_pixels: u32,
    pub fps: u8,
    /// Bumped whenever a change requires capture pipelines to be rebuilt.
    pub generation: u64,
}

impl MacCaptureSettings {
    /// 36p budget at 30 frames per second.
    pub fn new() -> (s: MacCaptureSettings)
        ensures
            s.max_pixels == DEFAULT_CAPTURE_MAX_PIXELS && s.fps == 30 && s.generation == 0,
    {
        MacCaptureSettings { max_pixels: DEFAULT_CAPTURE_MAX_PIXELS, fps: 30, generation: 0 }
    }

    /// Sets the pixel budget (snapped to a preset). Returns whether it changed, in which
    /// case running captures must be rebuilt and the generation is bumped.
    pub fn set_capture_max_pixels(&mut self, max_pixels: u32) -> (changed: bool)
        ensures
            normalized_budget(max_pixels, final(self).max_pixels),
            changed == (final(self).max_pixels != old(self).max_pixels),
            final(self).generation == if changed { next_generation(old(self).generation) } else { old(self).generation },
            final(self).fps == old(self).fps,
    {
        let normalized = normalize_capture_max_pixels(max_pixels);
        let previous = self.max_pixels;
        self.max_pixels = normalized;
        if previous != normalized {
            self.generation = self.generation.wrapping_add(1);
            true
        } else {
            false
        }
    }

    pub fn get_capture_max_pixels(&self) -> (r: u32)
        ensures
            r == self.max_pixels,
    {
        self.max_pixels
    }

    /// Sets the capture rate, clamped to 1..=60.
    pub fn set_capture_fps(&mut self, fps: u8)
        ensures
            final(self).fps == clamp_fps(fps),
            final(self).max_pixels == old(self).max_pixels,
            final(self).generation == old(self).generation,
    {
        self.fps = clamp_fps_exec(fps);
    }

    pub fn get_capture_fps(&self) -> (r: u8)
        ensures
            r == self.fps,
    {
        self.fps
    }

    /// ScreenCaptureKit always uses hardware acceleration.
    pub fn set_hardware_acceleration(&mut self, _enabled: bool)
        ensures
            *final(self) == *old(self),
    {
    }

    pub fn get_hardware_acceleration(&self) -> (b: bool)
        ensures
            b,
    {
        true
    }

    /// Sampling always covers every pixel on this backend.
    pub fn set_sample_ratio(&mut self, _percent: u8)
        ensures
            *final(self) == *old(self),
    {
    }

    pub fn get_sample_ratio(&self) -> (r: u8)
        ensures
            r == 100,
    {
        100
    }
}

/// The capture methods of the Windows backend.
#[derive(Clone, Copy, Debug, PartialEq, Eq, Structural)]
pub enum WindowsCaptureMethod {
    Dxgi,
    Gdi,
    Graphics,
}

/// `c` is `l` once an ASCII upper-case letter is made lower-case.
pub open spec fn lower_matches(c: char, l: char) -> bool {
    if 'A' <= c <= 'Z' {
        c as u32 + 32 == l as u32
    } else {
        c == l
    }
}

/// `s` is the lower-case word `name` in any letter case.
pub open spec fn names(s: Seq<char>, name: Seq<char>) -> bool {
    s.len() == name.len() && forall|i: int| 0 <= i < s.len() ==> lower_matches(#[trigger] s[i], name[i])
}

/// The name of a capture method.
pub open spec fn method_name(m: WindowsCaptureMethod) -> Seq<char> {
    match m {
        WindowsCaptureMethod::Dxgi => "dxgi"@,
        WindowsCaptureMethod::Gdi => "gdi"@,
        WindowsCaptureMethod::Graphics => "graphics"@,
    }
}

fn char_matches(c: char, l: char) -> (b: bool)
    ensures
        b == lower_matches(c, l),
{
    if 'A' <= c && c <= 'Z' {
        c as u32 + 32 == l as u32
    } else {
        c == l
    }
}

fn names_word(s: &Vec<char>, name: &str) -> (b: bool)
    ensures
        b == names(s@, name@),
{
    let w = chars_of(name);
    if s.len() != w.len() {
        return false;
    }
    let mut i: usize = 0;
    while i < s.len()
        invariant
            s@.len() == w@.len(),
            w@ == name@,
            i <= s@.len(),
            forall|j: int| 0 <= j < i ==> lower_matches(#[trigger] s@[j], w@[j]),
        decreases s.len() - i,
    {
        if !char_matches(s[i], w[i]) {
            return false;
        }
        i = i + 1;
    }
    true
}

impl WindowsCaptureMethod {
    /// The method's name.
    pub fn name(&self) -> (s: &'static str)
        ensures
            s@ == method_name(*self),
    {
        match self {
            WindowsCaptureMethod::Dxgi => "dxgi",
            WindowsCaptureMethod::Gdi => "gdi",
            WindowsCaptureMethod::Graphics => "graphics",
        }
    }

    /// The method a name denotes, in any letter case.
    pub fn parse(s: &str) -> (r: Result<WindowsCaptureMethod, String>)
        ensures
            match r {
                Ok(m) => names(s@, method_name(m)),
                Err(e) => e@ == "Unknown capture method: "@ + s@
                    && !names(s@, "dxgi"@) && !names(s@, "gdi"@) && !names(s@, "graphics"@),
            },
    {
        proof {
            reveal_strlit("dxgi");
            reveal_strlit("gdi");
            reveal_strlit("graphics");
        }
        let v = chars_of(s);
        if names_word(&v, "dxgi") {
            Ok(WindowsCaptureMethod::Dxgi)
        } else if names_word(&v, "gdi") {
            Ok(WindowsCaptureMethod::Gdi)
        } else if names_word(&v, "graphics") {
            Ok(WindowsCaptureMethod::Graphics)
        } else {
            Err(concat2("Unknown capture method: ", s))
        }
    }
}

/// Capture settings of the Windows backend.
#[derive(Debug)]
pub struct WindowsCaptureSettings {
    /// Capture resolution as a percentage (1..=100) of the display's.
    pub scale_percent: u8,
    pub fps: u8,
    pub hardware_acceleration: bool,
    pub method: WindowsCaptureMethod,
    /// Bumped whenever a change requires capture pipelines to be rebuilt.
    pub generation: u64,
}

impl WindowsCaptureSettings {
    /// 5% scale at 30 frames per second, hardware accelerated, DXGI.
    pub fn new() -> (s: WindowsCaptureSettings)
        ensures
            s.scale_percent == 5 && s.fps == 30 && s.hardware_acceleration && s.method == WindowsCaptureMethod::Dxgi
                && s.generation == 0,
    {
        WindowsCaptureSettings {
            scale_percent: 5,
            fps: 30,
            hardware_acceleration: true,
            method: WindowsCaptureMethod::Dxgi,
            generation: 0,
        }
    }

    /// Sets the capture scale, clamped to 1..=100. Returns whether it changed, in which
    /// case running captures must be rebuilt and the generation is bumped.
    pub fn set_capture_scale_percent(&mut self, percent: u8) -> (changed: bool)
        ensures
            final(self).scale_percent == (if percent < 1 { 1 } else if percent > 100 { 100 } else { percent }),
            changed == (final(self).scale_percent != old(self).scale_percent),
            final(self).generation == if changed { next_generation(old(self).generation) } else { old(self).generation },
            final(self).fps == old(self).fps && final(self).method == old(self).method,
            final(self).hardware_acceleration == old(self).hardware_acceleration,
    {
        let clamped = if percent < 1 { 1 } else if percent > 100 { 100 } else { percent };
        let previous = self.scale_percent;
        self.scale_percent = clamped;
        if previous != clamped {
            self.generation = self.generation.wrapping_add(1);
            true
        } else {
            false
        }
    }

    pub fn get_capture_scale_percent(&self) -> (r: u8)
        ensures
            r == self.scale_percent,
    {
        self.scale_percent
    }

    /// Sets the capture rate, clamped to 1..=60.
    pub fn set_capture_fps(&mut self, fps: u8)
        ensures
            final(self).fps == clamp_fps(fps),
            final(self).scale_percent == old(self).scale_percent && final(self).method == old(self).method,
            final(self).generation == old(self).generation,
            final(self).hardware_acceleration == old(self).hardware_acceleration,
    {
        self.fps = clamp_fps_exec(fps);
    }

    pub fn get_capture_fps(&self) -> (r: u8)
        ensures
            r == self.fps,
    {
        self.fps
    }

    pub fn set_hardware_acceleration(&mut self, enabled: bool)
        ensures
            final(self).hardware_acceleration == enabled,
            final(self).fps == old(self).fps && final(self).scale_percent == old(self).scale_percent,
            final(self).method == old(self).method && final(self).generation == old(self).generation,
    {
        self.hardware_acceleration = enabled;
    }

    pub fn get_hardware_acceleration(&self) -> (b: bool)
        ensures
            b == self.hardware_acceleration,
    {
        self.hardware_acceleration
    }

    /// Selects a capture method; running captures must be rebuilt, so the generation is bumped.
    pub fn set_capture_method(&mut self, method: WindowsCaptureMethod)
        ensures
            final(self).method == method,
            final(self).generation == next_generation(old(self).generation),
            final(self).fps == old(self).fps && final(self).scale_percent == old(self).scale_percent,
            final(self).hardware_acceleration == old(self).hardware_acceleration,
    {
        self.method = method;
        self.generation = self.generation.wrapping_add(1);
    }

    pub fn get_capture_method(&self) -> (m: WindowsCaptureMethod)
        ensures
            m == self.method,
    {
        self.method
    }

    /// Sampling always covers every pixel on this backend.
    pub fn set_sample_ratio(&mut self, _percent: u8)
        ensures
            *final(self) == *old(self),
    {
    }

    pub fn get_sample_ratio(&self) -> (r: u8)
        ensures
            r == 100,
    {
        100
    }
}

/// A monitor as the capture library reports it: its size, where it could be read.
#[derive(Clone, Copy, Debug)]
pub struct MonitorSize {
    pub width: Option<u32>,
    pub height: Option<u32>,
}

/// A screen capturer over the cross-platform capture library: it keeps the selected
/// monitor and the last frame in BGRA order.
#[derive(Debug)]
pub struct XcapCapturer {
    pub monitor_index: usize,
    /// The last frame, BGRA.
    pub buffer: Vec<u8>,
    pub width: u32,
    pub height: u32,
    pub stride: usize,
}

/// The monitor size used when the library cannot report it (1920x1080).
pub open spec fn monitor_dims(m: MonitorSize) -> (u32, u32) {
    (
        match m.width { Some(w) => w, None => 1920 },
        match m.height { Some(h) => h, None => 1080 },
    )
}

/// One call of `set_output_index(j)` on a capturer seeing `monitors`: it succeeds
/// (`ok`) exactly when `j` names a monitor and then selects it; on failure nothing changes.
pub open spec fn selection_step(c: XcapCapturer, monitors: Seq<MonitorSize>, j: usize, ok: bool, c2: XcapCapturer) -> bool {
    if ok {
        j < monitors.len() && c2.monitor_index == j
    } else {
        j >= monitors.len() && c2 == c
    }
}

/// The monitor selected after the calls `js` (with outcomes `oks`) starting from `first`:
/// the index of the last call that succeeded, or `first` where none did.
pub open spec fn last_selected(first: usize, js: Seq<usize>, oks: Seq<bool>) -> usize
    decreases js.len(),
{
    if js.len() == 0 || oks.len() < js.len() {
        first
    } else if oks[js.len() - 1] {
        js.last()
    } else {
        last_selected(first, js.drop_last(), oks.take(js.len() - 1))
    }
}

/// After any calls of `set_output_index`, the selected monitor is the one named by the
/// last call that succeeded (or the first selection where none did), and each success
/// named a monitor that existed then.
pub proof fn law_last_selection_wins(
    cs: Seq<XcapCapturer>,
    monitors: Seq<Seq<MonitorSize>>,
    js: Seq<usize>,
    oks: Seq<bool>,
)
    requires
        cs.len() == js.len() + 1,
        monitors.len() == js.len(),
        oks.len() == js.len(),
        forall|i: int| 0 <= i < js.len() ==> #[trigger] selection_step(cs[i], monitors[i], js[i], oks[i], cs[i + 1]),
    ensures
        cs.last().monitor_index == last_selected(cs[0].monitor_index, js, oks),
        forall|i: int| 0 <= i < js.len() && #[trigger] oks[i] ==> js[i] < monitors[i].len(),
    decreases js.len(),
{
    if js.len() > 0 {
        let n = js.len() - 1;
        law_last_selection_wins(cs.take(n + 1), monitors.take(n), js.take(n), oks.take(n));
        assert(cs.take(n + 1)[0] == cs[0]);
        assert(cs.take(n + 1).last() == cs[n]);
        assert(js.drop_last() =~= js.take(n));
        assert(selection_step(cs[n], monitors[n], js[n], oks[n], cs[n + 1]));
        assert forall|i: int| 0 <= i < js.len() && #[trigger] oks[i] implies js[i] < monitors[i].len() by {
            assert(selection_step(cs[i], monitors[i], js[i], oks[i], cs[i + 1]));
        }
    }
}

impl XcapCapturer {
    /// A capturer of the first monitor.
    pub fn new(monitors: &Vec<MonitorSize>) -> (r: Result<XcapCapturer, ScreenCaptureError>)
        requires
            forall|i: int| 0 <= i < monitors@.len() ==> monitor_dims(#[trigger] monitors@[i]).0 * 4 <= usize::MAX,
        ensures
            match r {
                Ok(c) => monitors@.len() > 0 && c.monitor_index == 0 && (c.width, c.height) == monitor_dims(monitors@[0])
                    && c.stride == c.width * 4 && c.buffer@.len() == 0,
                Err(e) => monitors@.len() == 0 && e == ScreenCaptureError::InvalidState("Monitor index out of range"),
            },
    {
        Self::with_output(monitors, 0)
    }

    /// A capturer of monitor `output_index`.
    pub fn with_output(monitors: &Vec<MonitorSize>, output_index: usize) -> (r: Result<XcapCapturer, ScreenCaptureError>)
        requires
            forall|i: int| 0 <= i < monitors@.len() ==> monitor_dims(#[trigger] monitors@[i]).0 * 4 <= usize::MAX,
        ensures
            match r {
                Ok(c) => output_index < monitors@.len() && c.monitor_index == output_index
                    && (c.width, c.height) == monitor_dims(monitors@[output_index as int])
                    && c.stride == c.width * 4 && c.buffer@.len() == 0,
                Err(e) => output_index >= monitors@.len() && e == ScreenCaptureError::InvalidState("Monitor index out of range"),
            },
    {
        if output_index >= monitors.len() {
            return Err(ScreenCaptureError::InvalidState("Monitor index out of range"));
        }
        let m = monitors[output_index];
        assert(monitor_dims(monitors@[output_index as int]).0 * 4 <= usize::MAX);
        let width = match m.width { Some(w) => w, None => 1920 };
        let height = match m.height { Some(h) => h, None => 1080 };
        Ok(XcapCapturer { monitor_index: output_index, buffer: Vec::new(), width, height, stride: width as usize * 4 })
    }

    /// Switches to monitor `output_index`.
    pub fn set_output_index(&mut self, monitors: &Vec<MonitorSize>, output_index: usize) -> (r: Result<(), ScreenCaptureError>)
        requires
            forall|i: int| 0 <= i < monitors@.len() ==> monitor_dims(#[trigger] monitors@[i]).0 * 4 <= usize::MAX,
        ensures
            match r {
                Ok(()) => output_index < monitors@.len() && final(self).monitor_index == output_index
                    && (final(self).width, final(self).height) == monitor_dims(monitors@[output_index as int])
                    && final(self).stride == final(self).width * 4 && final(self).buffer == old(self).buffer,
                Err(e) => output_index >= monitors@.len() && e == ScreenCaptureError::InvalidState("Monitor index out of range")
                    && *final(self) == *old(self),
            },
            selection_step(*old(self), monitors@, output_index, r is Ok, *final(self)),
    {
        if output_index >= monitors.len() {
            return Err(ScreenCaptureError::InvalidState("Monitor index out of range"));
        }
        let m = monitors[output_index];
        assert(monitor_dims(monitors@[output_index as int]).0 * 4 <= usize::MAX);
        self.monitor_index = output_index;
        self.width = match m.width { Some(w) => w, None => 1920 };
        self.height = match m.height { Some(h) => h, None => 1080 };
        self.stride = self.width as usize * 4;
        Ok(())
    }

    /// The selected monitor.
    pub fn output_index(&self) -> (r: usize)
        ensures
            r == self.monitor_index,
    {
        self.monitor_index
    }

    /// Stores a captured RGBA image of `width` x `height` as the current BGRA frame.
    pub fn store_rgba(&mut self, rgba: &[u8], width: u32, height: u32)
        requires
            width * 4 <= usize::MAX,
        ensures
            final(self).width == width && final(self).height == height,
            final(self).stride == width * 4,
            final(self).monitor_index == old(self).monitor_index,
            final(self).buffer@ == bgra_of(rgba@),
    {
        self.width = width;
        self.height = height;
        self.stride = width as usize * 4;
        self.buffer = rgba_to_bgra(rgba);
    }

    /// The current frame.
    pub fn frame(&self) -> (f: ScreenFrame<'_>)
        ensures
            f.width == self.width && f.height == self.height && f.stride == self.stride,
            f.pixels@ == self.buffer@,
            f.dirty_regions@.len() == 0,
    {
        let empty: &[DirtyRegion] = &[];
        ScreenFrame { width: self.width, height: self.height, stride: self.stride, pixels: self.buffer.as_slice(), dirty_regions: empty }
    }

    /// The current frame size.
    pub fn size(&self) -> (r: (u32, u32))
        ensures
            r == (self.width, self.height),
    {
        (self.width, self.height)
    }
}

/// The pixels of an RGBA image in BGRA order (whole pixels only).
pub open spec fn bgra_of(rgba: Seq<u8>) -> Seq<u8> {
    Seq::new((rgba.len() / 4 * 4) as nat, |i: int| {
        let k = i % 4;
        let base = i - k;
        if k == 0 { rgba[base + 2] } else if k == 2 { rgba[base] } else { rgba[i] }
    })
}

/// Swaps red and blue of every whole RGBA pixel, dropping a trailing partial pixel.
pub fn rgba_to_bgra(rgba: &[u8]) -> (out: Vec<u8>)
    ensures
        out@ == bgra_of(rgba@),
{
    let len = rgba.len();
    let n = len / 4;
    let mut out: Vec<u8> = Vec::new();
    let mut p: usize = 0;
    while p < n
        invariant
            len == rgba@.len(),
            n == rgba@.len() / 4,
            p <= n,
            out@ == bgra_of(rgba@).take(4 * p as int),
        decreases n - p,
    {
        assert(4 * p + 3 < rgba@.len()) by (nonlinear_arith)
            requires
                p < n,
                n == rgba@.len() / 4,
        ;
        let base: usize = 4 * p;
        out.push(rgba[base + 2]);
        out.push(rgba[base + 1]);
        out.push(rgba[base]);
        out.push(rgba[base + 3]);
        proof {
            let b = bgra_of(rgba@);
            assert forall|i: int| 4 * p <= i < 4 * p + 4 implies #[trigger] b[i] == out@[i] by {
                assert(i % 4 == i - 4 * p);
            }
            assert(out@ =~= b.take(4 * p + 4));
        }
        p = p + 1;
    }
    proof {
        assert(bgra_of(rgba@).take(4 * n as int) =~= bgra_of(rgba@));
    }
    out
}

} // verus!
