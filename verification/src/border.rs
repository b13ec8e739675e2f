//! Black border (letterbox / pillarbox) detection for screen mirroring, and the processor
//! that only switches the border after consistent detections.
use vstd::prelude::*;
use crate::screen::ScreenFrame;
use vstd::std_specs::cmp::PartialEqSpecImpl;

verus! {

/// A detected border: bars of `horizontal_size` rows at top and bottom and
/// `vertical_size` columns left and right, unless unknown.
#[derive(Clone, Copy, Debug)]
pub struct BlackBorder {
    pub unknown: bool,
    pub horizontal_size: i32,
    pub vertical_size: i32,
}

/// Two unknown borders are equal whatever their sizes; known borders are equal when
/// their sizes are.
pub open spec fn same_border(a: BlackBorder, b: BlackBorder) -> bool {
    if a.unknown {
        b.unknown
    } else {
        !b.unknown && a.horizontal_size == b.horizontal_size && a.vertical_size == b.vertical_size
    }
}

impl PartialEq for BlackBorder {
    fn eq(&self, other: &Self) -> (r: bool) {
        if self.unknown {
            other.unknown
        } else {
            !other.unknown && self.horizontal_size == other.horizontal_size && self.vertical_size == other.vertical_size
        }
    }
}

impl PartialEqSpecImpl for BlackBorder {
    open spec fn obeys_eq_spec() -> bool {
        true
    }

    open spec fn eq_spec(&self, other: &Self) -> bool {
        same_border(*self, *other)
    }
}

/// No border: known, zero sizes.
pub open spec fn no_border() -> BlackBorder {
    BlackBorder { unknown: false, horizontal_size: 0, vertical_size: 0 }
}

impl BlackBorder {
    /// No border: known, zero sizes.
    pub fn none() -> (b: BlackBorder)
        ensures
            b == no_border(),
    {
        BlackBorder { unknown: false, horizontal_size: 0, vertical_size: 0 }
    }
}

/// How borders are searched for.
#[derive(Clone, Copy, Debug, PartialEq, Eq, Structural)]
pub enum BlackBorderMode {
    Default,
    Classic,
    Osd,
    Letterbox,
}

impl BlackBorderMode {
    /// 1 is classic, 2 on-screen-display aware, 3 letterbox only; anything else default.
    pub fn from_value(value: i32) -> (m: BlackBorderMode)
        ensures
            m == (if value == 1 {
                BlackBorderMode::Classic
            } else if value == 2 {
                BlackBorderMode::Osd
            } else if value == 3 {
                BlackBorderMode::Letterbox
            } else {
                BlackBorderMode::Default
            }),
    {
        match value {
            1 => BlackBorderMode::Classic,
            2 => BlackBorderMode::Osd,
            3 => BlackBorderMode::Letterbox,
            _ => BlackBorderMode::Default,
        }
    }
}

/// A frame whose pixel offsets fit in memory addresses.
pub open spec fn frame_ok(f: ScreenFrame) -> bool {
    f.height * f.stride + 4 * f.width + 3 <= usize::MAX
}

/// Whether a frame's pixel offsets fit in memory addresses.
pub fn frame_fits(f: &ScreenFrame) -> (b: bool)
    ensures
        b == frame_ok(*f),
{
    let h = f.height as u128;
    let s = f.stride as u128;
    let w = f.width as u128;
    assert(h * s <= 0xffff_ffff * 0xffff_ffff_ffff_ffffnat) by (nonlinear_arith)
        requires
            h <= 0xffff_ffff,
            s <= 0xffff_ffff_ffff_ffff,
    ;
    h * s + 4 * w + 3 <= usize::MAX as u128
}

/// The width of a frame as a signed 32-bit number.
pub open spec fn iw(f: ScreenFrame) -> int {
    (f.width as i32) as int
}

/// The height of a frame as a signed 32-bit number.
pub open spec fn ih(f: ScreenFrame) -> int {
    (f.height as i32) as int
}

/// The blue, green and red bytes of pixel (x, y), if it lies in the frame.
pub open spec fn sample(f: ScreenFrame, x: int, y: int) -> Option<(u8, u8, u8)> {
    if x < 0 || y < 0 || x >= iw(f) || y >= ih(f) {
        None
    } else {
        let off = y * f.stride + x * 4;
        if off + 3 >= f.pixels@.len() {
            None
        } else {
            Some((f.pixels@[off], f.pixels@[off + 1], f.pixels@[off + 2]))
        }
    }
}

/// Pixel (x, y) lies in the frame and is black (every channel below `thr`).
pub open spec fn black_at(f: ScreenFrame, thr: u8, x: int, y: int) -> bool {
    sample(f, x, y) matches Some(c) && c.0 < thr && c.1 < thr && c.2 < thr
}

/// Pixel (x, y) lies in the frame and is not black.
pub open spec fn lit_at(f: ScreenFrame, thr: u8, x: int, y: int) -> bool {
    sample(f, x, y) is Some && !black_at(f, thr, x, y)
}

/// `r` is the first `i` in `0..n` where `hit` holds, or -1 where it holds nowhere.
pub open spec fn first_hit(r: int, n: int, hit: spec_fn(int) -> bool) -> bool {
    if r == -1 {
        forall|i: int| 0 <= i < n ==> !#[trigger] hit(i)
    } else {
        0 <= r < n && hit(r) && forall|i: int| 0 <= i < r ==> !#[trigger] hit(i)
    }
}

proof fn lemma_i32_of_u32(w: u32)
    ensures
        (w as i32) as int == if w <= 0x7fff_ffff { w as int } else { w as int - 0x1_0000_0000 },
{
    assert((w as i32) as int == if w <= 0x7fff_ffff { w as int } else { w as int - 0x1_0000_0000 }) by (bit_vector);
}

/// Detects black borders by sampling pixels against a darkness threshold.
#[derive(Clone, Copy, Debug)]
pub struct BlackBorderDetector {
    /// A channel below this is dark.
    pub threshold: u8,
}

impl BlackBorderDetector {
    /// A detector with the given darkness threshold.
    pub fn with_threshold(threshold: u8) -> (d: BlackBorderDetector)
        ensures
            d.threshold == threshold,
    {
        BlackBorderDetector { threshold }
    }

    fn sample_bgr(frame: &ScreenFrame, x: i32, y: i32) -> (r: Option<(u8, u8, u8)>)
        requires
            frame_ok(*frame),
        ensures
            r == sample(*frame, x as int, y as int),
    {
        if x < 0 || y < 0 {
            return None;
        }
        let width = frame.width as i32;
        let height = frame.height as i32;
        if x >= width || y >= height {
            return None;
        }
        proof {
            lemma_i32_of_u32(frame.width);
            lemma_i32_of_u32(frame.height);
            assert((y as int) * (frame.stride as int) <= (frame.height as int) * (frame.stride as int)) by (nonlinear_arith)
                requires
                    0 <= y < frame.height,
                    frame.stride >= 0,
            ;
        }
        let offset = (y as usize) * frame.stride + (x as usize) * 4;
        if offset + 3 >= frame.pixels.len() {
            return None;
        }
        Some((frame.pixels[offset], frame.pixels[offset + 1], frame.pixels[offset + 2]))
    }

    fn lit(&self, frame: &ScreenFrame, x: i32, y: i32) -> (b: bool)
        requires
            frame_ok(*frame),
        ensures
            b == lit_at(*frame, self.threshold, x as int, y as int),
    {
        match Self::sample_bgr(frame, x, y) {
            Some((b, g, r)) => !(b < self.threshold && g < self.threshold && r < self.threshold),
            None => false,
        }
    }

    fn black(&self, frame: &ScreenFrame, x: i32, y: i32) -> (b: bool)
        requires
            frame_ok(*frame),
        ensures
            b == black_at(*frame, self.threshold, x as int, y as int),
    {
        match Self::sample_bgr(frame, x, y) {
            Some((b, g, r)) => b < self.threshold && g < self.threshold && r < self.threshold,
            None => false,
        }
    }
}

/// Default mode, column probe `x`: the right edge at mid height, or the left edge at a
/// third or two thirds of the height.
pub open spec fn default_x_hit(f: ScreenFrame, thr: u8, x: int) -> bool {
    let w = iw(f);
    let h = ih(f);
    lit_at(f, thr, w - 1 - x, h / 2) || lit_at(f, thr, x, h / 3) || lit_at(f, thr, x, (h / 3) * 2)
}

/// Default mode, row probe `y`: the bottom edge at mid width, or the top edge at a third
/// or two thirds of the width.
pub open spec fn default_y_hit(f: ScreenFrame, thr: u8, y: int) -> bool {
    let w = iw(f);
    let h = ih(f);
    lit_at(f, thr, w / 2, h - 1 - y) || lit_at(f, thr, w / 3, y) || lit_at(f, thr, (w / 3) * 2, y)
}

/// Letterbox mode, row probe `y`: top rows at mid, quarter and three-quarter width, and
/// the bottom rows at quarter and three-quarter width.
pub open spec fn letterbox_y_hit(f: ScreenFrame, thr: u8, y: int) -> bool {
    let w = iw(f);
    let h = ih(f);
    let w25 = w / 4;
    let w75 = w25 * 3;
    lit_at(f, thr, w / 2, y) || lit_at(f, thr, w25, y) || lit_at(f, thr, w75, y) || lit_at(f, thr, w25, h - 1 - y)
        || lit_at(f, thr, w75, h - 1 - y)
}

/// On-screen-display mode, row probe `y` at column `x`: the four corners of the inner
/// rectangle.
pub open spec fn osd_y_hit(f: ScreenFrame, thr: u8, x: int, y: int) -> bool {
    let w = iw(f);
    let h = ih(f);
    lit_at(f, thr, x, y) || lit_at(f, thr, x, h - 1 - y) || lit_at(f, thr, w - 1 - x, y) || lit_at(f, thr, w - 1 - x, h - 1 - y)
}

/// Classic mode, diagonal probe `i`: pixel (min(i, w/3), min(i, h/3)) lit.
pub open spec fn classic_hit(f: ScreenFrame, thr: u8, i: int) -> bool {
    let wt = iw(f) / 3;
    let ht = ih(f) / 3;
    lit_at(f, thr, if i < wt { i } else { wt }, if i < ht { i } else { ht })
}

/// `r` is where walking from `start` toward 0 along a line stops: at 0, or next to the
/// first black pixel, passing pixels that are lit or outside the frame.
pub open spec fn walk_back(r: int, start: int, black: spec_fn(int) -> bool) -> bool {
    &&& 0 <= r <= start
    &&& (r == 0 || black(r - 1))
    &&& forall|i: int| r <= i < start ==> !#[trigger] black(i)
}

impl BlackBorderDetector {
    /// First index in `0..n` at which the default-mode column probe hits, or -1.
    fn scan_default_x(&self, frame: &ScreenFrame, n: i32) -> (r: i32)
        requires
            frame_ok(*frame),
            iw(*frame) > 0 && ih(*frame) > 0,
            n == iw(*frame) / 3,
        ensures
            first_hit(r as int, n as int, |x: int| default_x_hit(*frame, self.threshold, x)),
    {
        let w = frame.width as i32 - 1;
        let h = frame.height as i32;
        let h33 = h / 3;
        let mut x: i32 = 0;
        while x < n
            invariant
                frame_ok(*frame),
                iw(*frame) > 0 && ih(*frame) > 0,
                n == iw(*frame) / 3,
                w == iw(*frame) - 1,
                h == ih(*frame),
                h33 == h / 3,
                0 <= x <= n,
                forall|i: int| 0 <= i < x ==> !#[trigger] default_x_hit(*frame, self.threshold, i),
            decreases n - x,
        {
            if self.lit(frame, w - x, h / 2) || self.lit(frame, x, h33) || self.lit(frame, x, h33 * 2) {
                return x;
            }
            x = x + 1;
        }
        -1
    }

    /// First index in `0..n` at which the default-mode row probe hits, or -1.
    fn scan_default_y(&self, frame: &ScreenFrame, n: i32) -> (r: i32)
        requires
            frame_ok(*frame),
            iw(*frame) > 0 && ih(*frame) > 0,
            n == ih(*frame) / 3,
        ensures
            first_hit(r as int, n as int, |y: int| default_y_hit(*frame, self.threshold, y)),
    {
        let w = frame.width as i32;
        let h = frame.height as i32 - 1;
        let w33 = w / 3;
        let mut y: i32 = 0;
        while y < n
            invariant
                frame_ok(*frame),
                iw(*frame) > 0 && ih(*frame) > 0,
                n == ih(*frame) / 3,
                w == iw(*frame),
                h == ih(*frame) - 1,
                w33 == w / 3,
                0 <= y <= n,
                forall|i: int| 0 <= i < y ==> !#[trigger] default_y_hit(*frame, self.threshold, i),
            decreases n - y,
        {
            if self.lit(frame, w / 2, h - y) || self.lit(frame, w33, y) || self.lit(frame, w33 * 2, y) {
                return y;
            }
            y = y + 1;
        }
        -1
    }

    /// Default mode: the first lit column from the left and right edges and the first
    /// lit row from the top and bottom edges.
    pub fn process_default(&self, frame: &ScreenFrame) -> (b: BlackBorder)
        requires
            frame_ok(*frame),
        ensures
            iw(*frame) <= 0 || ih(*frame) <= 0 ==> b == no_border(),
            iw(*frame) > 0 && ih(*frame) > 0 ==> {
                &&& first_hit(b.vertical_size as int, iw(*frame) / 3, |x: int| default_x_hit(*frame, self.threshold, x))
                &&& first_hit(b.horizontal_size as int, ih(*frame) / 3, |y: int| default_y_hit(*frame, self.threshold, y))
                &&& b.unknown == (b.vertical_size == -1 || b.horizontal_size == -1)
            },
    {
        let width = frame.width as i32;
        let height = frame.height as i32;
        if width <= 0 || height <= 0 {
            return BlackBorder::none();
        }
        let fx = self.scan_default_x(frame, width / 3);
        let fy = self.scan_default_y(frame, height / 3);
        BlackBorder { unknown: fx == -1 || fy == -1, horizontal_size: fy, vertical_size: fx }
    }

    /// First row in `0..h/3` at which the letterbox probe hits, or -1.
    fn scan_letterbox_y(&self, frame: &ScreenFrame) -> (r: i32)
        requires
            frame_ok(*frame),
            iw(*frame) > 0 && ih(*frame) > 0,
        ensures
            first_hit(r as int, ih(*frame) / 3, |y: int| letterbox_y_hit(*frame, self.threshold, y)),
    {
        let width = frame.width as i32;
        let height = frame.height as i32;
        let w25 = width / 4;
        let h33 = height / 3;
        let w75 = w25 * 3;
        let xc = width / 2;
        let h = height - 1;
        let mut y: i32 = 0;
        while y < h33
            invariant
                frame_ok(*frame),
                width == iw(*frame) && height == ih(*frame),
                width > 0 && height > 0,
                w25 == width / 4 && w75 == w25 * 3 && xc == width / 2 && h == height - 1,
                h33 == height / 3,
                0 <= y <= h33,
                forall|i: int| 0 <= i < y ==> !#[trigger] letterbox_y_hit(*frame, self.threshold, i),
            decreases h33 - y,
        {
            if self.lit(frame, xc, y) || self.lit(frame, w25, y) || self.lit(frame, w75, y) || self.lit(frame, w25, h - y)
                || self.lit(frame, w75, h - y) {
                return y;
            }
            y = y + 1;
        }
        -1
    }

    /// Letterbox mode: only horizontal bars, from the first lit row.
    pub fn process_letterbox(&self, frame: &ScreenFrame) -> (b: BlackBorder)
        requires
            frame_ok(*frame),
        ensures
            iw(*frame) <= 0 || ih(*frame) <= 0 ==> b == no_border(),
            iw(*frame) > 0 && ih(*frame) > 0 ==> {
                &&& first_hit(b.horizontal_size as int, ih(*frame) / 3, |y: int| letterbox_y_hit(*frame, self.threshold, y))
                &&& b.vertical_size == 0
                &&& b.unknown == (b.horizontal_size == -1)
            },
    {
        let width = frame.width as i32;
        let height = frame.height as i32;
        if width <= 0 || height <= 0 {
            return BlackBorder::none();
        }
        let fy = self.scan_letterbox_y(frame);
        BlackBorder { unknown: fy == -1, horizontal_size: fy, vertical_size: 0 }
    }
}

impl BlackBorderDetector {
    /// First diagonal index in `0..n` at which the classic probe hits, or -1.
    fn scan_classic(&self, frame: &ScreenFrame, n: i32) -> (r: i32)
        requires
            frame_ok(*frame),
            iw(*frame) / 3 > 0 && ih(*frame) / 3 > 0,
            n == if iw(*frame) / 3 > ih(*frame) / 3 { iw(*frame) / 3 } else { ih(*frame) / 3 },
        ensures
            first_hit(r as int, n as int, |i: int| classic_hit(*frame, self.threshold, i)),
    {
        let wt = frame.width as i32 / 3;
        let ht = frame.height as i32 / 3;
        let mut i: i32 = 0;
        while i < n
            invariant
                frame_ok(*frame),
                wt == iw(*frame) / 3 && ht == ih(*frame) / 3,
                wt > 0 && ht > 0,
                n == if wt > ht { wt } else { ht },
                0 <= i <= n,
                forall|j: int| 0 <= j < i ==> !#[trigger] classic_hit(*frame, self.threshold, j),
            decreases n - i,
        {
            let x = if i < wt { i } else { wt };
            let y = if i < ht { i } else { ht };
            if self.lit(frame, x, y) {
                return i;
            }
            i = i + 1;
        }
        -1
    }

    /// Classic mode: the first lit pixel along the diagonal from the top-left corner,
    /// then walked back left and up over non-black pixels.
    pub fn process_classic(&self, frame: &ScreenFrame) -> (b: BlackBorder)
        requires
            frame_ok(*frame),
        ensures
            ({
                let wt = iw(*frame) / 3;
                let ht = ih(*frame) / 3;
                let n = if wt > ht { wt } else { ht };
                let thr = self.threshold;
                if wt <= 0 || ht <= 0 {
                    b == no_border()
                } else {
                    ||| (b.unknown && b.vertical_size == -1 && b.horizontal_size == -1
                        && first_hit(-1, n, |i: int| classic_hit(*frame, thr, i)))
                    ||| (!b.unknown && exists|i: int| #[trigger] classic_hit(*frame, thr, i)
                        && first_hit(i, n, |j: int| classic_hit(*frame, thr, j))
                        && walk_back(b.vertical_size as int, if i < wt { i } else { wt }, |x: int| black_at(*frame, thr, x, if i < ht { i } else { ht }))
                        && walk_back(b.horizontal_size as int, if i < ht { i } else { ht }, |y: int| black_at(*frame, thr, b.vertical_size as int, y)))
                }
            }),
    {
        let wt = frame.width as i32 / 3;
        let ht = frame.height as i32 / 3;
        if wt <= 0 || ht <= 0 {
            return BlackBorder::none();
        }
        let max_size = if wt > ht { wt } else { ht };
        let i0 = self.scan_classic(frame, max_size);
        if i0 < 0 {
            return BlackBorder { unknown: true, horizontal_size: -1, vertical_size: -1 };
        }
        let y0 = if i0 < ht { i0 } else { ht };
        let x0 = if i0 < wt { i0 } else { wt };
        let mut fx = x0;
        while fx > 0
            invariant
                frame_ok(*frame),
                0 <= fx <= x0,
                forall|j: int| fx <= j < x0 ==> !#[trigger] black_at(*frame, self.threshold, j, y0 as int),
            ensures
                0 <= fx <= x0,
                fx == 0 || black_at(*frame, self.threshold, fx - 1, y0 as int),
                forall|j: int| fx <= j < x0 ==> !#[trigger] black_at(*frame, self.threshold, j, y0 as int),
            decreases fx,
        {
            if self.black(frame, fx - 1, y0) {
                break;
            }
            fx = fx - 1;
        }
        let mut fy = y0;
        while fy > 0
            invariant
                frame_ok(*frame),
                0 <= fy <= y0,
                forall|j: int| fy <= j < y0 ==> !#[trigger] black_at(*frame, self.threshold, fx as int, j),
            ensures
                0 <= fy <= y0,
                fy == 0 || black_at(*frame, self.threshold, fx as int, fy - 1),
                forall|j: int| fy <= j < y0 ==> !#[trigger] black_at(*frame, self.threshold, fx as int, j),
            decreases fy,
        {
            if self.black(frame, fx, fy - 1) {
                break;
            }
            fy = fy - 1;
        }
        proof {
            assert(walk_back(fx as int, x0 as int, |x: int| black_at(*frame, self.threshold, x, y0 as int)));
            assert(walk_back(fy as int, y0 as int, |y: int| black_at(*frame, self.threshold, fx as int, y)));
            assert(classic_hit(*frame, self.threshold, i0 as int));
        }
        BlackBorder { unknown: false, horizontal_size: fy, vertical_size: fx }
    }

    /// First row in `0..n` at which the OSD probe at column `x` hits, or -1.
    fn scan_osd_y(&self, frame: &ScreenFrame, x: i32, n: i32) -> (r: i32)
        requires
            frame_ok(*frame),
            iw(*frame) > 0 && ih(*frame) > 0,
            0 <= x < iw(*frame) / 3,
            n == ih(*frame) / 3,
        ensures
            first_hit(r as int, n as int, |y: int| osd_y_hit(*frame, self.threshold, x as int, y)),
    {
        let w = frame.width as i32 - 1;
        let h = frame.height as i32 - 1;
        let mut y: i32 = 0;
        while y < n
            invariant
                frame_ok(*frame),
                iw(*frame) > 0 && ih(*frame) > 0,
                0 <= x < iw(*frame) / 3,
                n == ih(*frame) / 3,
                w == iw(*frame) - 1 && h == ih(*frame) - 1,
                0 <= y <= n,
                forall|i: int| 0 <= i < y ==> !#[trigger] osd_y_hit(*frame, self.threshold, x as int, i),
            decreases n - y,
        {
            if self.lit(frame, x, y) || self.lit(frame, x, h - y) || self.lit(frame, w - x, y) || self.lit(frame, w - x, h - y) {
                return y;
            }
            y = y + 1;
        }
        -1
    }

    /// On-screen-display mode: the first lit column as in default mode, then the first
    /// row lit at the corners of the rectangle that column spans.
    pub fn process_osd(&self, frame: &ScreenFrame) -> (b: BlackBorder)
        requires
            frame_ok(*frame),
        ensures
            iw(*frame) <= 0 || ih(*frame) <= 0 ==> b == no_border(),
            iw(*frame) > 0 && ih(*frame) > 0 ==> {
                &&& first_hit(b.vertical_size as int, iw(*frame) / 3, |x: int| default_x_hit(*frame, self.threshold, x))
                &&& if b.vertical_size == -1 {
                    b.horizontal_size == -1
                } else {
                    first_hit(b.horizontal_size as int, ih(*frame) / 3, |y: int| osd_y_hit(*frame, self.threshold, b.vertical_size as int, y))
                }
                &&& b.unknown == (b.vertical_size == -1 || b.horizontal_size == -1)
            },
    {
        let width = frame.width as i32;
        let height = frame.height as i32;
        if width <= 0 || height <= 0 {
            return BlackBorder::none();
        }
        let fx = self.scan_default_x(frame, width / 3);
        let fy = if fx != -1 { self.scan_osd_y(frame, fx, height / 3) } else { -1 };
        BlackBorder { unknown: fx == -1 || fy == -1, horizontal_size: fy, vertical_size: fx }
    }

    /// Detects the border of a frame in the given mode.
    pub fn detect(&self, frame: &ScreenFrame, mode: BlackBorderMode) -> (b: BlackBorder)
        requires
            frame_ok(*frame),
        ensures
            detection_ok(*self, *frame, mode, b),
    {
        let r = match mode {
            BlackBorderMode::Default => self.process_default(frame),
            BlackBorderMode::Classic => self.process_classic(frame),
            BlackBorderMode::Osd => self.process_osd(frame),
            BlackBorderMode::Letterbox => self.process_letterbox(frame),
        };
        r
    }
}

/// What detection in a mode finds in a frame.
pub open spec fn detection_ok(d: BlackBorderDetector, frame: ScreenFrame, mode: BlackBorderMode, b: BlackBorder) -> bool {
    let thr = d.threshold;
    let f = frame;
    match mode {
        BlackBorderMode::Default => if iw(f) <= 0 || ih(f) <= 0 {
            b == no_border()
        } else {
            &&& first_hit(b.vertical_size as int, iw(f) / 3, |x: int| default_x_hit(f, thr, x))
            &&& first_hit(b.horizontal_size as int, ih(f) / 3, |y: int| default_y_hit(f, thr, y))
            &&& b.unknown == (b.vertical_size == -1 || b.horizontal_size == -1)
        },
        BlackBorderMode::Letterbox => if iw(f) <= 0 || ih(f) <= 0 {
            b == no_border()
        } else {
            &&& first_hit(b.horizontal_size as int, ih(f) / 3, |y: int| letterbox_y_hit(f, thr, y))
            &&& b.vertical_size == 0
            &&& b.unknown == (b.horizontal_size == -1)
        },
        BlackBorderMode::Osd => if iw(f) <= 0 || ih(f) <= 0 {
            b == no_border()
        } else {
            &&& first_hit(b.vertical_size as int, iw(f) / 3, |x: int| default_x_hit(f, thr, x))
            &&& if b.vertical_size == -1 {
                b.horizontal_size == -1
            } else {
                first_hit(b.horizontal_size as int, ih(f) / 3, |y: int| osd_y_hit(f, thr, b.vertical_size as int, y))
            }
            &&& b.unknown == (b.vertical_size == -1 || b.horizontal_size == -1)
        },
        BlackBorderMode::Classic => {
            let wt = iw(f) / 3;
            let ht = ih(f) / 3;
            let n = if wt > ht { wt } else { ht };
            if wt <= 0 || ht <= 0 {
                b == no_border()
            } else {
                ||| (b.unknown && b.vertical_size == -1 && b.horizontal_size == -1
                    && first_hit(-1, n, |i: int| classic_hit(f, thr, i)))
                ||| (!b.unknown && exists|i: int| #[trigger] classic_hit(f, thr, i)
                    && first_hit(i, n, |j: int| classic_hit(f, thr, j))
                    && walk_back(b.vertical_size as int, if i < wt { i } else { wt }, |x: int| black_at(f, thr, x, if i < ht { i } else { ht }))
                    && walk_back(b.horizontal_size as int, if i < ht { i } else { ht }, |y: int| black_at(f, thr, b.vertical_size as int, y)))
            }
        },
    }
}


impl Default for BlackBorder {
    fn default() -> (b: BlackBorder)
        ensures
            b == no_border(),
    {
        BlackBorder::none()
    }
}

/// A counter one higher, stopping at the largest `u32`.
pub open spec fn sat_inc(x: u32) -> u32 {
    if x == u32::MAX {
        x
    } else {
        (x + 1) as u32
    }
}

/// What a border processor remembers between frames.
#[derive(Clone, Copy, Debug)]
pub struct BorderTracking {
    /// The border in use.
    pub current: BlackBorder,
    /// The border detected last (after hysteresis).
    pub previous: BlackBorder,
    /// How many detections in a row agreed with `previous`.
    pub consistent: u32,
    /// How many detections in a row disagreed with `previous`.
    pub inconsistent: u32,
}

/// One detection fed to the tracking: the new tracking and whether the border in use
/// changed. A detection that disagrees with the previous one is ignored until more than
/// `max_inconsistent` disagree in a row; a differing border is taken when it is unknown
/// and has been seen `unknown_switch` times in a row, or when it is known and either
/// the border in use is unknown or it has been seen `border_switch` times in a row.
pub open spec fn tracked_update(
    t: BorderTracking,
    max_inconsistent: u32,
    unknown_switch: u32,
    border_switch: u32,
    nb: BlackBorder,
) -> (BorderTracking, bool) {
    let agrees = same_border(nb, t.previous);
    if !agrees && sat_inc(t.inconsistent) <= max_inconsistent {
        (BorderTracking { inconsistent: sat_inc(t.inconsistent), ..t }, false)
    } else {
        let prev = if agrees { t.previous } else { nb };
        let cons: u32 = if agrees { sat_inc(t.consistent) } else { 0 };
        let inc: u32 = if agrees { 0 } else { sat_inc(t.inconsistent) };
        if same_border(t.current, nb) {
            (BorderTracking { current: t.current, previous: prev, consistent: cons, inconsistent: 0 }, false)
        } else {
            let switch = if nb.unknown {
                cons == unknown_switch
            } else {
                t.current.unknown || cons == border_switch
            };
            (
                BorderTracking {
                    current: if switch { nb } else { t.current },
                    previous: prev,
                    consistent: cons,
                    inconsistent: inc,
                },
                switch,
            )
        }
    }
}

/// A detected border widened by `blur` on each side that has bars.
pub open spec fn blurred(b: BlackBorder, blur: i32) -> BlackBorder {
    BlackBorder {
        unknown: b.unknown,
        horizontal_size: if b.horizontal_size > 0 { (b.horizontal_size + blur) as i32 } else { b.horizontal_size },
        vertical_size: if b.vertical_size > 0 { (b.vertical_size + blur) as i32 } else { b.vertical_size },
    }
}

/// Detects borders frame by frame and switches the border in use only after
/// consistent detections.
pub struct BlackBorderProcessor {
    pub enabled: bool,
    pub unknown_switch_cnt: u32,
    pub border_switch_cnt: u32,
    pub max_inconsistent_cnt: u32,
    pub blur_remove_cnt: i32,
    pub mode: BlackBorderMode,
    pub detector: BlackBorderDetector,
    pub current_border: BlackBorder,
    pub previous_detected_border: BlackBorder,
    pub consistent_cnt: u32,
    pub inconsistent_cnt: u32,
}

impl View for BlackBorderProcessor {
    type V = BorderTracking;

    open spec fn view(&self) -> BorderTracking {
        BorderTracking {
            current: self.current_border,
            previous: self.previous_detected_border,
            consistent: self.consistent_cnt,
            inconsistent: self.inconsistent_cnt,
        }
    }
}

/// The darkness threshold of the default detector (5% of full scale, rounded up).
pub const DEFAULT_BLACK_THRESHOLD: u8 = 13;

impl BlackBorderProcessor {
    /// The detector's darkness threshold.
    pub open spec fn threshold(&self) -> u8 {
        self.detector.threshold
    }

    /// The settings and the detector are the same in both.
    pub open spec fn same_settings(&self, other: &BlackBorderProcessor) -> bool {
        &&& self.enabled == other.enabled
        &&& self.unknown_switch_cnt == other.unknown_switch_cnt
        &&& self.border_switch_cnt == other.border_switch_cnt
        &&& self.max_inconsistent_cnt == other.max_inconsistent_cnt
        &&& self.blur_remove_cnt == other.blur_remove_cnt
        &&& self.mode == other.mode
        &&& self.threshold() == other.threshold()
    }

    /// Enabled, switching to an unknown border after 600 agreeing detections and to a
    /// known one after 50, ignoring up to 10 disagreeing ones, widening bars by 1, in
    /// default mode, with no border in use.
    pub fn new() -> (p: BlackBorderProcessor)
        ensures
            p.enabled,
            p.unknown_switch_cnt == 600,
            p.border_switch_cnt == 50,
            p.max_inconsistent_cnt == 10,
            p.blur_remove_cnt == 1,
            p.mode == BlackBorderMode::Default,
            p.threshold() == DEFAULT_BLACK_THRESHOLD,
            p@ == fresh_tracking(10),
    {
        BlackBorderProcessor {
            enabled: true,
            unknown_switch_cnt: 600,
            border_switch_cnt: 50,
            max_inconsistent_cnt: 10,
            blur_remove_cnt: 1,
            mode: BlackBorderMode::Default,
            detector: BlackBorderDetector::with_threshold(DEFAULT_BLACK_THRESHOLD),
            current_border: BlackBorder::none(),
            previous_detected_border: BlackBorder::none(),
            consistent_cnt: 0,
            inconsistent_cnt: 10,
        }
    }

    /// The border in use.
    pub fn current_border(&self) -> (b: BlackBorder)
        ensures
            b == self@.current,
    {
        self.current_border
    }

    /// Forgets what was tracked: no border in use and none detected, with the
    /// disagreement count at its limit so that the next detection counts.
    pub fn reset_state(&mut self)
        ensures
            final(self).same_settings(old(self)),
            final(self)@ == fresh_tracking(old(self).max_inconsistent_cnt),
    {
        self.current_border = BlackBorder::none();
        self.previous_detected_border = BlackBorder::none();
        self.consistent_cnt = 0;
        self.inconsistent_cnt = self.max_inconsistent_cnt;
    }

    /// Turns detection on or off; turning it off forgets what was tracked.
    pub fn set_enabled(&mut self, enabled: bool)
        ensures
            final(self).enabled == enabled,
            final(self).unknown_switch_cnt == old(self).unknown_switch_cnt,
            final(self).border_switch_cnt == old(self).border_switch_cnt,
            final(self).max_inconsistent_cnt == old(self).max_inconsistent_cnt,
            final(self).blur_remove_cnt == old(self).blur_remove_cnt,
            final(self).mode == old(self).mode,
            final(self).threshold() == old(self).threshold(),
            enabled ==> final(self)@ == old(self)@,
            !enabled ==> final(self)@ == (BorderTracking {
                current: no_border(),
                previous: no_border(),
                consistent: 0,
                inconsistent: old(self).max_inconsistent_cnt,
            }),
    {
        self.enabled = enabled;
        if !enabled {
            self.reset_state();
        }
    }

    /// Uses a detector with the given darkness threshold.
    pub fn set_threshold(&mut self, threshold: u8)
        ensures
            final(self).threshold() == threshold,
            final(self)@ == old(self)@,
            final(self).enabled == old(self).enabled,
            final(self).unknown_switch_cnt == old(self).unknown_switch_cnt,
            final(self).border_switch_cnt == old(self).border_switch_cnt,
            final(self).max_inconsistent_cnt == old(self).max_inconsistent_cnt,
            final(self).blur_remove_cnt == old(self).blur_remove_cnt,
            final(self).mode == old(self).mode,
    {
        self.detector = BlackBorderDetector::with_threshold(threshold);
    }

    fn update_border(&mut self, new_detected_border: BlackBorder) -> (changed: bool)
        ensures
            final(self).same_settings(old(self)),
            (final(self)@, changed) == tracked_update(
                old(self)@,
                old(self).max_inconsistent_cnt,
                old(self).unknown_switch_cnt,
                old(self).border_switch_cnt,
                new_detected_border,
            ),
    {
        if new_detected_border == self.previous_detected_border {
            self.consistent_cnt = self.consistent_cnt.saturating_add(1);
            self.inconsistent_cnt = 0;
        } else {
            self.inconsistent_cnt = self.inconsistent_cnt.saturating_add(1);
            if self.inconsistent_cnt <= self.max_inconsistent_cnt {
                return false;
            }
            self.previous_detected_border = new_detected_border;
            self.consistent_cnt = 0;
        }
        if self.current_border == new_detected_border {
            self.inconsistent_cnt = 0;
            return false;
        }
        let mut border_changed = false;
        if new_detected_border.unknown {
            if self.consistent_cnt == self.unknown_switch_cnt {
                self.current_border = new_detected_border;
                border_changed = true;
            }
        } else if self.current_border.unknown || self.consistent_cnt == self.border_switch_cnt {
            self.current_border = new_detected_border;
            border_changed = true;
        }
        border_changed
    }

    /// Feeds one frame: when disabled, no border is in use; otherwise the border
    /// detected in the current mode, widened by the blur count, updates the tracking.
    pub fn process_frame(&mut self, frame: &ScreenFrame)
        requires
            frame_ok(*frame),
            old(self).enabled ==> old(self).blur_remove_cnt + third_extent(*frame) <= i32::MAX,
        ensures
            frame_step(*old(self), *frame, *final(self)),
    {
        if !self.enabled {
            self.current_border = BlackBorder::none();
            return;
        }
        let mut image_border = self.detector.detect(frame, self.mode);
        proof {
            lemma_detection_bounded(self.detector, *frame, self.mode, image_border);
        }
        let ghost detected = image_border;
        if image_border.horizontal_size > 0 {
            image_border.horizontal_size += self.blur_remove_cnt;
        }
        if image_border.vertical_size > 0 {
            image_border.vertical_size += self.blur_remove_cnt;
        }
        assert(image_border == blurred(detected, self.blur_remove_cnt));
        let _ = self.update_border(image_border);
    }
}

/// The larger of a third of the frame's width and a third of its height (as signed
/// 32-bit numbers), and at least 0: no detected border is wider.
pub open spec fn third_extent(f: ScreenFrame) -> int {
    let t = if iw(f) / 3 > ih(f) / 3 { iw(f) / 3 } else { ih(f) / 3 };
    if t > 0 { t } else { 0 }
}

/// One frame processed: the settings stay; when disabled, no border is in use;
/// otherwise the border detected in the current mode, widened by the blur count,
/// updates the tracking.
pub open spec fn frame_step(p: BlackBorderProcessor, frame: ScreenFrame, q: BlackBorderProcessor) -> bool {
    &&& q.same_settings(&p)
    &&& !p.enabled ==> q@ == (BorderTracking { current: no_border(), ..p@ })
    &&& p.enabled ==> exists|b: BlackBorder| #[trigger] detection_ok(
        BlackBorderDetector { threshold: p.threshold() },
        frame,
        p.mode,
        b,
    ) && q@ == tracked_update(p@, p.max_inconsistent_cnt, p.unknown_switch_cnt, p.border_switch_cnt, blurred(b, p.blur_remove_cnt)).0
}

/// The processor states `ps` follow one another by processing `frames` in turn.
pub open spec fn frame_run(ps: Seq<BlackBorderProcessor>, frames: Seq<ScreenFrame>) -> bool {
    &&& ps.len() == frames.len() + 1
    &&& forall|i: int| 0 <= i < frames.len() ==> #[trigger] frame_step(ps[i], frames[i], ps[i + 1])
}

/// The tracking of a processor that has seen nothing: no border in use or detected, no
/// agreement, and the disagreement count at its limit.
pub open spec fn fresh_tracking(max_inconsistent: u32) -> BorderTracking {
    BorderTracking { current: no_border(), previous: no_border(), consistent: 0, inconsistent: max_inconsistent }
}

proof fn lemma_first_hit_unique(r1: int, r2: int, n: int, hit: spec_fn(int) -> bool)
    requires
        first_hit(r1, n, hit),
        first_hit(r2, n, hit),
    ensures
        r1 == r2,
{
    if r1 != r2 {
        if r1 == -1 {
            assert(!hit(r2));
        } else if r2 == -1 {
            assert(!hit(r1));
        } else if r1 < r2 {
            assert(!hit(r1));
        } else {
            assert(!hit(r2));
        }
    }
}

proof fn lemma_walk_back_unique(r1: int, r2: int, start: int, black: spec_fn(int) -> bool)
    requires
        walk_back(r1, start, black),
        walk_back(r2, start, black),
    ensures
        r1 == r2,
{
    if r1 < r2 {
        assert(!black(r2 - 1));
    } else if r2 < r1 {
        assert(!black(r1 - 1));
    }
}

/// Detection finds one border at most: its result depends on the frame, the threshold
/// and the mode alone.
proof fn lemma_detection_unique(d: BlackBorderDetector, f: ScreenFrame, mode: BlackBorderMode, b1: BlackBorder, b2: BlackBorder)
    requires
        detection_ok(d, f, mode, b1),
        detection_ok(d, f, mode, b2),
    ensures
        b1 == b2,
{
    let thr = d.threshold;
    match mode {
        BlackBorderMode::Default => {
            if iw(f) > 0 && ih(f) > 0 {
                lemma_first_hit_unique(b1.vertical_size as int, b2.vertical_size as int, iw(f) / 3, |x: int| default_x_hit(f, thr, x));
                lemma_first_hit_unique(b1.horizontal_size as int, b2.horizontal_size as int, ih(f) / 3, |y: int| default_y_hit(f, thr, y));
            }
        },
        BlackBorderMode::Letterbox => {
            if iw(f) > 0 && ih(f) > 0 {
                lemma_first_hit_unique(b1.horizontal_size as int, b2.horizontal_size as int, ih(f) / 3, |y: int| letterbox_y_hit(f, thr, y));
            }
        },
        BlackBorderMode::Osd => {
            if iw(f) > 0 && ih(f) > 0 {
                lemma_first_hit_unique(b1.vertical_size as int, b2.vertical_size as int, iw(f) / 3, |x: int| default_x_hit(f, thr, x));
                if b1.vertical_size != -1 {
                    lemma_first_hit_unique(
                        b1.horizontal_size as int,
                        b2.horizontal_size as int,
                        ih(f) / 3,
                        |y: int| osd_y_hit(f, thr, b1.vertical_size as int, y),
                    );
                }
            }
        },
        BlackBorderMode::Classic => {
            let wt = iw(f) / 3;
            let ht = ih(f) / 3;
            let n = if wt > ht { wt } else { ht };
            if wt > 0 && ht > 0 {
                let hit = |j: int| classic_hit(f, thr, j);
                if !b1.unknown && !b2.unknown {
                    let i1 = choose|i: int| #[trigger] classic_hit(f, thr, i)
                        && first_hit(i, n, |j: int| classic_hit(f, thr, j))
                        && walk_back(b1.vertical_size as int, if i < wt { i } else { wt }, |x: int| black_at(f, thr, x, if i < ht { i } else { ht }))
                        && walk_back(b1.horizontal_size as int, if i < ht { i } else { ht }, |y: int| black_at(f, thr, b1.vertical_size as int, y));
                    let i2 = choose|i: int| #[trigger] classic_hit(f, thr, i)
                        && first_hit(i, n, |j: int| classic_hit(f, thr, j))
                        && walk_back(b2.vertical_size as int, if i < wt { i } else { wt }, |x: int| black_at(f, thr, x, if i < ht { i } else { ht }))
                        && walk_back(b2.horizontal_size as int, if i < ht { i } else { ht }, |y: int| black_at(f, thr, b2.vertical_size as int, y));
                    lemma_first_hit_unique(i1, i2, n, hit);
                    lemma_walk_back_unique(
                        b1.vertical_size as int,
                        b2.vertical_size as int,
                        if i1 < wt { i1 } else { wt },
                        |x: int| black_at(f, thr, x, if i1 < ht { i1 } else { ht }),
                    );
                    lemma_walk_back_unique(
                        b1.horizontal_size as int,
                        b2.horizontal_size as int,
                        if i1 < ht { i1 } else { ht },
                        |y: int| black_at(f, thr, b1.vertical_size as int, y),
                    );
                } else if b1.unknown && !b2.unknown {
                    let i2 = choose|i: int| #[trigger] classic_hit(f, thr, i)
                        && first_hit(i, n, |j: int| classic_hit(f, thr, j))
                        && walk_back(b2.vertical_size as int, if i < wt { i } else { wt }, |x: int| black_at(f, thr, x, if i < ht { i } else { ht }))
                        && walk_back(b2.horizontal_size as int, if i < ht { i } else { ht }, |y: int| black_at(f, thr, b2.vertical_size as int, y));
                    lemma_first_hit_unique(-1, i2, n, hit);
                } else if !b1.unknown && b2.unknown {
                    let i1 = choose|i: int| #[trigger] classic_hit(f, thr, i)
                        && first_hit(i, n, |j: int| classic_hit(f, thr, j))
                        && walk_back(b1.vertical_size as int, if i < wt { i } else { wt }, |x: int| black_at(f, thr, x, if i < ht { i } else { ht }))
                        && walk_back(b1.horizontal_size as int, if i < ht { i } else { ht }, |y: int| black_at(f, thr, b1.vertical_size as int, y));
                    lemma_first_hit_unique(i1, -1, n, hit);
                }
            }
        },
    }
}

/// Processing a frame depends only on the settings and the tracking: two processors
/// that agree in both agree in their tracking after the same frame.
pub proof fn lemma_frame_step_determined(p1: BlackBorderProcessor, p2: BlackBorderProcessor, f: ScreenFrame, q1: BlackBorderProcessor, q2: BlackBorderProcessor)
    requires
        p1.same_settings(&p2),
        p1@ == p2@,
        frame_step(p1, f, q1),
        frame_step(p2, f, q2),
    ensures
        q1.same_settings(&q2),
        q1@ == q2@,
{
    if p1.enabled {
        let b1 = choose|b: BlackBorder| #[trigger] detection_ok(BlackBorderDetector { threshold: p1.threshold() }, f, p1.mode, b)
            && q1@ == tracked_update(p1@, p1.max_inconsistent_cnt, p1.unknown_switch_cnt, p1.border_switch_cnt, blurred(b, p1.blur_remove_cnt)).0;
        let b2 = choose|b: BlackBorder| #[trigger] detection_ok(BlackBorderDetector { threshold: p2.threshold() }, f, p2.mode, b)
            && q2@ == tracked_update(p2@, p2.max_inconsistent_cnt, p2.unknown_switch_cnt, p2.border_switch_cnt, blurred(b, p2.blur_remove_cnt)).0;
        lemma_detection_unique(BlackBorderDetector { threshold: p1.threshold() }, f, p1.mode, b1, b2);
    }
}

/// Two processors with the same settings and the same tracking, fed the same frames,
/// keep the same tracking, and so the same border in use, after every frame.
pub proof fn law_same_state_same_borders(ps: Seq<BlackBorderProcessor>, qs: Seq<BlackBorderProcessor>, frames: Seq<ScreenFrame>)
    requires
        frame_run(ps, frames),
        frame_run(qs, frames),
        ps[0].same_settings(&qs[0]),
        ps[0]@ == qs[0]@,
    ensures
        forall|i: int| 0 <= i < ps.len() ==> #[trigger] ps[i]@ == qs[i]@ && ps[i].same_settings(&qs[i]),
    decreases frames.len(),
{
    if frames.len() > 0 {
        let n = frames.len() - 1;
        law_same_state_same_borders(ps.take(n + 1), qs.take(n + 1), frames.take(n));
        assert(ps.take(n + 1)[n] == ps[n]);
        assert(qs.take(n + 1)[n] == qs[n]);
        assert(frame_step(ps[n], frames[n], ps[n + 1]));
        assert(frame_step(qs[n], frames[n], qs[n + 1]));
        lemma_frame_step_determined(ps[n], qs[n], frames[n], ps[n + 1], qs[n + 1]);
        assert forall|i: int| 0 <= i < ps.len() implies #[trigger] ps[i]@ == qs[i]@ && ps[i].same_settings(&qs[i]) by {
            if i <= n {
                assert(ps.take(n + 1)[i] == ps[i]);
                assert(qs.take(n + 1)[i] == qs[i]);
            }
        }
    }
}

/// After `reset_state`, a processor borders every later frame as a processor that has
/// seen nothing and has the same settings: the tracking of both agrees after each frame.
pub proof fn law_reset_is_fresh(
    before: BlackBorderProcessor,
    ps: Seq<BlackBorderProcessor>,
    qs: Seq<BlackBorderProcessor>,
    frames: Seq<ScreenFrame>,
)
    requires
        ps.len() > 0,
        ps[0].same_settings(&before),
        ps[0]@ == fresh_tracking(before.max_inconsistent_cnt),
        frame_run(ps, frames),
        frame_run(qs, frames),
        qs[0].same_settings(&before),
        qs[0]@ == fresh_tracking(qs[0].max_inconsistent_cnt),
    ensures
        forall|i: int| 0 <= i < ps.len() ==> #[trigger] ps[i]@ == qs[i]@,
{
    law_same_state_same_borders(ps, qs, frames);
}

/// A disabled processor stays disabled with its settings, and has no border in use,
/// after any frames.
pub proof fn law_disabled_keeps_no_border(ps: Seq<BlackBorderProcessor>, frames: Seq<ScreenFrame>)
    requires
        frame_run(ps, frames),
        !ps[0].enabled,
    ensures
        forall|i: int| 0 <= i < ps.len() ==> (#[trigger] ps[i]).same_settings(&ps[0]),
        forall|i: int| 1 <= i < ps.len() ==> (#[trigger] ps[i])@.current == no_border(),
    decreases frames.len(),
{
    if frames.len() > 0 {
        let n = frames.len() - 1;
        law_disabled_keeps_no_border(ps.take(n + 1), frames.take(n));
        assert(ps.take(n + 1)[n] == ps[n]);
        assert(ps.take(n + 1)[0] == ps[0]);
        assert(frame_step(ps[n], frames[n], ps[n + 1]));
        assert forall|i: int| 0 <= i < ps.len() implies (#[trigger] ps[i]).same_settings(&ps[0]) by {
            if i <= n {
                assert(ps.take(n + 1)[i] == ps[i]);
            }
        }
        assert forall|i: int| 1 <= i < ps.len() implies (#[trigger] ps[i])@.current == no_border() by {
            if i <= n {
                assert(ps.take(n + 1)[i] == ps[i]);
            }
        }
    }
}

/// A pixel is black only when its blue, green and red are all below the threshold: a
/// single channel at or above it makes the pixel lit.
pub proof fn law_one_bright_channel_is_lit(f: ScreenFrame, thr: u8, x: int, y: int, c: (u8, u8, u8))
    requires
        sample(f, x, y) == Some(c),
    ensures
        (c.0 >= thr || c.1 >= thr || c.2 >= thr) ==> lit_at(f, thr, x, y) && !black_at(f, thr, x, y),
        (c.0 < thr && c.1 < thr && c.2 < thr) ==> black_at(f, thr, x, y) && !lit_at(f, thr, x, y),
{
}

/// In default mode, where the top rows up to `k` are black at the probes and row `k` has a
/// pixel with one channel at or above the threshold at a third of the width, the detected
/// bars are `k` rows high.
pub proof fn law_default_bars_end_at_first_lit_row(
    d: BlackBorderDetector,
    f: ScreenFrame,
    b: BlackBorder,
    k: int,
    c: (u8, u8, u8),
)
    requires
        detection_ok(d, f, BlackBorderMode::Default, b),
        iw(f) > 0 && ih(f) > 0,
        0 <= k < ih(f) / 3,
        forall|y: int| 0 <= y < k ==> !#[trigger] default_y_hit(f, d.threshold, y),
        sample(f, iw(f) / 3, k) == Some(c),
        c.0 >= d.threshold || c.1 >= d.threshold || c.2 >= d.threshold,
    ensures
        b.horizontal_size == k,
{
    let thr = d.threshold;
    assert(lit_at(f, thr, iw(f) / 3, k));
    assert(default_y_hit(f, thr, k));
    assert(first_hit(k, ih(f) / 3, |y: int| default_y_hit(f, thr, y)));
    lemma_first_hit_unique(b.horizontal_size as int, k, ih(f) / 3, |y: int| default_y_hit(f, thr, y));
}

/// Every size that detection finds is at most the larger third of the frame.
proof fn lemma_detection_bounded(d: BlackBorderDetector, f: ScreenFrame, mode: BlackBorderMode, b: BlackBorder)
    requires
        detection_ok(d, f, mode, b),
    ensures
        b.horizontal_size <= third_extent(f),
        b.vertical_size <= third_extent(f),
        third_extent(f) <= 715827882,
{
    lemma_i32_of_u32(f.width);
    lemma_i32_of_u32(f.height);
    if mode == BlackBorderMode::Classic && !b.unknown && iw(f) / 3 > 0 && ih(f) / 3 > 0 {
        let i = choose|i: int| #[trigger] classic_hit(f, d.threshold, i)
            && first_hit(i, if iw(f) / 3 > ih(f) / 3 { iw(f) / 3 } else { ih(f) / 3 }, |j: int| classic_hit(f, d.threshold, j))
            && walk_back(b.vertical_size as int, if i < iw(f) / 3 { i } else { iw(f) / 3 }, |x: int| black_at(f, d.threshold, x, if i < ih(f) / 3 { i } else { ih(f) / 3 }))
            && walk_back(b.horizontal_size as int, if i < ih(f) / 3 { i } else { ih(f) / 3 }, |y: int| black_at(f, d.threshold, b.vertical_size as int, y));
    }
}


/// The border in use changes only to the border just detected, and the update reports
/// a change exactly when the border in use is no longer equal to the one before.
pub proof fn law_border_changes_only_to_detection(
    t: BorderTracking,
    max_inconsistent: u32,
    unknown_switch: u32,
    border_switch: u32,
    nb: BlackBorder,
)
    ensures
        ({
            let (t2, changed) = tracked_update(t, max_inconsistent, unknown_switch, border_switch, nb);
            &&& changed ==> t2.current == nb
            &&& !changed ==> t2.current == t.current
            &&& changed <==> !same_border(t2.current, t.current)
        }),
{
}

/// A switch to a known border, away from a known border, happens only on the detection
/// that brings the agreement count to `border_switch`; a switch to an unknown border only
/// on the one that brings it to `unknown_switch`.
pub proof fn law_switch_needs_agreement(
    t: BorderTracking,
    max_inconsistent: u32,
    unknown_switch: u32,
    border_switch: u32,
    nb: BlackBorder,
)
    ensures
        ({
            let (t2, changed) = tracked_update(t, max_inconsistent, unknown_switch, border_switch, nb);
            &&& changed && !nb.unknown && !t.current.unknown ==> t2.consistent == border_switch
            &&& changed && nb.unknown ==> t2.consistent == unknown_switch
        }),
{
}

/// A detection that disagrees with the previous one, while no more than
/// `max_inconsistent` have disagreed in a row, only counts the disagreement.
pub proof fn law_disagreement_is_tolerated(
    t: BorderTracking,
    max_inconsistent: u32,
    unknown_switch: u32,
    border_switch: u32,
    nb: BlackBorder,
)
    requires
        !same_border(nb, t.previous),
        sat_inc(t.inconsistent) <= max_inconsistent,
    ensures
        tracked_update(t, max_inconsistent, unknown_switch, border_switch, nb)
            == (BorderTracking { inconsistent: sat_inc(t.inconsistent), ..t }, false),
{
}

/// A known border, detected again after `border_switch - 1` agreeing detections,
/// replaces a different border in use.
pub proof fn law_agreeing_known_border_is_taken(
    t: BorderTracking,
    max_inconsistent: u32,
    unknown_switch: u32,
    border_switch: u32,
    nb: BlackBorder,
)
    requires
        !nb.unknown,
        same_border(nb, t.previous),
        !same_border(t.current, nb),
        sat_inc(t.consistent) == border_switch,
    ensures
        ({
            let (t2, changed) = tracked_update(t, max_inconsistent, unknown_switch, border_switch, nb);
            changed && t2.current == nb
        }),
{
}

} // verus!
