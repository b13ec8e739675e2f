//! Built-in effects that need no floating point: the matrix test pattern, a solid color
//! and all-off.
use vstd::prelude::*;
use vstd::utf8::encode_utf8;
use crate::layout::{Color, black};
use crate::text::{owned, trim_str, trimmed};

verus! {

/// White.
pub open spec fn white() -> Color {
    Color { r: 255, g: 255, b: 255 }
}

/// Fills every element of `buffer` with `c`.
fn fill(buffer: &mut Vec<Color>, c: Color)
    ensures
        final(buffer)@ == Seq::new(old(buffer)@.len(), |i: int| c),
{
    let n = buffer.len();
    let mut i: usize = 0;
    while i < n
        invariant
            n == buffer@.len(),
            i <= n,
            forall|j: int| 0 <= j < i ==> #[trigger] buffer@[j] == c,
        decreases n - i,
    {
        buffer.set(i, c);
        i = i + 1;
    }
    assert(buffer@ =~= Seq::new(buffer@.len(), |i: int| c));
}

/// The matrix test pattern: red, green, blue and white quadrants, with a white scan line
/// moving down one row every 50 ms.
#[derive(Debug)]
pub struct MatrixTestEffect {
    pub width: usize,
    pub height: usize,
}

/// The quadrant color of row `y`, column `x` in a `w` x `h` matrix.
pub open spec fn quadrant_color(x: int, y: int, w: int, h: int) -> Color {
    if y < h / 2 && x < w / 2 {
        Color { r: 255, g: 0, b: 0 }
    } else if y < h / 2 {
        Color { r: 0, g: 255, b: 0 }
    } else if x < w / 2 {
        Color { r: 0, g: 0, b: 255 }
    } else {
        white()
    }
}

/// The pattern's color at buffer position `i` after `elapsed_ms`, or `None` where the
/// position lies outside the matrix and keeps its color.
pub open spec fn test_pattern(i: int, w: int, h: int, elapsed_ms: u64) -> Option<Color> {
    if i >= w * h {
        None
    } else if i / w == (elapsed_ms / 50) as int % h {
        Some(white())
    } else {
        Some(quadrant_color(i % w, i / w, w, h))
    }
}

impl MatrixTestEffect {
    /// A pattern sized by the first frame until resized.
    pub fn new() -> (e: MatrixTestEffect)
        ensures
            e.width == 0 && e.height == 0,
    {
        MatrixTestEffect { width: 0, height: 0 }
    }

    pub fn id(&self) -> (s: String)
        ensures
            s@ == "matrix_test"@,
    {
        owned("matrix_test")
    }

    pub fn name(&self) -> (s: String)
        ensures
            s@ == "Matrix Test"@,
    {
        owned("Matrix Test")
    }

    /// Takes the virtual layout size.
    pub fn resize(&mut self, width: usize, height: usize)
        ensures
            final(self).width == width && final(self).height == height,
    {
        self.width = width;
        self.height = height;
    }

    /// Renders the pattern into `buffer`. An unset width means one row as long as the
    /// buffer; an unset height means one row.
    pub fn tick(&self, elapsed_ms: u64, buffer: &mut Vec<Color>)
        ensures
            final(buffer)@.len() == old(buffer)@.len(),
            ({
                let len = old(buffer)@.len() as int;
                let w = if self.width == 0 { len } else { self.width as int };
                let h = if self.height == 0 { 1 } else { self.height as int };
                forall|i: int| 0 <= i < len ==> #[trigger] final(buffer)@[i] == match test_pattern(i, w, h, elapsed_ms) {
                    Some(c) => c,
                    None => old(buffer)@[i],
                }
            }),
    {
        let len = buffer.len();
        if len == 0 {
            return;
        }
        let width = if self.width == 0 { len } else { self.width };
        let height = if self.height == 0 { 1 } else { self.height };
        let area = match width.checked_mul(height) {
            Some(a) => a,
            None => usize::MAX,
        };
        let limit = if area < len { area } else { len };
        let ghost initial = buffer@;
        let line_y = ((elapsed_ms / 50) % (height as u64)) as usize;
        let mut i: usize = 0;
        while i < limit
            invariant
                len == buffer@.len(),
                len == initial.len(),
                width > 0 && height > 0,
                limit <= len,
                limit as int == if (width as int) * (height as int) < len { (width as int) * (height as int) } else { len as int },
                line_y as int == (elapsed_ms / 50) as int % (height as int),
                i <= limit,
                forall|j: int| 0 <= j < i ==> #[trigger] buffer@[j] == test_pattern(j, width as int, height as int, elapsed_ms)->0,
                forall|j: int| i <= j < len ==> #[trigger] buffer@[j] == initial[j],
            decreases limit - i,
        {
            let x = i % width;
            let y = i / width;
            let c = if y == line_y {
                Color { r: 255, g: 255, b: 255 }
            } else if y < height / 2 && x < width / 2 {
                Color { r: 255, g: 0, b: 0 }
            } else if y < height / 2 {
                Color { r: 0, g: 255, b: 0 }
            } else if x < width / 2 {
                Color { r: 0, g: 0, b: 255 }
            } else {
                Color { r: 255, g: 255, b: 255 }
            };
            buffer.set(i, c);
            i = i + 1;
        }
        proof {
            assert forall|j: int| 0 <= j < len implies #[trigger] buffer@[j] == match test_pattern(
                j,
                width as int,
                height as int,
                elapsed_ms,
            ) {
                Some(c) => c,
                None => initial[j],
            } by {
                if j >= limit {
                    assert(j >= (width as int) * (height as int));
                }
            }
        }
    }
}

/// A solid color.
#[derive(Debug)]
pub struct MonochromeEffect {
    pub color: Color,
}

impl MonochromeEffect {
    /// White, the default color.
    pub fn new() -> (e: MonochromeEffect)
        ensures
            e.color == white(),
    {
        MonochromeEffect { color: Color { r: 255, g: 255, b: 255 } }
    }

    pub fn id(&self) -> (s: String)
        ensures
            s@ == "monochrome"@,
    {
        owned("monochrome")
    }

    pub fn name(&self) -> (s: String)
        ensures
            s@ == "Monochrome"@,
    {
        owned("Monochrome")
    }

    /// Fills the buffer with the color.
    pub fn tick(&self, buffer: &mut Vec<Color>)
        ensures
            final(buffer)@ == Seq::new(old(buffer)@.len(), |i: int| self.color),
    {
        fill(buffer, self.color);
    }

    /// Takes a parsed color; an unparsable one keeps the current color.
    pub fn set_color(&mut self, parsed: Option<Color>)
        ensures
            final(self).color == match parsed {
                Some(c) => c,
                None => old(self).color,
            },
    {
        if let Some(c) = parsed {
            self.color = c;
        }
    }
}

/// All LEDs off.
#[derive(Debug)]
pub struct TurnOffEffect;

impl TurnOffEffect {
    pub fn id(&self) -> (s: String)
        ensures
            s@ == "turn_off"@,
    {
        owned("turn_off")
    }

    pub fn name(&self) -> (s: String)
        ensures
            s@ == "Turn Off"@,
    {
        owned("Turn Off")
    }

    /// Fills the buffer with black.
    pub fn tick(&self, buffer: &mut Vec<Color>)
        ensures
            final(buffer)@ == Seq::new(old(buffer)@.len(), |i: int| black()),
    {
        fill(buffer, Color { r: 0, g: 0, b: 0 });
    }
}

/// The value of a hexadecimal digit byte.
pub open spec fn hex_value(c: u8) -> Option<u8> {
    if 48 <= c <= 57 {
        Some((c - 48) as u8)
    } else if 97 <= c <= 102 {
        Some((c - 87) as u8)
    } else if 65 <= c <= 70 {
        Some((c - 55) as u8)
    } else {
        None
    }
}

/// A base-16 number of one or two bytes with an optional leading `+`, as the standard
/// parser reads it.
pub open spec fn radix16(s: Seq<u8>) -> Option<u8> {
    if s.len() == 1 {
        hex_value(s[0])
    } else if s.len() == 2 {
        if s[0] == 43 {
            hex_value(s[1])
        } else {
            match (hex_value(s[0]), hex_value(s[1])) {
                (Some(a), Some(b)) => Some((a * 16 + b) as u8),
                _ => None,
            }
        }
    } else {
        None
    }
}

/// The color of hex text bytes: `RRGGBB` (an 8-digit `RRGGBBAA` drops alpha) or `RGB`
/// (each digit doubled).
pub open spec fn hex_color_bytes(b: Seq<u8>) -> Option<Color> {
    let h = if b.len() == 8 { b.take(6) } else { b };
    if h.len() == 6 {
        match (radix16(h.subrange(0, 2)), radix16(h.subrange(2, 4)), radix16(h.subrange(4, 6))) {
            (Some(r), Some(g), Some(bb)) => Some(Color { r, g, b: bb }),
            _ => None,
        }
    } else if h.len() == 3 {
        match (radix16(h.subrange(0, 1)), radix16(h.subrange(1, 2)), radix16(h.subrange(2, 3))) {
            (Some(r), Some(g), Some(bb)) => Some(Color { r: (r * 17) as u8, g: (g * 17) as u8, b: (bb * 17) as u8 }),
            _ => None,
        }
    } else {
        None
    }
}

/// The bytes after one leading `#`.
pub open spec fn strip_hash(b: Seq<u8>) -> Seq<u8> {
    if b.len() > 0 && b[0] == 35 { b.drop_first() } else { b }
}

/// The color a text denotes in hex notation (`#RRGGBB`, `#RGB`, `#RRGGBBAA`, the `#`
/// optional, surrounding whitespace ignored).
pub open spec fn hex_color_of(value: Seq<char>) -> Option<Color> {
    hex_color_bytes(strip_hash(encode_utf8(trimmed(value))))
}

fn hex_value_exec(c: u8) -> (r: Option<u8>)
    ensures
        r == hex_value(c),
{
    if 48 <= c && c <= 57 {
        Some(c - 48)
    } else if 97 <= c && c <= 102 {
        Some(c - 87)
    } else if 65 <= c && c <= 70 {
        Some(c - 55)
    } else {
        None
    }
}

fn radix16_at(b: &[u8], start: usize, n: usize) -> (r: Option<u8>)
    requires
        start + n <= b@.len(),
        n == 1 || n == 2,
    ensures
        r == radix16(b@.subrange(start as int, start + n)),
{
    if n == 1 {
        hex_value_exec(b[start])
    } else if b[start] == 43 {
        hex_value_exec(b[start + 1])
    } else {
        match (hex_value_exec(b[start]), hex_value_exec(b[start + 1])) {
            (Some(x), Some(y)) => Some(x * 16 + y),
            _ => None,
        }
    }
}

/// Parses a color in hex notation: `#RRGGBB`, `#RGB` or `#RRGGBBAA` (alpha dropped);
/// the `#` is optional and surrounding whitespace is ignored.
pub fn parse_hex_color(value: &str) -> (r: Option<Color>)
    ensures
        r == hex_color_of(value@),
{
    let t = trim_str(value);
    let all = t.as_bytes();
    let b: &[u8] = if all.len() > 0 && all[0] == 35 {
        let (_, rest) = all.split_at(1);
        rest
    } else {
        all
    };
    proof {
        assert(b@ == strip_hash(encode_utf8(trimmed(value@))));
    }
    let n = if b.len() == 8 { 6 } else { b.len() };
    proof {
        let h = if b@.len() == 8 { b@.take(6) } else { b@ };
        assert(h.len() == n);
        assert forall|i: int, j: int| 0 <= i <= j <= n implies #[trigger] h.subrange(i, j) == b@.subrange(i, j) by {
            assert(h.subrange(i, j) =~= b@.subrange(i, j));
        }
    }
    if n == 6 {
        match (radix16_at(b, 0, 2), radix16_at(b, 2, 2), radix16_at(b, 4, 2)) {
            (Some(x), Some(y), Some(z)) => Some(Color { r: x, g: y, b: z }),
            _ => None,
        }
    } else if n == 3 {
        match (radix16_at(b, 0, 1), radix16_at(b, 1, 1), radix16_at(b, 2, 1)) {
            (Some(x), Some(y), Some(z)) => Some(Color { r: x * 17, g: y * 17, b: z * 17 }),
            _ => None,
        }
    } else {
        None
    }
}

} // verus!
