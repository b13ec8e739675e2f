//! Device, output and segment descriptions shared by drivers and the lighting manager.
use vstd::prelude::*;

verus! {

/// An RGB color.
#[derive(Clone, Copy, Debug, PartialEq, Eq, Structural)]
pub struct Color {
    pub r: u8,
    pub g: u8,
    pub b: u8,
}

/// The all-black color.
pub open spec fn black() -> Color {
    Color { r: 0, g: 0, b: 0 }
}

impl Default for Color {
    fn default() -> (c: Color)
        ensures
            c == black(),
    {
        Color { r: 0, g: 0, b: 0 }
    }
}

/// High-level device classification.
#[derive(Clone, Copy, Debug, PartialEq, Eq, Structural)]
pub enum DeviceType {
    Motherboard,
    Dram,
    Gpu,
    Cooler,
    LedStrip,
    Keyboard,
    Mouse,
    MouseMat,
    Headset,
    HeadsetStand,
    Gamepad,
    Light,
    Speaker,
    Virtual,
    Storage,
    Case,
    Microphone,
    Accessory,
    Keypad,
    Laptop,
    Monitor,
    Unknown,
}

/// Mapping from a virtual 2D matrix to physical LED indices.
#[derive(Clone, Debug)]
pub struct MatrixMap {
    pub width: usize,
    pub height: usize,
    /// Row-major map of length width*height. `None` means no LED at that cell.
    pub map: Vec<Option<usize>>,
}

/// Segment layout type for a region of LEDs.
#[derive(Clone, Copy, Debug, PartialEq, Eq, Structural)]
pub enum SegmentType {
    Single,
    Linear,
    Matrix,
}

/// A logical region of LEDs on an output port.
#[derive(Clone, Debug)]
pub struct SegmentDefinition {
    pub id: String,
    pub name: String,
    pub segment_type: SegmentType,
    /// Number of physical LEDs covered by this segment.
    pub leds_count: usize,
    /// Optional 2D matrix layout for this segment.
    pub matrix: Option<MatrixMap>,
}

/// What a user may change on an output port.
#[derive(Clone, Debug)]
pub struct OutputCapabilities {
    pub editable: bool,
    pub min_total_leds: usize,
    pub max_total_leds: usize,
    /// Optional discrete list of allowed total LED counts.
    pub allowed_total_leds: Option<Vec<usize>>,
    pub allowed_segment_types: Vec<SegmentType>,
}

/// One output port of a device.
#[derive(Clone, Debug)]
pub struct OutputPortDefinition {
    pub id: String,
    pub name: String,
    pub output_type: SegmentType,
    pub leds_count: usize,
    pub matrix: Option<MatrixMap>,
    pub capabilities: OutputCapabilities,
}

/// Copies a vector of plain copyable values.
pub fn copy_vec<T: Copy>(v: &Vec<T>) -> (r: Vec<T>)
    ensures
        r@ == v@,
{
    let mut r: Vec<T> = Vec::new();
    let mut i: usize = 0;
    while i < v.len()
        invariant
            i <= v.len(),
            r@ == v@.take(i as int),
        decreases v.len() - i,
    {
        r.push(v[i]);
        i = i + 1;
    }
    assert(r@ =~= v@);
    r
}

impl MatrixMap {
    /// A copy of this map.
    pub fn duplicate(&self) -> (r: MatrixMap)
        ensures
            r.width == self.width,
            r.height == self.height,
            r.map@ == self.map@,
    {
        MatrixMap { width: self.width, height: self.height, map: copy_vec(&self.map) }
    }
}

/// What a matrix map holds.
pub struct MatrixView {
    pub width: usize,
    pub height: usize,
    pub map: Seq<Option<usize>>,
}

impl View for MatrixMap {
    type V = MatrixView;

    open spec fn view(&self) -> MatrixView {
        MatrixView { width: self.width, height: self.height, map: self.map@ }
    }
}

/// What an optional matrix map holds.
pub open spec fn opt_matrix_view(m: Option<MatrixMap>) -> Option<MatrixView> {
    match m {
        Some(x) => Some(x@),
        None => None,
    }
}

/// What output capabilities hold.
pub struct CapabilitiesView {
    pub editable: bool,
    pub min_total_leds: usize,
    pub max_total_leds: usize,
    pub allowed_total_leds: Option<Seq<usize>>,
    pub allowed_segment_types: Seq<SegmentType>,
}

impl View for OutputCapabilities {
    type V = CapabilitiesView;

    open spec fn view(&self) -> CapabilitiesView {
        CapabilitiesView {
            editable: self.editable,
            min_total_leds: self.min_total_leds,
            max_total_leds: self.max_total_leds,
            allowed_total_leds: match self.allowed_total_leds {
                Some(v) => Some(v@),
                None => None,
            },
            allowed_segment_types: self.allowed_segment_types@,
        }
    }
}

impl OutputCapabilities {
    /// A copy of these capabilities.
    pub fn duplicate(&self) -> (r: OutputCapabilities)
        ensures
            r@ == self@,
    {
        let allowed_total_leds = match &self.allowed_total_leds {
            Some(v) => Some(copy_vec(v)),
            None => None,
        };
        OutputCapabilities {
            editable: self.editable,
            min_total_leds: self.min_total_leds,
            max_total_leds: self.max_total_leds,
            allowed_total_leds,
            allowed_segment_types: copy_vec(&self.allowed_segment_types),
        }
    }
}

/// Two matrix maps describe the same layout.
pub open spec fn same_matrix(a: MatrixMap, b: MatrixMap) -> bool {
    a.width == b.width && a.height == b.height && a.map@ == b.map@
}

/// Two optional matrix maps describe the same layout.
pub open spec fn same_opt_matrix(a: Option<MatrixMap>, b: Option<MatrixMap>) -> bool {
    match (a, b) {
        (None, None) => true,
        (Some(x), Some(y)) => same_matrix(x, y),
        _ => false,
    }
}

/// A copy of an optional matrix map.
pub fn duplicate_opt_matrix(m: &Option<MatrixMap>) -> (r: Option<MatrixMap>)
    ensures
        same_opt_matrix(r, *m),
        opt_matrix_view(r) == opt_matrix_view(*m),
{
    match m {
        Some(x) => Some(x.duplicate()),
        None => None,
    }
}

} // verus!

verus! {

/// Channel `k` (0 = red, 1 = green, 2 = blue) of a color.
pub open spec fn channel(c: Color, k: int) -> u8 {
    if k == 0 {
        c.r
    } else if k == 1 {
        c.g
    } else {
        c.b
    }
}

/// The colors as a byte stream R, G, B, R, G, B, ...
pub open spec fn rgb_bytes(colors: Seq<Color>) -> Seq<u8> {
    Seq::new((3 * colors.len()) as nat, |i: int| channel(colors[i / 3], i % 3))
}

/// Appends the colors to `out` as R, G, B bytes.
pub fn append_rgb(colors: &[Color], out: &mut Vec<u8>)
    requires
        old(out)@.len() + 3 * colors@.len() <= usize::MAX,
    ensures
        final(out)@ == old(out)@ + rgb_bytes(colors@),
{
    let ghost start = out@;
    let mut i: usize = 0;
    while i < colors.len()
        invariant
            i <= colors@.len(),
            start.len() + 3 * colors@.len() <= usize::MAX,
            out@ == start + rgb_bytes(colors@.take(i as int)),
        decreases colors.len() - i,
    {
        let c = colors[i];
        out.push(c.r);
        out.push(c.g);
        out.push(c.b);
        proof {
            let a = rgb_bytes(colors@.take(i as int));
            let b = rgb_bytes(colors@.take(i + 1));
            assert forall|j: int| 0 <= j < b.len() implies b[j] == (a + seq![c.r, c.g, c.b])[j] by {
                if j < 3 * i {
                    assert(j / 3 < i) by (nonlinear_arith) requires 0 <= j < 3 * i;
                } else {
                    assert(j / 3 == i) by (nonlinear_arith) requires 3 * i <= j < 3 * i + 3;
                }
            }
            assert(b =~= a + seq![c.r, c.g, c.b]);
        }
        i = i + 1;
    }
    assert(colors@.take(colors@.len() as int) =~= colors@);
}

/// The colors as R, G, B bytes.
pub fn rgb_vec(colors: &[Color]) -> (out: Vec<u8>)
    requires
        3 * colors@.len() <= usize::MAX,
    ensures
        out@ == rgb_bytes(colors@),
{
    let mut out: Vec<u8> = Vec::new();
    append_rgb(colors, &mut out);
    assert(Seq::<u8>::empty() + rgb_bytes(colors@) =~= rgb_bytes(colors@));
    out
}


/// The LEDs of all outputs together.
pub open spec fn leds_sum(outputs: Seq<OutputPortDefinition>) -> int
    decreases outputs.len(),
{
    if outputs.len() == 0 {
        0
    } else {
        leds_sum(outputs.drop_last()) + outputs.last().leds_count
    }
}

/// The LEDs of all outputs together, held at `usize::MAX` when larger.
pub open spec fn saturated_total(outputs: Seq<OutputPortDefinition>) -> int {
    if leds_sum(outputs) > usize::MAX { usize::MAX as int } else { leds_sum(outputs) }
}

/// The frame that clears a device with these outputs: black, one color per LED, at least one.
pub open spec fn clear_frame(outputs: Seq<OutputPortDefinition>) -> Seq<Color> {
    let n = if saturated_total(outputs) > 1 { saturated_total(outputs) } else { 1 };
    Seq::new(n as nat, |i: int| black())
}

/// A connected lighting device; each driver implements it.
pub trait Controller: Send {
    fn port_name(&self) -> String;

    fn model(&self) -> String;

    fn description(&self) -> String;

    fn serial_id(&self) -> String;

    /// High-level device type (used mainly for UI grouping).
    fn device_type(&self) -> (t: DeviceType)
        default_ensures
            t == DeviceType::Light,
    {
        DeviceType::Light
    }

    /// Outputs exposed by this device.
    fn outputs(&self) -> Vec<OutputPortDefinition>;

    /// Updates the device with a flattened frame of colors in physical order: outputs in
    /// `outputs()` order, and within each output its LEDs in the driver's order.
    fn update(&mut self, colors: &[Color]) -> Result<(), String>;

    /// Sends a black frame as long as all outputs together (at least one LED), the outputs
    /// being those that `outputs` answers, and answers what `update` answers to that frame.
    fn clear(&mut self) -> (r: Result<(), String>) where Self: Sized
        default_ensures
            exists|outs: Vec<OutputPortDefinition>, m: &mut Self, frame: &[Color]|
                #![trigger call_ensures(Self::outputs, (&*old(self),), outs), call_ensures(Self::update, (m, frame), r)]
                {
                    &&& call_ensures(Self::outputs, (&*old(self),), outs)
                    &&& frame@ == clear_frame(outs@)
                    &&& mut_ref_current(m) == *old(self)
                    &&& mut_ref_future(m) == *final(self)
                    &&& call_ensures(Self::update, (m, frame), r)
                },
    {
        let outputs = self.outputs();
        let mut len: usize = 0;
        let mut i: usize = 0;
        while i < outputs.len()
            invariant
                i <= outputs@.len(),
                len == saturated_total(outputs@.take(i as int)),
            decreases outputs.len() - i,
        {
            proof {
                assert(outputs@.take(i + 1).drop_last() =~= outputs@.take(i as int));
            }
            len = len.saturating_add(outputs[i].leds_count);
            i = i + 1;
        }
        proof {
            assert(outputs@.take(i as int) =~= outputs@);
        }
        let n = if len > 1 { len } else { 1 };
        let black = vec![Color { r: 0, g: 0, b: 0 }; n];
        let frame = black.as_slice();
        assert(frame@ =~= clear_frame(outputs@));
        self.update(frame)
    }

    fn disconnect(&mut self) -> (r: Result<(), String>)
        default_ensures
            r == Ok::<(), String>(()),
    {
        Ok(())
    }
}

} // verus!
