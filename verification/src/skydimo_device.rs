//! The Skydimo serial device as a controller presents it: its model name, its single
//! output and the frames it is sent.
use vstd::prelude::*;
use crate::layout::{Color, OutputCapabilities, OutputPortDefinition, SegmentType, black, same_opt_matrix};
use crate::skydimo::SkydimoDefaultLayout;
use crate::text::chars_of;

verus! {

/// LEDs assumed where a model's layout is unknown.
pub const FALLBACK_LED_COUNT: usize = 100;

/// The full model name of a device: "Skydimo " before the answered model, unless it
/// starts with "Skydimo" already.
pub fn full_model_name(model: &str) -> (r: String)
    ensures
        r@ == (if model@.len() >= 7 && model@.take(7) == "Skydimo"@ { model@ } else { "Skydimo "@ + model@ }),
{
    proof {
        reveal_strlit("Skydimo");
    }
    let v = chars_of(model);
    let p = chars_of("Skydimo");
    let mut starts = v.len() >= 7;
    if starts {
        let mut i: usize = 0;
        while i < 7
            invariant
                v@ == model@,
                p@ == "Skydimo"@,
                p@.len() == 7,
                v@.len() >= 7,
                i <= 7,
                starts == (forall|k: int| 0 <= k < i ==> v@[k] == p@[k]),
            decreases 7 - i,
        {
            if v[i] != p[i] {
                starts = false;
            }
            i = i + 1;
        }
        assert(starts == (model@.take(7) =~= "Skydimo"@));
    }
    if starts {
        crate::text::owned(model)
    } else {
        crate::text::concat2("Skydimo ", model)
    }
}

/// The single output of a Skydimo device: the model's default layout, or a strip of 100
/// LEDs where the layout is unknown. A matrix output cannot be segmented; a strip can
/// take single, linear and matrix segments; the LED count is fixed.
pub fn skydimo_output(layout: &Option<SkydimoDefaultLayout>) -> (r: OutputPortDefinition)
    ensures
        r.id@ == "out1"@,
        r.name@ == "Output 1"@,
        match layout {
            Some(l) => r.output_type == l.segment_type && r.leds_count == l.total_leds && same_opt_matrix(r.matrix, l.matrix),
            None => r.output_type == SegmentType::Linear && r.leds_count == FALLBACK_LED_COUNT && r.matrix is None,
        },
        r.capabilities.editable == (r.output_type != SegmentType::Matrix),
        r.capabilities.min_total_leds == r.leds_count,
        r.capabilities.max_total_leds == r.leds_count,
        r.capabilities.allowed_total_leds matches Some(a) && a@ == seq![r.leds_count],
        r.capabilities.allowed_segment_types@ == (if r.output_type == SegmentType::Matrix {
            seq![SegmentType::Matrix]
        } else {
            seq![SegmentType::Single, SegmentType::Linear, SegmentType::Matrix]
        }),
{
    let (output_type, led_count, matrix) = match layout {
        Some(l) => (l.segment_type, l.total_leds, crate::layout::duplicate_opt_matrix(&l.matrix)),
        None => (SegmentType::Linear, FALLBACK_LED_COUNT, None),
    };
    let allowed = vec![led_count];
    assert(allowed@ =~= seq![led_count]);
    let types = if output_type == SegmentType::Matrix {
        vec![SegmentType::Matrix]
    } else {
        vec![SegmentType::Single, SegmentType::Linear, SegmentType::Matrix]
    };
    assert(types@ =~= (if output_type == SegmentType::Matrix {
        seq![SegmentType::Matrix]
    } else {
        seq![SegmentType::Single, SegmentType::Linear, SegmentType::Matrix]
    }));
    OutputPortDefinition {
        id: crate::text::owned("out1"),
        name: crate::text::owned("Output 1"),
        output_type,
        leds_count: led_count,
        matrix,
        capabilities: OutputCapabilities {
            editable: output_type != SegmentType::Matrix,
            min_total_leds: led_count,
            max_total_leds: led_count,
            allowed_total_leds: Some(allowed),
            allowed_segment_types: types,
        },
    }
}

/// A frame of exactly `led_count` colors: `colors` cut to length, or filled up with black.
pub fn fit_frame(colors: &[Color], led_count: usize) -> (r: Vec<Color>)
    ensures
        r@.len() == led_count,
        forall|i: int| 0 <= i < led_count ==> #[trigger] r@[i] == (if i < colors@.len() { colors@[i] } else { black() }),
{
    let mut r: Vec<Color> = Vec::new();
    let mut i: usize = 0;
    while i < led_count
        invariant
            i <= led_count,
            r@.len() == i,
            forall|k: int| 0 <= k < i ==> #[trigger] r@[k] == (if k < colors@.len() { colors@[k] } else { black() }),
        decreases led_count - i,
    {
        if i < colors.len() {
            r.push(colors[i]);
        } else {
            r.push(Color { r: 0, g: 0, b: 0 });
        }
        i = i + 1;
    }
    r
}

/// The bytes of one Skydimo frame: `6 + 3 * led_count`.
pub fn skydimo_frame_size(led_count: usize) -> (n: usize)
    requires
        6 + 3 * led_count <= usize::MAX,
    ensures
        n == 6 + 3 * led_count,
{
    6 + 3 * led_count
}

} // verus!
