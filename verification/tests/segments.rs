use light::layout::{MatrixMap, OutputPortDefinition, SegmentDefinition, SegmentType};
use light::led_matrix::capabilities_for_output;
use light::params::{EffectCatalog, EffectDefaults, ParamMap};
use light::scope::{set_scope_effect, DeviceConfig, Scope};
use light::segments::{from_output_defs, set_output_segments, sync_with_output_defs};

fn def(id: &str, t: SegmentType, n: usize) -> OutputPortDefinition {
    OutputPortDefinition { id: id.to_string(), name: id.to_uppercase(), output_type: t, leds_count: n, matrix: None, capabilities: capabilities_for_output(t, n) }
}

fn seg(id: &str, t: SegmentType, n: usize, matrix: Option<MatrixMap>) -> SegmentDefinition {
    SegmentDefinition { id: id.to_string(), name: id.to_string(), segment_type: t, leds_count: n, matrix }
}

fn device() -> DeviceConfig {
    from_output_defs(&vec![def("strip", SegmentType::Linear, 10), def("bulb", SegmentType::Single, 1)])
}

#[test]
fn fresh_configuration() {
    let cfg = device();
    assert_eq!(cfg.brightness, 100);
    assert_eq!(cfg.outputs.len(), 2);
    assert_eq!(cfg.outputs[0].brightness, 100);
    assert!(cfg.outputs[0].segments.is_empty());
    assert!(cfg.mode.active_effect.is_none());
}

#[test]
fn segment_refusals() {
    let mut cfg = device();
    assert_eq!(
        set_output_segments(&mut cfg, "nope", &vec![seg("a", SegmentType::Linear, 10, None)]).unwrap_err(),
        "Output 'nope' not found"
    );
    assert_eq!(
        set_output_segments(&mut cfg, "bulb", &vec![seg("a", SegmentType::Single, 1, None)]).unwrap_err(),
        "Output 'bulb' is Single; segments are only supported for Linear outputs"
    );
    assert_eq!(
        set_output_segments(&mut cfg, "strip", &vec![seg("a", SegmentType::Matrix, 10, None)]).unwrap_err(),
        "Segment type Matrix is not allowed on output 'strip'"
    );
    assert_eq!(
        set_output_segments(&mut cfg, "strip", &vec![seg("a", SegmentType::Single, 2, None)]).unwrap_err(),
        "Single segment must have leds_count = 1"
    );
    assert_eq!(
        set_output_segments(&mut cfg, "strip", &vec![seg("a", SegmentType::Linear, 4, None)]).unwrap_err(),
        "Segment total LED count 4 must equal output leds_count 10"
    );
    assert!(cfg.outputs[0].segments.is_empty());
}

#[test]
fn resegmenting_keeps_state_of_surviving_ids() {
    let cat = EffectCatalog { effects: vec![EffectDefaults { id: "rainbow".to_string(), params: ParamMap::new() }] };
    let mut cfg = device();
    set_output_segments(&mut cfg, "strip", &vec![seg("a", SegmentType::Linear, 5, None), seg("b", SegmentType::Linear, 5, None)]).unwrap();
    let b = Scope::Segment { output_id: "strip".to_string(), segment_id: "b".to_string() };
    set_scope_effect(&mut cfg, "P", &b, Some("rainbow"), 1, &cat).unwrap();
    set_output_segments(
        &mut cfg,
        "strip",
        &vec![seg("b", SegmentType::Linear, 3, None), seg("c", SegmentType::Single, 1, None), seg("d", SegmentType::Linear, 6, None)],
    )
    .unwrap();
    let segs = &cfg.outputs[0].segments;
    assert_eq!(segs.len(), 3);
    assert_eq!(segs[0].id, "b");
    assert_eq!(segs[0].leds_count, 3);
    assert_eq!(segs[0].mode.selected_effect_id().as_deref(), Some("rainbow"));
    assert!(segs[1].mode.active_effect.is_none());
}

#[test]
fn sync_keeps_user_state_of_remaining_outputs() {
    let cat = EffectCatalog { effects: vec![EffectDefaults { id: "rainbow".to_string(), params: ParamMap::new() }] };
    let mut cfg = device();
    let strip = Scope::Output { output_id: "strip".to_string() };
    set_scope_effect(&mut cfg, "P", &strip, Some("rainbow"), 1, &cat).unwrap();
    set_output_segments(&mut cfg, "strip", &vec![seg("a", SegmentType::Linear, 10, None)]).unwrap();
    // The driver now reports the strip with 12 LEDs and a new matrix output.
    sync_with_output_defs(&mut cfg, &vec![def("strip", SegmentType::Linear, 12), def("panel", SegmentType::Matrix, 4)]);
    assert_eq!(cfg.outputs.len(), 2);
    assert_eq!(cfg.outputs[0].leds_count, 12);
    assert_eq!(cfg.outputs[0].mode.selected_effect_id().as_deref(), Some("rainbow"));
    // The segments no longer cover the output.
    assert!(cfg.outputs[0].segments.is_empty());
    assert_eq!(cfg.outputs[1].id, "panel");
}

#[test]
fn matrix_segment_needs_matching_map() {
    let mut cfg = from_output_defs(&vec![def("panel", SegmentType::Matrix, 4)]);
    // Matrix outputs are not segmentable.
    let m = MatrixMap { width: 2, height: 2, map: vec![Some(0), Some(1), None, Some(2)] };
    assert!(set_output_segments(&mut cfg, "panel", &vec![seg("a", SegmentType::Matrix, 3, Some(m))]).is_err());
}
