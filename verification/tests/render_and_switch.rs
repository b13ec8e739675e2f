use light::layout::{Color, MatrixMap, OutputPortDefinition, SegmentDefinition, SegmentType};
use light::led_matrix::capabilities_for_output;
use light::params::{EffectCatalog, EffectDefaults, ParamMap};
use light::render::{
    compose_frame, FramePiece,
    map_segment_into_physical, plan_render_tasks, plan_runtime_update, render_len, switch_timed_out,
    virtual_layout_for_segment, RuntimeSpec, UpdatePlan,
};
use light::scope::{set_scope_effect, DeviceConfig, Scope};
use light::segments::{from_output_defs, set_output_segments};
use light::snapshot::{build_brightness_state, build_mode_state, device_has_any_effect, runner_action, RunnerAction};
use light::switching::{
    begin_switch, finish_switch, SwitchGate,
    prepare_switch, scope_targets, switch_disconnected_message, switch_timeout_message, use_segments_for_output,
    SwitchEvent, SwitchWaiter,
};

fn catalog() -> EffectCatalog {
    EffectCatalog {
        effects: vec![
            EffectDefaults { id: "rainbow".to_string(), params: ParamMap::new() },
            EffectDefaults { id: "monochrome".to_string(), params: ParamMap::new() },
        ],
    }
}

fn device() -> DeviceConfig {
    let defs = vec![
        OutputPortDefinition {
            id: "strip".to_string(),
            name: "Strip".to_string(),
            output_type: SegmentType::Linear,
            leds_count: 5,
            matrix: None,
            capabilities: capabilities_for_output(SegmentType::Linear, 5),
        },
        OutputPortDefinition {
            id: "bulb".to_string(),
            name: "Bulb".to_string(),
            output_type: SegmentType::Single,
            leds_count: 1,
            matrix: None,
            capabilities: capabilities_for_output(SegmentType::Single, 1),
        },
    ];
    let mut cfg = from_output_defs(&defs);
    let segs = vec![
        SegmentDefinition { id: "a".to_string(), name: "A".to_string(), segment_type: SegmentType::Linear, leds_count: 2, matrix: None },
        SegmentDefinition { id: "b".to_string(), name: "B".to_string(), segment_type: SegmentType::Linear, leds_count: 3, matrix: None },
    ];
    set_output_segments(&mut cfg, "strip", &segs).unwrap();
    cfg
}

fn spec(id: &str, start: u64, rev: u64) -> RuntimeSpec {
    RuntimeSpec { effect_id: id.to_string(), origin_started_at: start, width: 5, height: 1, origin_rev: rev }
}

#[test]
fn render_plan_lists_targets_in_physical_order() {
    let cat = catalog();
    let mut cfg = device();
    assert!(use_segments_for_output(&cfg.outputs[0]));
    set_scope_effect(&mut cfg, "P", &Scope::Device, Some("rainbow"), 5, &cat).unwrap();
    let (tasks, total) = plan_render_tasks(&cfg, "P", &cat);
    assert_eq!(total, 6);
    assert_eq!(tasks.len(), 3);
    assert_eq!(tasks[0].key.segment_id.as_deref(), Some("a"));
    assert_eq!(tasks[0].physical_offset, 0);
    assert_eq!(tasks[1].key.segment_id.as_deref(), Some("b"));
    assert_eq!(tasks[1].physical_offset, 2);
    assert_eq!(tasks[2].key.output_id, "bulb");
    assert_eq!(tasks[2].physical_offset, 5);
    assert_eq!(tasks[2].resolved.as_ref().unwrap().effect_id, "rainbow");
}

#[test]
fn virtual_layouts_and_buffer_lengths() {
    assert_eq!(virtual_layout_for_segment(SegmentType::Single, 9, &None), (1, 1));
    assert_eq!(virtual_layout_for_segment(SegmentType::Linear, 0, &None), (1, 1));
    assert_eq!(virtual_layout_for_segment(SegmentType::Linear, 7, &None), (7, 1));
    let m = MatrixMap { width: 3, height: 2, map: vec![None; 6] };
    assert_eq!(virtual_layout_for_segment(SegmentType::Matrix, 4, &Some(m)), (3, 2));
    assert_eq!(render_len(3, 2), 6);
    assert_eq!(render_len(0, 5), 1);
    assert_eq!(render_len(usize::MAX, 2), 1);
}

#[test]
fn strip_and_matrix_mapping() {
    let red = Color { r: 255, g: 0, b: 0 };
    let blue = Color { r: 0, g: 0, b: 255 };
    let black = Color::default();
    let mut out = vec![black; 4];
    map_segment_into_physical(&vec![red, blue], SegmentType::Linear, 2, &None, 1, &mut out);
    assert_eq!(out, vec![black, red, blue, black]);
    // A 2x1 matrix whose second cell drives LED 0 and first cell has no LED.
    let m = MatrixMap { width: 2, height: 1, map: vec![None, Some(0)] };
    let mut out = vec![black; 3];
    map_segment_into_physical(&vec![red, blue], SegmentType::Matrix, 1, &Some(m), 2, &mut out);
    assert_eq!(out, vec![black, black, blue]);
}

#[test]
fn runtime_update_plans() {
    let cur = spec("rainbow", 1, 3);
    assert_eq!(plan_runtime_update(&cur, &None, &None, &spec("rainbow", 1, 3)), UpdatePlan::KeepCurrent { params_changed: false });
    assert_eq!(plan_runtime_update(&cur, &None, &None, &spec("rainbow", 1, 4)), UpdatePlan::KeepCurrent { params_changed: true });
    let want = spec("monochrome", 2, 7);
    assert_eq!(plan_runtime_update(&cur, &None, &Some(spec("monochrome", 2, 7)), &want), UpdatePlan::StayBlocked);
    assert_eq!(plan_runtime_update(&cur, &None, &Some(spec("monochrome", 2, 6)), &want), UpdatePlan::StartPending);
    assert_eq!(
        plan_runtime_update(&cur, &Some(spec("monochrome", 2, 6)), &None, &want),
        UpdatePlan::KeepPending { params_changed: true }
    );
    assert_eq!(plan_runtime_update(&cur, &None, &None, &want), UpdatePlan::StartPending);
}

#[test]
fn switch_timeout() {
    assert!(!switch_timed_out(1000, 6000));
    assert!(switch_timed_out(1000, 6001));
    assert!(!switch_timed_out(5000, 100));
    assert_eq!(switch_timeout_message(), "Effect switch timeout (5s)");
    assert_eq!(switch_disconnected_message(), "Effect switch channel disconnected");
}

#[test]
fn switch_waits_for_changed_targets() {
    let cat = catalog();
    let mut cfg = device();
    set_scope_effect(&mut cfg, "P", &Scope::Device, Some("rainbow"), 5, &cat).unwrap();
    let seg_b = Scope::Segment { output_id: "strip".to_string(), segment_id: "b".to_string() };
    let expected = prepare_switch(&mut cfg, "P", &seg_b, "monochrome", 9, &cat).unwrap();
    assert_eq!(expected.len(), 1);
    assert_eq!(expected[0].target.segment_id.as_deref(), Some("b"));
    assert_eq!(expected[0].effect_id, "monochrome");
    let rev = expected[0].origin_rev;
    let mut w = SwitchWaiter::new(expected);
    assert!(!w.is_done());
    // A report for another effect changes nothing.
    let other = SwitchEvent::Ready { output_id: "strip".to_string(), segment_id: Some("b".to_string()), effect_id: "rainbow".to_string(), origin_rev: rev };
    assert!(w.on_event(other).is_none());
    assert!(!w.is_done());
    let ready = SwitchEvent::Ready { output_id: "strip".to_string(), segment_id: Some("b".to_string()), effect_id: "monochrome".to_string(), origin_rev: rev };
    assert!(w.on_event(ready).is_none());
    assert!(w.is_done());
}

#[test]
fn switch_failure_reports_reason() {
    let cat = catalog();
    let mut cfg = device();
    let expected = prepare_switch(&mut cfg, "P", &Scope::Device, "rainbow", 1, &cat).unwrap();
    assert_eq!(expected.len(), 3);
    let e = &expected[2];
    let failed = SwitchEvent::Failed {
        output_id: e.target.output_id.clone(),
        segment_id: e.target.segment_id.clone(),
        effect_id: e.effect_id.clone(),
        origin_rev: e.origin_rev,
        reason: "boom".to_string(),
    };
    let mut w = SwitchWaiter::new(expected);
    assert_eq!(w.on_event(failed).as_deref(), Some("boom"));
    let missing = Scope::Output { output_id: "nope".to_string() };
    assert_eq!(prepare_switch(&mut cfg, "P", &missing, "rainbow", 1, &cat).unwrap_err(), "Output 'nope' not found");
    assert!(scope_targets(&cfg, &missing).is_err());
}

#[test]
fn snapshots_of_scopes() {
    let cat = catalog();
    let mut cfg = device();
    assert!(!device_has_any_effect(&cfg));
    set_scope_effect(&mut cfg, "P", &Scope::Device, Some("rainbow"), 5, &cat).unwrap();
    assert!(device_has_any_effect(&cfg));
    let seg_a = Scope::Segment { output_id: "strip".to_string(), segment_id: "a".to_string() };
    let m = build_mode_state(&cfg, "P", &seg_a, &cat);
    assert_eq!(m.selected_effect_id, None);
    assert_eq!(m.effective_effect_id.as_deref(), Some("rainbow"));
    let b = build_brightness_state(&cfg, "P", &seg_a);
    assert_eq!(b.value, 100);
    assert!(b.is_following);
    assert!(matches!(runner_action(true, false), RunnerAction::Start));
    assert!(matches!(runner_action(false, true), RunnerAction::Stop));
    assert!(matches!(runner_action(true, true), RunnerAction::Keep));
}

#[test]
fn switch_gate_refuses_a_second_switch_and_restores_on_failure() {
    let cat = catalog();
    let mut cfg = device();
    let mut gate = SwitchGate::new();
    let start = begin_switch(&mut gate, &mut cfg, "COM3", &Scope::Device, "rainbow", 5, &cat).unwrap();
    assert!(gate.pending);
    assert!(device_has_any_effect(&cfg));
    assert_eq!(
        begin_switch(&mut gate, &mut cfg, "COM3", &Scope::Device, "monochrome", 6, &cat).unwrap_err(),
        "Effect switch already in progress"
    );
    let r = finish_switch(&mut gate, &mut cfg, start.backup, Err("Effect switch timeout (5s)".to_string()));
    assert_eq!(r.unwrap_err(), "Effect switch timeout (5s)");
    assert!(!gate.pending);
    assert!(!device_has_any_effect(&cfg));
    let start = begin_switch(&mut gate, &mut cfg, "COM3", &Scope::Device, "rainbow", 7, &cat).unwrap();
    assert!(finish_switch(&mut gate, &mut cfg, start.backup, Ok(())).is_ok());
    assert!(device_has_any_effect(&cfg));
}

#[test]
fn frame_is_black_where_no_target_renders() {
    let red = Color { r: 255, g: 0, b: 0 };
    let pieces = vec![FramePiece {
        buffer: vec![red, red],
        segment_type: SegmentType::Linear,
        leds_count: 2,
        matrix: None,
        physical_offset: 1,
    }];
    let f = compose_frame(5, &pieces);
    let black = Color { r: 0, g: 0, b: 0 };
    assert_eq!(f, vec![black, red, red, black, black]);
    assert_eq!(compose_frame(3, &Vec::new()), vec![black; 3]);
}
