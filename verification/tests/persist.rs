use light::layout::{OutputPortDefinition, SegmentDefinition, SegmentType};
use light::led_matrix::capabilities_for_output;
use light::params::{EffectCatalog, EffectDefaults, EffectParams, ParamMap};
use light::persist::{
    apply_persisted_device_config, apply_persisted_mode, export_persisted_device_config, persisted_fits,
    PersistedModeConfig,
};
use light::scope::{set_scope_brightness, set_scope_effect, DeviceConfig, ModeConfig, Scope};
use light::segments::{from_output_defs, set_output_segments};

fn catalog() -> EffectCatalog {
    let mut p = ParamMap::new();
    p.insert("speed".to_string(), "5".to_string());
    EffectCatalog {
        effects: vec![
            EffectDefaults { id: "rainbow".to_string(), params: p },
            EffectDefaults { id: "monochrome".to_string(), params: ParamMap::new() },
        ],
    }
}

fn defs() -> Vec<OutputPortDefinition> {
    vec![
        OutputPortDefinition {
            id: "strip".to_string(),
            name: "Strip".to_string(),
            output_type: SegmentType::Linear,
            leds_count: 10,
            matrix: None,
            capabilities: capabilities_for_output(SegmentType::Linear, 10),
        },
        OutputPortDefinition {
            id: "bulb".to_string(),
            name: "Bulb".to_string(),
            output_type: SegmentType::Single,
            leds_count: 1,
            matrix: None,
            capabilities: capabilities_for_output(SegmentType::Single, 1),
        },
    ]
}

fn seg(id: &str, n: usize) -> SegmentDefinition {
    SegmentDefinition { id: id.to_string(), name: id.to_uppercase(), segment_type: SegmentType::Linear, leds_count: n, matrix: None }
}

fn configured() -> DeviceConfig {
    let cat = catalog();
    let mut cfg = from_output_defs(&defs());
    set_output_segments(&mut cfg, "strip", &vec![seg("left", 4), seg("right", 6)]).unwrap();
    set_scope_effect(&mut cfg, "COM1", &Scope::Device, Some("monochrome"), 10, &cat).unwrap();
    let right = Scope::Segment { output_id: "strip".to_string(), segment_id: "right".to_string() };
    set_scope_effect(&mut cfg, "COM1", &right, Some("rainbow"), 20, &cat).unwrap();
    set_scope_brightness(&mut cfg, &right, 40).unwrap();
    cfg.brightness = 70;
    cfg
}

fn selected(m: &ModeConfig) -> Option<String> {
    m.selected_effect_id()
}

#[test]
fn export_saves_layout_and_scopes() {
    let cfg = configured();
    let p = export_persisted_device_config(&cfg);
    assert_eq!(p.device.layout.len(), 1);
    assert_eq!(p.device.layout[0].0, "strip");
    let ids: Vec<&str> = p.device.layout[0].1.segments.iter().map(|s| s.id.as_str()).collect();
    assert_eq!(ids, vec!["left", "right"]);
    assert_eq!(p.effects.brightness, 70);
    assert_eq!(p.effects.selected.as_deref(), Some("monochrome"));
    assert_eq!(p.effects.outputs.len(), 2);
    // Outputs at full brightness that inherit save no brightness.
    assert_eq!(p.effects.outputs[0].brightness, None);
    assert_eq!(p.effects.outputs[0].selected, None);
    let segs = &p.effects.outputs[0].segments;
    assert_eq!(segs.len(), 2);
    assert_eq!(segs[0].brightness, None);
    assert_eq!(segs[1].brightness, Some(40));
    assert_eq!(segs[1].selected.as_deref(), Some("rainbow"));
    assert!(segs[1].params.contains_key("rainbow"));
}

#[test]
fn restore_after_save_gives_the_configuration_back() {
    let cfg = configured();
    let p = export_persisted_device_config(&cfg);
    assert!(persisted_fits(&p));
    let mut fresh = from_output_defs(&defs());
    apply_persisted_device_config(&mut fresh, &p, 99, &catalog()).unwrap();
    assert_eq!(fresh.brightness, 70);
    assert_eq!(selected(&fresh.mode).as_deref(), Some("monochrome"));
    let strip = &fresh.outputs[0];
    assert_eq!(strip.segments.len(), 2);
    assert_eq!(strip.segments[0].id, "left");
    assert_eq!(strip.segments[0].leds_count, 4);
    assert_eq!(strip.segments[1].id, "right");
    assert_eq!(strip.segments[1].brightness, 40);
    assert_eq!(selected(&strip.segments[1].mode).as_deref(), Some("rainbow"));
    assert_eq!(strip.segments[1].mode.active_effect.as_ref().unwrap().started_at, 99);
    assert_eq!(strip.segments[0].brightness, 100);
    assert_eq!(selected(&strip.segments[0].mode), None);
    assert_eq!(fresh.outputs[1].brightness, 100);
    // Saving again gives the same saved state.
    let q = export_persisted_device_config(&fresh);
    assert_eq!(q.effects.outputs[0].segments[1].brightness, Some(40));
    assert_eq!(q.device.layout.len(), 1);
}

#[test]
fn restoring_an_unknown_device_effect_fails() {
    let cfg = configured();
    let mut p = export_persisted_device_config(&cfg);
    p.effects.selected = Some("fireworks".to_string());
    p.effects.params = EffectParams::new();
    let mut fresh = from_output_defs(&defs());
    let r = apply_persisted_device_config(&mut fresh, &p, 5, &catalog());
    assert_eq!(r.unwrap_err(), "Effect 'fireworks' not found");
    // The layout and brightness were restored before the error.
    assert_eq!(fresh.brightness, 70);
    assert_eq!(fresh.outputs[0].segments.len(), 2);
}

#[test]
fn unknown_outputs_in_saved_state_are_skipped() {
    let cfg = configured();
    let mut p = export_persisted_device_config(&cfg);
    p.device.layout[0].0 = "gone".to_string();
    p.effects.outputs[0].id = "gone".to_string();
    let mut fresh = from_output_defs(&defs());
    apply_persisted_device_config(&mut fresh, &p, 5, &catalog()).unwrap();
    assert_eq!(fresh.outputs[0].segments.len(), 0);
}

#[test]
fn mode_restore_replaces_params_and_selects() {
    let cat = catalog();
    let mut mode = ModeConfig::new();
    let mut params = EffectParams::new();
    let mut mine = ParamMap::new();
    mine.insert("speed".to_string(), "9".to_string());
    params.insert("rainbow".to_string(), mine);
    let saved = PersistedModeConfig { selected: Some("rainbow".to_string()), params };
    apply_persisted_mode(&mut mode, &saved, 7, &cat).unwrap();
    assert_eq!(mode.selected_effect_id().as_deref(), Some("rainbow"));
    assert_eq!(mode.params_by_effect.get("rainbow").unwrap().get("speed").map(|s| s.as_str()), Some("9"));
    assert_eq!(mode.rev, 1);
    let back = PersistedModeConfig::from_mode(&mode);
    assert_eq!(back.selected.as_deref(), Some("rainbow"));

    let none = PersistedModeConfig { selected: None, params: EffectParams::new() };
    apply_persisted_mode(&mut mode, &none, 8, &cat).unwrap();
    assert_eq!(mode.selected_effect_id(), None);
    assert_eq!(mode.rev, 2);
    assert!(!mode.params_by_effect.contains_key("rainbow"));
}

#[test]
fn mode_restore_of_unknown_effect_keeps_new_params() {
    let cat = catalog();
    let mut mode = ModeConfig::new();
    let saved = PersistedModeConfig { selected: Some("nope".to_string()), params: EffectParams::new() };
    let r = apply_persisted_mode(&mut mode, &saved, 7, &cat);
    assert_eq!(r.unwrap_err(), "Effect 'nope' not found");
    assert_eq!(mode.selected_effect_id(), None);
    assert_eq!(mode.rev, 0);
}

#[test]
fn device_file_names_keep_safe_characters() {
    assert_eq!(light::persist::device_file_stem("COM3:usb/1"), "COM3_usb_1");
    assert_eq!(light::persist::device_file_stem("ab-C_9"), "ab-C_9");
    assert_eq!(light::persist::device_file_stem("é"), "_");
}

#[test]
fn restore_after_changes_gives_the_saved_configuration_back() {
    let cat = catalog();
    let mut cfg = configured();
    let p = export_persisted_device_config(&cfg);
    let right = Scope::Segment { output_id: "strip".to_string(), segment_id: "right".to_string() };
    set_scope_effect(&mut cfg, "COM1", &Scope::Device, Some("rainbow"), 50, &cat).unwrap();
    set_scope_effect(&mut cfg, "COM1", &right, Some("monochrome"), 60, &cat).unwrap();
    set_scope_brightness(&mut cfg, &right, 5).unwrap();
    set_scope_brightness(&mut cfg, &Scope::Device, 20).unwrap();
    apply_persisted_device_config(&mut cfg, &p, 70, &cat).unwrap();
    let q = export_persisted_device_config(&cfg);
    assert_eq!(q.effects.brightness, p.effects.brightness);
    assert_eq!(q.effects.selected, p.effects.selected);
    assert_eq!(q.device.layout.len(), p.device.layout.len());
    assert_eq!(q.effects.outputs.len(), p.effects.outputs.len());
    for (a, b) in q.effects.outputs.iter().zip(p.effects.outputs.iter()) {
        assert_eq!(a.id, b.id);
        assert_eq!(a.brightness, b.brightness);
        assert_eq!(a.selected, b.selected);
        assert_eq!(a.segments.len(), b.segments.len());
        for (x, y) in a.segments.iter().zip(b.segments.iter()) {
            assert_eq!((&x.id, x.brightness, &x.selected), (&y.id, y.brightness, &y.selected));
        }
    }
    assert_eq!(selected(&cfg.outputs[0].segments[1].mode).as_deref(), Some("rainbow"));
    assert_eq!(cfg.outputs[0].segments[1].brightness, 40);
}
