use light::layout::{OutputPortDefinition, SegmentDefinition, SegmentType};
use light::led_matrix::capabilities_for_output;
use light::params::{EffectCatalog, EffectDefaults, ParamMap};
use light::scope::{
    brightness_for_scope, resolve_brightness_for_scope, resolve_effect_for_scope, scope_is_following_mode,
    set_scope_brightness, set_scope_effect, update_scope_effect_params, DeviceConfig, Scope,
};
use light::segments::{from_output_defs, set_output_segments};

fn catalog() -> EffectCatalog {
    let mut p = ParamMap::new();
    p.insert("speed".to_string(), "5".to_string());
    EffectCatalog {
        effects: vec![
            EffectDefaults { id: "rainbow".to_string(), params: p },
            EffectDefaults { id: "monochrome".to_string(), params: ParamMap::new() },
        ],
    }
}

fn device() -> DeviceConfig {
    let defs = vec![OutputPortDefinition {
        id: "strip".to_string(),
        name: "Strip".to_string(),
        output_type: SegmentType::Linear,
        leds_count: 10,
        matrix: None,
        capabilities: capabilities_for_output(SegmentType::Linear, 10),
    }];
    let mut cfg = from_output_defs(&defs);
    let segs = vec![
        SegmentDefinition { id: "a".to_string(), name: "A".to_string(), segment_type: SegmentType::Linear, leds_count: 3, matrix: None },
        SegmentDefinition { id: "b".to_string(), name: "B".to_string(), segment_type: SegmentType::Linear, leds_count: 7, matrix: None },
    ];
    set_output_segments(&mut cfg, "strip", &segs).unwrap();
    cfg
}

fn seg(s: &str) -> Scope {
    Scope::Segment { output_id: "strip".to_string(), segment_id: s.to_string() }
}

#[test]
fn scope_from_options() {
    assert!(matches!(Scope::from_options(None, None), Ok(Scope::Device)));
    assert!(matches!(Scope::from_options(Some("o"), None), Ok(Scope::Output { .. })));
    assert_eq!(Scope::from_options(None, Some("s")).unwrap_err(), "Invalid scope: segment_id requires output_id");
}

#[test]
fn segment_inherits_device_effect_until_it_selects_its_own() {
    let cat = catalog();
    let mut cfg = device();
    set_scope_effect(&mut cfg, "COM3", &Scope::Device, Some("monochrome"), 100, &cat).unwrap();
    let r = resolve_effect_for_scope(&cfg, "COM3", &seg("a"), &cat).unwrap();
    assert_eq!(r.effect_id, "monochrome");
    assert_eq!(r.from.output_id, None);
    assert_eq!(r.started_at, 100);
    assert!(scope_is_following_mode(&cfg, &seg("a")));

    set_scope_effect(&mut cfg, "COM3", &seg("a"), Some("rainbow"), 200, &cat).unwrap();
    let r = resolve_effect_for_scope(&cfg, "COM3", &seg("a"), &cat).unwrap();
    assert_eq!(r.effect_id, "rainbow");
    assert_eq!(r.from.segment_id.as_deref(), Some("a"));
    assert_eq!(r.params.get("speed").map(|s| s.as_str()), Some("5"));
    // The other segment still runs the device effect.
    let r = resolve_effect_for_scope(&cfg, "COM3", &seg("b"), &cat).unwrap();
    assert_eq!(r.effect_id, "monochrome");

    // Clearing the segment's selection falls back to the device effect.
    set_scope_effect(&mut cfg, "COM3", &seg("a"), None, 300, &cat).unwrap();
    let r = resolve_effect_for_scope(&cfg, "COM3", &seg("a"), &cat).unwrap();
    assert_eq!(r.effect_id, "monochrome");
}

#[test]
fn selecting_at_a_parent_makes_children_inherit() {
    let cat = catalog();
    let mut cfg = device();
    set_scope_effect(&mut cfg, "COM3", &seg("b"), Some("rainbow"), 1, &cat).unwrap();
    let out = Scope::Output { output_id: "strip".to_string() };
    set_scope_effect(&mut cfg, "COM3", &out, Some("monochrome"), 2, &cat).unwrap();
    let r = resolve_effect_for_scope(&cfg, "COM3", &seg("b"), &cat).unwrap();
    assert_eq!(r.effect_id, "monochrome");
    assert_eq!(r.from.output_id.as_deref(), Some("strip"));
    assert_eq!(r.from.segment_id, None);
}

#[test]
fn unknown_effect_and_scope_are_refused() {
    let cat = catalog();
    let mut cfg = device();
    assert_eq!(
        set_scope_effect(&mut cfg, "COM3", &Scope::Device, Some("nope"), 1, &cat).unwrap_err(),
        "Effect 'nope' not found"
    );
    assert_eq!(set_scope_effect(&mut cfg, "COM3", &seg("zz"), Some("rainbow"), 1, &cat).unwrap_err(), "Segment 'zz' not found");
    let missing = Scope::Output { output_id: "x".to_string() };
    assert_eq!(set_scope_effect(&mut cfg, "COM3", &missing, Some("rainbow"), 1, &cat).unwrap_err(), "Output 'x' not found");
    assert!(resolve_effect_for_scope(&cfg, "COM3", &Scope::Device, &cat).is_none());
}

#[test]
fn brightness_follows_parent_until_scope_selects() {
    let cat = catalog();
    let mut cfg = device();
    set_scope_brightness(&mut cfg, &Scope::Device, 60).unwrap();
    assert_eq!(
        set_scope_brightness(&mut cfg, &seg("a"), 10).unwrap_err(),
        "Brightness is following parent mode at this scope"
    );
    assert_eq!(resolve_brightness_for_scope(&cfg, "COM3", &seg("a")).unwrap().value, 60);
    set_scope_effect(&mut cfg, "COM3", &seg("a"), Some("rainbow"), 1, &cat).unwrap();
    set_scope_brightness(&mut cfg, &seg("a"), 10).unwrap();
    assert_eq!(brightness_for_scope(&cfg, &seg("a")), Some(10));
    let rb = resolve_brightness_for_scope(&cfg, "COM3", &seg("a")).unwrap();
    assert_eq!(rb.value, 10);
    assert_eq!(rb.from.segment_id.as_deref(), Some("a"));
}

#[test]
fn params_update_merges_into_running_effect() {
    let cat = catalog();
    let mut cfg = device();
    set_scope_effect(&mut cfg, "COM3", &Scope::Device, Some("rainbow"), 1, &cat).unwrap();
    let mut p = ParamMap::new();
    p.insert("speed".to_string(), "8".to_string());
    p.insert("hue".to_string(), "3".to_string());
    update_scope_effect_params(&mut cfg, "COM3", &Scope::Device, &p, &cat).unwrap();
    let r = resolve_effect_for_scope(&cfg, "COM3", &Scope::Device, &cat).unwrap();
    assert_eq!(r.params.get("speed").map(|s| s.as_str()), Some("8"));
    assert_eq!(r.params.get("hue").map(|s| s.as_str()), Some("3"));
}

#[test]
fn brightness_above_one_hundred_is_refused() {
    let mut cfg = device();
    set_scope_brightness(&mut cfg, &Scope::Device, 100).unwrap();
    assert_eq!(
        set_scope_brightness(&mut cfg, &Scope::Device, 150).unwrap_err(),
        "Brightness must be between 0 and 100"
    );
    assert_eq!(brightness_for_scope(&cfg, &Scope::Device), Some(100));
}
