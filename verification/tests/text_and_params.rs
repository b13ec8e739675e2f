use light::hex_text::upper_hex;
use light::params::{default_params_for_effect, EffectCatalog, EffectDefaults, EffectParams, ParamMap};
use light::text::{concat3, decimal_string, find_chars, trim_str};

#[test]
fn decimal_text() {
    assert_eq!(decimal_string(0), "0");
    assert_eq!(decimal_string(65535), "65535");
}

#[test]
fn trimming_and_search() {
    assert_eq!(trim_str("  a b \r\n"), "a b");
    assert_eq!(trim_str("   "), "");
    let hay: Vec<char> = "abcabc".chars().collect();
    let pat: Vec<char> = "ca".chars().collect();
    assert_eq!(find_chars(&hay, &pat), Some(2));
    let none: Vec<char> = "x".chars().collect();
    assert_eq!(find_chars(&hay, &none), None);
    assert_eq!(concat3("a", "-", "b"), "a-b");
}

#[test]
fn upper_case_hex() {
    assert_eq!(upper_hex("0a1f"), "0A1F");
}

#[test]
fn param_maps_merge_with_later_values() {
    let mut a = ParamMap::new();
    a.insert("speed".to_string(), "1".to_string());
    a.insert("hue".to_string(), "2".to_string());
    a.insert("speed".to_string(), "3".to_string());
    assert_eq!(a.entries.len(), 2);
    assert_eq!(a.get("speed").map(|s| s.as_str()), Some("3"));
    let mut b = ParamMap::new();
    b.insert("hue".to_string(), "9".to_string());
    b.insert("size".to_string(), "4".to_string());
    a.merge(&b);
    assert_eq!(a.get("hue").map(|s| s.as_str()), Some("9"));
    assert_eq!(a.get("size").map(|s| s.as_str()), Some("4"));
    assert_eq!(a.get("speed").map(|s| s.as_str()), Some("3"));
    assert!(a.get("nope").is_none());
}

#[test]
fn effect_params_per_effect() {
    let mut e = EffectParams::new();
    let mut p = ParamMap::new();
    p.insert("k".to_string(), "1".to_string());
    e.insert("rainbow".to_string(), p);
    assert!(e.contains_key("rainbow"));
    assert!(!e.contains_key("mono"));
    let mut q = ParamMap::new();
    q.insert("j".to_string(), "2".to_string());
    e.merge_into("rainbow", &q);
    let r = e.get("rainbow").unwrap();
    assert_eq!(r.get("k").map(|s| s.as_str()), Some("1"));
    assert_eq!(r.get("j").map(|s| s.as_str()), Some("2"));
    let copy = e.duplicate();
    assert!(copy.contains_key("rainbow"));
}

#[test]
fn catalog_defaults_first_registration_wins() {
    let mut first = ParamMap::new();
    first.insert("speed".to_string(), "5".to_string());
    let mut second = ParamMap::new();
    second.insert("speed".to_string(), "7".to_string());
    let cat = EffectCatalog {
        effects: vec![
            EffectDefaults { id: "rainbow".to_string(), params: first },
            EffectDefaults { id: "rainbow".to_string(), params: second },
        ],
    };
    let d = default_params_for_effect(&cat, "rainbow").unwrap();
    assert_eq!(d.get("speed").map(|s| s.as_str()), Some("5"));
    assert!(default_params_for_effect(&cat, "none").is_none());
}
