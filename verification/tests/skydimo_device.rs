use light::layout::{Color, SegmentType};
use light::skydimo::build_layout_from_device_name;
use light::skydimo_device::{fit_frame, full_model_name, skydimo_frame_size, skydimo_output};

#[test]
fn model_names_get_the_brand() {
    assert_eq!(full_model_name("SK0201"), "Skydimo SK0201");
    assert_eq!(full_model_name("Skydimo SK0201"), "Skydimo SK0201");
    assert_eq!(full_model_name("Sky"), "Skydimo Sky");
}

#[test]
fn output_from_layout() {
    let matrix = skydimo_output(&build_layout_from_device_name("Skydimo SK0201"));
    assert_eq!(matrix.id, "out1");
    assert_eq!(matrix.output_type, SegmentType::Matrix);
    assert_eq!(matrix.leds_count, 40);
    assert!(!matrix.capabilities.editable);
    assert_eq!(matrix.capabilities.allowed_segment_types, vec![SegmentType::Matrix]);
    let strip = skydimo_output(&None);
    assert_eq!(strip.output_type, SegmentType::Linear);
    assert_eq!(strip.leds_count, 100);
    assert!(strip.capabilities.editable);
    assert_eq!(strip.capabilities.allowed_total_leds, Some(vec![100]));
    assert_eq!(strip.capabilities.allowed_segment_types.len(), 3);
}

#[test]
fn frames_are_cut_or_padded() {
    let c = Color { r: 1, g: 2, b: 3 };
    assert_eq!(fit_frame(&[c, c, c], 2), vec![c, c]);
    assert_eq!(fit_frame(&[c], 3), vec![c, Color::default(), Color::default()]);
    assert_eq!(skydimo_frame_size(100), 306);
}
