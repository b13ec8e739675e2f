use light::layout::{Color, SegmentType};
use light::skydimo::{
    build_layout_from_device_name, extract_model_from_device_name, get_skydimo_model_config, SkydimoLayoutType,
    SkydimoSerialProtocol,
};

#[test]
fn known_model_config() {
    let cfg = get_skydimo_model_config("SK0201").unwrap();
    assert!(matches!(cfg.layout, SkydimoLayoutType::Sides2));
    assert_eq!(cfg.zones.len(), 2);
    assert_eq!(cfg.zones[0].led_count, 20);
    assert_eq!(cfg.total_leds, 40);
    assert!(get_skydimo_model_config("SK9999").is_none());
}

#[test]
fn model_from_device_name() {
    assert_eq!(extract_model_from_device_name("Skydimo SK0201"), Some("SK0201"));
    assert_eq!(extract_model_from_device_name("USB Skydimo SK0F01"), Some("SK0F01"));
    assert_eq!(extract_model_from_device_name("Skydimo "), None);
    assert_eq!(extract_model_from_device_name("Other"), None);
}

#[test]
fn sides_layout_is_a_matrix_of_all_leds() {
    let l = build_layout_from_device_name("Skydimo SK0201").unwrap();
    assert_eq!(l.total_leds, 40);
    assert_eq!(l.segment_type, SegmentType::Matrix);
    let m = l.matrix.unwrap();
    // Height = max(20, 20) + 2 = 22; width = round(16/9 * 22) = 39.
    assert_eq!((m.width, m.height), (39, 22));
    let mut seen: Vec<usize> = m.map.iter().filter_map(|c| *c).collect();
    seen.sort();
    assert_eq!(seen, (0..40).collect::<Vec<_>>());
}

#[test]
fn unknown_device_has_no_layout() {
    assert!(build_layout_from_device_name("Skydimo NOPE").is_none());
    assert!(build_layout_from_device_name("Lamp").is_none());
}

#[test]
fn ada_frame_bytes() {
    let mut buf = vec![9, 9];
    SkydimoSerialProtocol::encode_into(&[Color { r: 1, g: 2, b: 3 }, Color { r: 4, g: 5, b: 6 }], &mut buf);
    assert_eq!(buf, vec![0x41, 0x64, 0x61, 0x00, 0x00, 0x02, 1, 2, 3, 4, 5, 6]);
}

#[test]
fn handshake_response_gives_model_and_hex_serial() {
    let (model, serial) = SkydimoSerialProtocol::parse_handshake_response(b"SK0201,ab1\r\n").unwrap();
    assert_eq!(model, "SK0201");
    // "ab1" is 0x61 0x62 0x31.
    assert_eq!(serial, "616231");
    let (m2, s2) = SkydimoSerialProtocol::parse_handshake_response(b"X,\xff\n").unwrap();
    assert_eq!(m2, "X");
    // The invalid byte becomes U+FFFD, encoded as EF BF BD.
    assert_eq!(s2, "EFBFBD");
}

#[test]
fn handshake_response_errors() {
    assert_eq!(SkydimoSerialProtocol::parse_handshake_response(b"").unwrap_err(), "No data received");
    assert_eq!(SkydimoSerialProtocol::parse_handshake_response(b"SK0201 no comma").unwrap_err(), "Invalid response format");
}

#[test]
fn handshake_text_splits_at_the_first_comma() {
    let (model, serial) = SkydimoSerialProtocol::parse_handshake_text("SK0,a,b \n").unwrap();
    assert_eq!(model, "SK0");
    // "a,b" is 0x61 0x2C 0x62.
    assert_eq!(serial, "612C62");
    assert_eq!(SkydimoSerialProtocol::parse_handshake_text("none").unwrap_err(), "Invalid response format");
}
