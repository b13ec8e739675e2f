use light::layout::{Color, MatrixMap, SegmentType};
use light::led_matrix::{
    build_outputs_from_config, encode_frame, leds_count_from_matrix_map, output_def_from_dto, LedMatrixProtocol,
    OutputPortConfig,
};

#[test]
fn query_commands() {
    assert_eq!(LedMatrixProtocol::encode_query_info(), [0x10]);
    assert_eq!(LedMatrixProtocol::encode_query_config(), [0x14]);
}

#[test]
fn decode_device_info() {
    let mut d = vec![0x10, 4, 16, 0, 8, 0, 2, 0];
    d.push(3);
    d.extend_from_slice(b"Mat");
    d.push(2);
    d.extend_from_slice(b"hi");
    d.push(1);
    d.extend_from_slice(b"Z");
    let info = LedMatrixProtocol::decode_query_response(&d).unwrap();
    assert_eq!(info.version, 4);
    assert_eq!((info.width, info.height, info.pixel_size), (16, 8, 2));
    assert_eq!(info.name, "Mat");
    assert_eq!(info.description, "hi");
    assert_eq!(info.serial, "Z");
    // Truncated serial, wrong command, too short.
    assert!(LedMatrixProtocol::decode_query_response(&d[..d.len() - 1]).is_none());
    let mut wrong = d.clone();
    wrong[0] = 0x11;
    assert!(LedMatrixProtocol::decode_query_response(&wrong).is_none());
    assert!(LedMatrixProtocol::decode_query_response(&[0x10, 4]).is_none());
}

#[test]
fn decode_config_fragment() {
    let f = LedMatrixProtocol::decode_config_fragment(&[0x14, 9, 2, 1, 3, 0, b'a', b'b', b'c', b'x']).unwrap();
    assert_eq!((f.msg_id, f.total_fragments, f.fragment_index), (9, 2, 1));
    assert_eq!(f.data, b"abc");
    assert!(LedMatrixProtocol::decode_config_fragment(&[0x14, 9, 2, 1, 5, 0, b'a']).is_none());
}

#[test]
fn fragment_sizes() {
    assert_eq!(LedMatrixProtocol::max_pixels_per_fragment(1400).unwrap(), 278);
    assert_eq!(LedMatrixProtocol::max_pixels_per_fragment(6).unwrap_err(), "Max UDP payload is too small for fragment header");
    assert_eq!(LedMatrixProtocol::calc_total_fragments(557, 278).unwrap(), 3);
    assert_eq!(LedMatrixProtocol::calc_total_fragments(556, 278).unwrap(), 2);
    assert_eq!(LedMatrixProtocol::calc_total_fragments(1, 0).unwrap_err(), "max_pixels_per_fragment cannot be zero");
    assert_eq!(LedMatrixProtocol::calc_total_fragments(256, 1).unwrap_err(), "Fragment count exceeds protocol limit (<=255)");
}

#[test]
fn fragment_encoding() {
    let mut buf = vec![7, 7];
    LedMatrixProtocol::encode_fragment_into(5, 2, 1, 300, &[Color { r: 1, g: 2, b: 3 }], &mut buf).unwrap();
    assert_eq!(buf, vec![0x12, 5, 2, 1, 1, 0, 0x2c, 0x01, 1, 2, 3]);
    let mut untouched = vec![7];
    LedMatrixProtocol::encode_fragment_into(5, 2, 1, 0, &[], &mut untouched).unwrap();
    assert_eq!(untouched, vec![7]);
    let mut over = Vec::new();
    assert_eq!(
        LedMatrixProtocol::encode_fragment_into(0, 1, 0, 65536, &[Color::default()], &mut over).unwrap_err(),
        "LED index exceeds u16 range for protocol"
    );
}

#[test]
fn frame_is_split_into_fragments() {
    let colors = vec![Color { r: 9, g: 9, b: 9 }; 3];
    let packets = encode_frame(4, &colors, 3, 2).unwrap();
    assert_eq!(packets.len(), 2);
    assert_eq!(&packets[0][..6], &[0x12, 4, 2, 0, 2, 0]);
    assert_eq!(packets[0].len(), 6 + 10);
    assert_eq!(&packets[1][..8], &[0x12, 4, 2, 1, 1, 0, 2, 0]);
    assert_eq!(encode_frame(4, &colors, 4, 2).unwrap_err(), "Color buffer size mismatch: expected 4, got 3");
}

fn linear(id: &str, len: Option<usize>) -> OutputPortConfig {
    OutputPortConfig { id: id.to_string(), name: String::new(), output_type: SegmentType::Linear, length: len, matrix: None }
}

#[test]
fn matrix_map_checks() {
    let ok = MatrixMap { width: 2, height: 2, map: vec![Some(1), None, Some(0), Some(2)] };
    assert_eq!(leds_count_from_matrix_map("m", &ok).unwrap(), 3);
    let gap = MatrixMap { width: 2, height: 1, map: vec![Some(0), Some(2)] };
    assert_eq!(leds_count_from_matrix_map("m", &gap).unwrap_err(), "Output 'm' matrix indices must cover 0..2 without gaps");
    let dup = MatrixMap { width: 2, height: 1, map: vec![Some(0), Some(0)] };
    assert_eq!(leds_count_from_matrix_map("m", &dup).unwrap_err(), "Output 'm' matrix has duplicate index 0");
    let empty = MatrixMap { width: 1, height: 1, map: vec![None] };
    assert_eq!(leds_count_from_matrix_map("m", &empty).unwrap_err(), "Output 'm' matrix has no LEDs");
    let short = MatrixMap { width: 2, height: 2, map: vec![Some(0)] };
    assert_eq!(leds_count_from_matrix_map("m", &short).unwrap_err(), "Output 'm' matrix map length mismatch: expected 4, got 1");
    let zero = MatrixMap { width: 0, height: 2, map: vec![] };
    assert_eq!(leds_count_from_matrix_map("m", &zero).unwrap_err(), "Output 'm' has invalid matrix size 0x2");
}

#[test]
fn output_descriptions() {
    let def = output_def_from_dto(&linear(" strip ", Some(30))).unwrap();
    assert_eq!(def.id, "strip");
    assert_eq!(def.name, "strip");
    assert_eq!(def.leds_count, 30);
    assert!(def.capabilities.editable);
    assert_eq!(output_def_from_dto(&linear("s", None)).unwrap_err(), "Output 's' is Linear but missing length");
    assert_eq!(output_def_from_dto(&linear("s", Some(0))).unwrap_err(), "Output 's' has invalid length=0");
    let single = OutputPortConfig { id: "b".to_string(), name: "Bulb".to_string(), output_type: SegmentType::Single, length: None, matrix: None };
    let d = output_def_from_dto(&single).unwrap();
    assert_eq!((d.leds_count, d.name.as_str()), (1, "Bulb"));
}

#[test]
fn configuration_refusals() {
    assert_eq!(build_outputs_from_config(&vec![linear("  ", Some(1))]).unwrap_err(), "Output id cannot be empty");
    assert_eq!(
        build_outputs_from_config(&vec![linear("a", Some(1)), linear(" a", Some(2))]).unwrap_err(),
        "Duplicate output id: a"
    );
    let defs = build_outputs_from_config(&vec![linear("a", Some(1)), linear("b", Some(2))]).unwrap();
    assert_eq!(defs.len(), 2);
    assert_eq!(defs[1].leds_count, 2);
}

#[test]
fn query_answer_decodes_its_fields() {
    let mut data = vec![0x10u8, 4, 0x20, 0x01, 16, 0, 3, 0];
    data.push(4);
    data.extend_from_slice("Mätr".as_bytes()[..4].as_ref());
    data.push(1);
    data.extend_from_slice(b"d");
    data.push(2);
    data.extend_from_slice(b"s1");
    data.push(0xAA);
    let q = LedMatrixProtocol::decode_query_response(&data).unwrap();
    assert_eq!((q.version, q.width, q.height, q.pixel_size), (4, 288, 16, 3));
    assert_eq!(q.description, "d");
    assert_eq!(q.serial, "s1");
    assert_eq!(q.name.chars().count(), 3);
    let mut short = data.clone();
    short.truncate(data.len() - 2);
    assert!(LedMatrixProtocol::decode_query_response(&short).is_none());
}
