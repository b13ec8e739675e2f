use light::layout::{OutputPortDefinition, SegmentType};
use light::led_matrix::{
    capabilities_for_output, check_device_outputs, check_protocol_version, AssemblyStep, ConfigAssembler,
    LedMatrixProtocol,
};

fn output(id: &str, leds: usize) -> OutputPortDefinition {
    OutputPortDefinition {
        id: id.to_string(),
        name: id.to_string(),
        output_type: SegmentType::Linear,
        leds_count: leds,
        matrix: None,
        capabilities: capabilities_for_output(SegmentType::Linear, leds),
    }
}

#[test]
fn protocol_version_must_match() {
    assert!(check_protocol_version(4).is_ok());
    assert_eq!(check_protocol_version(3).unwrap_err(), "Unsupported protocol version: device=3, supported=4");
}

#[test]
fn device_outputs_are_checked() {
    assert_eq!(check_device_outputs(&vec![]).unwrap_err(), "Device config is empty");
    assert_eq!(check_device_outputs(&vec![output("a", 0)]).unwrap_err(), "Device reports zero LEDs");
    assert_eq!(
        check_device_outputs(&vec![output("a", 60000), output("b", 6000)]).unwrap_err(),
        "LED count 66000 exceeds protocol index limit 65535"
    );
    let setup = check_device_outputs(&vec![output("a", 100), output("b", 28)]).unwrap();
    assert_eq!(setup.led_count, 128);
    assert_eq!(setup.max_pixels_per_fragment, 278);
}

fn fragment(msg: u8, total: u8, index: u8, data: &[u8]) -> Vec<u8> {
    let mut v = vec![0x14, msg, total, index, data.len() as u8, 0];
    v.extend_from_slice(data);
    v
}

#[test]
fn assembler_joins_fragments_in_index_order() {
    let mut a = ConfigAssembler::new();
    let f1 = fragment(7, 3, 1, b"b\":");
    let f0 = fragment(7, 3, 0, b"{\"");
    let f2 = fragment(7, 3, 2, b"1}");
    let other = fragment(8, 3, 0, b"xx");
    let d1 = LedMatrixProtocol::decode_config_fragment(&f1).unwrap();
    assert!(matches!(a.on_fragment(&d1), AssemblyStep::Pending));
    let dother = LedMatrixProtocol::decode_config_fragment(&other).unwrap();
    assert!(matches!(a.on_fragment(&dother), AssemblyStep::Ignored));
    let d2 = LedMatrixProtocol::decode_config_fragment(&f2).unwrap();
    assert!(matches!(a.on_fragment(&d2), AssemblyStep::Pending));
    let d0 = LedMatrixProtocol::decode_config_fragment(&f0).unwrap();
    match a.on_fragment(&d0) {
        AssemblyStep::Complete(bytes) => assert_eq!(bytes, b"{\"b\":1}".to_vec()),
        _ => panic!("expected a complete message"),
    }
}

#[test]
fn assembler_ignores_mismatches_and_stops_on_empty() {
    let mut a = ConfigAssembler::new();
    let f = fragment(1, 2, 0, b"ab");
    let d = LedMatrixProtocol::decode_config_fragment(&f).unwrap();
    assert!(matches!(a.on_fragment(&d), AssemblyStep::Pending));
    // Another fragment count, or an index beyond it, is ignored.
    let g = fragment(1, 3, 1, b"cd");
    assert!(matches!(a.on_fragment(&LedMatrixProtocol::decode_config_fragment(&g).unwrap()), AssemblyStep::Ignored));
    let h = fragment(1, 2, 5, b"cd");
    assert!(matches!(a.on_fragment(&LedMatrixProtocol::decode_config_fragment(&h).unwrap()), AssemblyStep::Ignored));
    // A later fragment for an index replaces the earlier one.
    let again = fragment(1, 2, 0, b"AB");
    assert!(matches!(a.on_fragment(&LedMatrixProtocol::decode_config_fragment(&again).unwrap()), AssemblyStep::Pending));
    let last = fragment(1, 2, 1, b"cd");
    match a.on_fragment(&LedMatrixProtocol::decode_config_fragment(&last).unwrap()) {
        AssemblyStep::Complete(bytes) => assert_eq!(bytes, b"ABcd".to_vec()),
        _ => panic!("expected a complete message"),
    }

    let mut e = ConfigAssembler::new();
    let z = fragment(3, 0, 0, b"");
    assert!(matches!(e.on_fragment(&LedMatrixProtocol::decode_config_fragment(&z).unwrap()), AssemblyStep::Empty));
}

#[test]
fn config_fragment_takes_the_announced_length() {
    let data = [0x14u8, 7, 2, 1, 3, 0, b'a', b'b', b'c', 0xFF];
    let f = LedMatrixProtocol::decode_config_fragment(&data).unwrap();
    assert_eq!((f.msg_id, f.total_fragments, f.fragment_index), (7, 2, 1));
    assert_eq!(f.data, b"abc");
    assert!(LedMatrixProtocol::decode_config_fragment(&[0x14, 7, 2, 1, 4, 0, b'a', b'b', b'c']).is_none());
}
