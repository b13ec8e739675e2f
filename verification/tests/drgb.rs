use light::drgb::{
    drgb_frame, drgb_output_name, drgb_outputs, get_drgb_config, is_drgb_vendor, keepalive_due, keepalive_report,
    DrgbConfig,
};
use light::layout::{Color, SegmentType};

#[test]
fn model_table() {
    let c = get_drgb_config(0x3608).unwrap();
    assert_eq!((c.name, c.num_channels, c.leds_per_channel, c.version), ("DRGB LED V4", 8, 10, 4));
    let e = get_drgb_config(0x1408).unwrap();
    assert_eq!((e.name, e.version), ("DRGB ELITE", 1));
    assert!(get_drgb_config(0x0001).is_none());
    assert!(is_drgb_vendor(0x2486));
    assert!(!is_drgb_vendor(0x1234));
}

#[test]
fn channel_names() {
    assert_eq!(drgb_output_name(6, 0), "Strimer ATX1");
    assert_eq!(drgb_output_name(6, 1), "Channel C1");
    assert_eq!(drgb_output_name(6, 3), "Strimer GPU1");
    assert_eq!(drgb_output_name(6, 4), "Channel D1");
    assert_eq!(drgb_output_name(10, 0), "Channel 1");
    assert_eq!(drgb_output_name(16, 9), "Channel B2");
    assert_eq!(drgb_output_name(8, 0), "Channel A1");
}

#[test]
fn outputs_are_linear_channels() {
    let c = get_drgb_config(0x1211).unwrap();
    let outs = drgb_outputs(&c);
    assert_eq!(outs.len(), 6);
    assert_eq!(outs[0].name, "Strimer ATX1");
    assert_eq!(outs[0].leds_count, 10);
    assert_eq!(outs[0].output_type, SegmentType::Linear);
}

#[test]
fn v3_frame_reports() {
    let c = DrgbConfig { name: "t", num_channels: 8, leds_per_channel: 10, version: 3 };
    let colors = [Color { r: 1, g: 2, b: 3 }, Color { r: 4, g: 5, b: 6 }];
    let reports = drgb_frame(&c, &colors).unwrap();
    assert_eq!(reports.len(), 2);
    let header = &reports[0];
    assert_eq!(header.len(), 65);
    assert_eq!(&header[..4], &[0, 0x60, 0xBB, 0]);
    assert_eq!(header[4], 10);
    let data = &reports[1];
    assert_eq!(data.len(), 65);
    // One packet, the last: 0x64 + 100.
    assert_eq!(&data[..8], &[0, 200, 1, 2, 3, 4, 5, 6]);
    assert!(data[8..].iter().all(|b| *b == 0));
}

#[test]
fn extra_colors_are_dropped() {
    let c = DrgbConfig { name: "t", num_channels: 1, leds_per_channel: 2, version: 1 };
    let colors = [Color { r: 1, g: 1, b: 1 }, Color { r: 2, g: 2, b: 2 }, Color { r: 9, g: 9, b: 9 }];
    let reports = drgb_frame(&c, &colors).unwrap();
    assert_eq!(reports.len(), 2);
    // 0x47 + 92 for the last (only) packet.
    assert_eq!(&reports[1][..9], &[0, 0x47 + 92, 1, 1, 1, 2, 2, 2, 0]);
}

#[test]
fn unknown_version_is_refused() {
    let c = DrgbConfig { name: "t", num_channels: 1, leds_per_channel: 1, version: 9 };
    assert_eq!(drgb_frame(&c, &[]).unwrap_err(), "Unsupported DRGB protocol version: 9");
}

#[test]
fn keepalive() {
    let r = keepalive_report();
    assert_eq!(r.len(), 65);
    assert_eq!(&r[..2], &[0, 0x65]);
    assert!(r[2..].iter().all(|b| *b == 0));
    assert!(keepalive_due(None));
    assert!(!keepalive_due(Some(1_000_000_000)));
    assert!(keepalive_due(Some(1_000_000_001)));
}
