use light::layout::{Color, Controller, DeviceType, OutputPortDefinition, SegmentType};
use light::led_matrix::capabilities_for_output;

struct Recorder {
    leds: Vec<usize>,
    frames: Vec<Vec<Color>>,
}

impl Controller for Recorder {
    fn port_name(&self) -> String {
        "mock".to_string()
    }

    fn model(&self) -> String {
        "Mock".to_string()
    }

    fn description(&self) -> String {
        String::new()
    }

    fn serial_id(&self) -> String {
        String::new()
    }

    fn outputs(&self) -> Vec<OutputPortDefinition> {
        self.leds
            .iter()
            .enumerate()
            .map(|(i, n)| OutputPortDefinition {
                id: format!("out{}", i),
                name: format!("Out {}", i),
                output_type: SegmentType::Linear,
                leds_count: *n,
                matrix: None,
                capabilities: capabilities_for_output(SegmentType::Linear, *n),
            })
            .collect()
    }

    fn update(&mut self, colors: &[Color]) -> Result<(), String> {
        self.frames.push(colors.to_vec());
        Ok(())
    }
}

#[test]
fn clear_sends_one_black_frame_for_all_outputs() {
    let mut c = Recorder { leds: vec![3, 4], frames: Vec::new() };
    assert_eq!(c.clear(), Ok(()));
    assert_eq!(c.frames.len(), 1);
    assert_eq!(c.frames[0].len(), 7);
    assert!(c.frames[0].iter().all(|k| *k == Color { r: 0, g: 0, b: 0 }));
}

#[test]
fn clear_without_leds_sends_one_black_led() {
    let mut c = Recorder { leds: vec![], frames: Vec::new() };
    assert_eq!(c.clear(), Ok(()));
    assert_eq!(c.frames, vec![vec![Color { r: 0, g: 0, b: 0 }]]);
}

#[test]
fn default_device_type_and_disconnect() {
    let mut c = Recorder { leds: vec![1], frames: Vec::new() };
    assert_eq!(c.device_type(), DeviceType::Light);
    assert_eq!(c.disconnect(), Ok(()));
}
