use light::audio::{capture_buffer_size, capture_device, device_by_index, list_audio_devices, AudioDeviceKind, AudioRingBuffer};

#[test]
fn devices_are_numbered_inputs_first() {
    let inputs = vec![Some("Mic".to_string()), None];
    let outputs = vec![None, Some("Speakers".to_string())];
    let d = list_audio_devices(&inputs, &outputs);
    assert_eq!(d.len(), 4);
    assert_eq!((d[0].index, d[0].name.as_str()), (0, "Mic"));
    assert_eq!(d[1].name, "Input Device 1");
    assert!(matches!(d[1].kind, AudioDeviceKind::Input));
    assert_eq!((d[2].index, d[2].name.as_str()), (2, "Output Device 0"));
    assert!(matches!(d[3].kind, AudioDeviceKind::Output));
    assert_eq!(d[3].name, "Speakers");
}

#[test]
fn combined_index_lookup() {
    assert!(matches!(device_by_index(2, 3, 1), Some((1, AudioDeviceKind::Input))));
    assert!(matches!(device_by_index(2, 3, 4), Some((2, AudioDeviceKind::Output))));
    assert!(device_by_index(2, 3, 5).is_none());
}

#[test]
fn ring_returns_latest_samples_oldest_first() {
    let mut ring = AudioRingBuffer::new(4, 0i32);
    ring.write(&[1, 2, 3]);
    let mut dest = vec![9; 2];
    ring.read_recent(&mut dest);
    assert_eq!(dest, vec![2, 3]);
    ring.write(&[4, 5, 6]);
    let mut all = vec![0; 6];
    ring.read_recent(&mut all);
    // Only the ring's four samples are read; the rest of the destination stays.
    assert_eq!(all, vec![3, 4, 5, 6, 0, 0]);
}

#[test]
fn capture_buffer_and_device_choice() {
    assert_eq!(capture_buffer_size(48_000), 4800);
    assert_eq!(capture_buffer_size(8_000), 4096);
    assert_eq!(capture_device(2, 1, 2), Ok((0, AudioDeviceKind::Output)));
    assert_eq!(capture_device(2, 1, 3).unwrap_err(), "Invalid audio device index: 3");
}
