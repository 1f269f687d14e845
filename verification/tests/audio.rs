use typeless::audio::{
    choose_input_device, find_device, is_preferred_input, preroll_capacity, recording_capacity,
    CaptureBuffer, TARGET_SAMPLE_RATE,
};

#[test]
fn capacities() {
    assert_eq!(preroll_capacity(48000), 8000);
    assert_eq!(preroll_capacity(TARGET_SAMPLE_RATE), 2666);
    assert_eq!(recording_capacity(16000), 960000);
}

#[test]
fn preroll_keeps_latest_samples() {
    let mut b: CaptureBuffer<i32> = CaptureBuffer::new(3, 100);
    b.push_block(&[1, 2]);
    b.push_block(&[3, 4, 5]);
    b.start();
    assert!(b.recording());
    b.push_block(&[6]);
    assert_eq!(b.stop(), vec![3, 4, 5, 6]);
    assert!(!b.recording());
    b.start();
    assert_eq!(b.stop(), vec![3, 4, 5]);
}

#[test]
fn preroll_of_capacity_zero_keeps_one_sample() {
    let mut b: CaptureBuffer<u8> = CaptureBuffer::new(0, 10);
    b.push_block(&[7, 8, 9]);
    b.start();
    assert_eq!(b.stop(), vec![9]);
}

#[test]
fn recording_stops_growing_at_capacity() {
    let mut b: CaptureBuffer<u8> = CaptureBuffer::new(0, 4);
    b.start();
    b.push_block(&[0; 3]);
    b.push_block(&[1; 3]);
    b.push_block(&[2; 3]);
    let got = b.stop();
    assert_eq!(got.len(), 6);
    assert_eq!(got[5], 1);
}

#[test]
fn shrinking_preroll_keeps_its_length() {
    let mut b: CaptureBuffer<u8> = CaptureBuffer::new(4, 10);
    b.push_block(&[1, 2, 3, 4]);
    b.set_capacities(2, 10);
    b.push_block(&[5]);
    b.start();
    assert_eq!(b.stop(), vec![2, 3, 4, 5]);
}

#[test]
fn preferred_microphones() {
    assert!(is_preferred_input("Microphone Array (Realtek(R) Audio)"));
    assert!(is_preferred_input("Headset Microphone (USB)"));
    assert!(!is_preferred_input("Steam Streaming Microphone"));
    assert!(!is_preferred_input("Virtual Audio Cable"));
    assert!(!is_preferred_input("Line In"));
}

#[test]
fn device_choice() {
    let names = vec![
        Some("Steam Streaming Microphone".to_string()),
        None,
        Some("Line In".to_string()),
        Some("Microphone (Realtek Audio)".to_string()),
        Some("Headset".to_string()),
    ];
    assert_eq!(choose_input_device(&names), Some(3));
    assert_eq!(choose_input_device(&vec![Some("Line In".to_string()), None]), None);
    assert_eq!(find_device(&names, "Line In"), Some(2));
    assert_eq!(find_device(&names, "line in"), None);
}
