use monitor::communication::tcp::{
    encode_telemetry, fetch_message, process_input, read_i32, read_u32, status_frame, Telemetry,
    END_OF_STREAM, FRAME_LEN, MESSAGE_LEN,
};

fn sample_bytes() -> [u8; 24] {
    [42, 0, 0, 0, 0, 0, 200, 66, 0, 0, 0, 0, 0, 0, 0, 0, 0, 0, 0, 0, 0, 0, 0, 0]
}

#[test]
fn decodes_the_sample_message() {
    let msg = process_input(&sample_bytes());
    assert_eq!(msg.pid, 42);
    assert_eq!(f32::from_bits(msg.progress), 100.0);
    assert_eq!(f32::from_bits(msg.send_t), 0.0);
    assert_eq!(f32::from_bits(msg.recv_t), 0.0);
    assert_eq!(f32::from_bits(msg.delay_t), 0.0);
    assert_eq!(f32::from_bits(msg.scatter_t), 0.0);
    assert_eq!(msg.progress, 0x42C8_0000);
}

#[test]
fn decodes_each_field_from_its_own_word() {
    let mut bytes = Vec::new();
    bytes.extend_from_slice(&(-7i32).to_le_bytes());
    bytes.extend_from_slice(&12.5f32.to_le_bytes());
    bytes.extend_from_slice(&1.25f32.to_le_bytes());
    bytes.extend_from_slice(&(-3.5f32).to_le_bytes());
    bytes.extend_from_slice(&0.001f32.to_le_bytes());
    bytes.extend_from_slice(&7.0e9f32.to_le_bytes());
    assert_eq!(bytes.len(), MESSAGE_LEN);
    let msg = process_input(&bytes);
    assert_eq!(msg.pid, -7);
    assert_eq!(f32::from_bits(msg.progress), 12.5);
    assert_eq!(f32::from_bits(msg.send_t), 1.25);
    assert_eq!(f32::from_bits(msg.recv_t), -3.5);
    assert_eq!(f32::from_bits(msg.delay_t), 0.001);
    assert_eq!(f32::from_bits(msg.scatter_t), 7.0e9);
}

#[test]
fn encode_then_decode_gives_the_message_back() {
    let pids = [0, 1, -1, 42, 65_536, i32::MAX, i32::MIN, -123_456];
    let floats = [0.0f32, -0.0, 1.0, -1.0, 100.0, 33.333, f32::MAX, f32::MIN_POSITIVE, f32::INFINITY];
    for (k, pid) in pids.iter().enumerate() {
        let f = |j: usize| floats[(k + j) % floats.len()].to_bits();
        let msg = Telemetry {
            pid: *pid,
            progress: f(0),
            send_t: f(1),
            recv_t: f(2),
            delay_t: f(3),
            scatter_t: f(4),
        };
        let bytes = encode_telemetry(&msg);
        assert_eq!(bytes.len(), 24);
        assert_eq!(&bytes[0..4], &pid.to_le_bytes());
        assert_eq!(&bytes[4..8], &f32::from_bits(msg.progress).to_le_bytes());
        assert_eq!(process_input(&bytes), msg);
    }
}

#[test]
fn decode_then_encode_gives_the_bytes_back() {
    let mut bytes = [0u8; 24];
    for round in 0..50u32 {
        for (i, b) in bytes.iter_mut().enumerate() {
            *b = (round.wrapping_mul(2_654_435_761).wrapping_add(i as u32 * 40_503) >> 7) as u8;
        }
        let msg = process_input(&bytes);
        assert_eq!(encode_telemetry(&msg), bytes.to_vec());
    }
    let nan = [1, 0, 0, 0, 1, 0, 192, 127, 0, 0, 0, 0, 0, 0, 0, 0, 0, 0, 0, 0, 0, 0, 0, 0];
    let msg = process_input(&nan);
    assert!(f32::from_bits(msg.progress).is_nan());
    assert_eq!(encode_telemetry(&msg), nan.to_vec());
}

#[test]
fn reads_words_least_significant_byte_first() {
    assert_eq!(read_u32(&[0x78, 0x56, 0x34, 0x12]), 0x1234_5678);
    assert_eq!(read_u32(&[0xFF, 0xFF, 0xFF, 0xFF]), u32::MAX);
    assert_eq!(read_u32(&[1, 0, 0, 0, 9, 9]), 1);
    assert_eq!(read_i32(&[0x78, 0x56, 0x34, 0x12]), 0x1234_5678);
    assert_eq!(read_i32(&[0xFF, 0xFF, 0xFF, 0xFF]), -1);
    assert_eq!(read_i32(&[0, 0, 0, 0x80]), i32::MIN);
    assert_eq!(read_i32(&[0xFF, 0xFF, 0xFF, 0x7F]), i32::MAX);
    assert_eq!(read_i32(&[0xFE, 0xFF, 0xFF, 0xFF, 1]), -2);
}

#[test]
fn end_of_stream_is_minus_one() {
    assert_eq!(END_OF_STREAM, (-1.0f32).to_bits());
    assert_eq!(f32::from_bits(END_OF_STREAM), -1.0);
    let mut bytes = sample_bytes();
    bytes[4..8].copy_from_slice(&(-1.0f32).to_le_bytes());
    assert_eq!(process_input(&bytes).progress, END_OF_STREAM);
}

#[test]
fn frame_holds_the_text_then_zeros() {
    let frame = status_frame("{\"pid\":42}");
    assert_eq!(frame.len(), FRAME_LEN);
    assert_eq!(&frame[..10], "{\"pid\":42}".as_bytes());
    assert!(frame[10..].iter().all(|b| *b == 0));
}

#[test]
fn frame_of_the_empty_text_is_all_zeros() {
    assert_eq!(status_frame(""), [0u8; 256]);
}

#[test]
fn frame_cuts_a_long_text_at_256_bytes() {
    let long: String = (0..300).map(|i| char::from(b'a' + (i % 26) as u8)).collect();
    let frame = status_frame(&long);
    assert_eq!(&frame[..], &long.as_bytes()[..256]);
    let exact: String = (0..256).map(|_| 'x').collect();
    assert_eq!(&status_frame(&exact)[..], exact.as_bytes());
}

#[test]
fn frame_takes_the_bytes_of_a_text_that_is_not_ascii() {
    let frame = status_frame("é°");
    assert_eq!(&frame[..4], "é°".as_bytes());
    assert_eq!(frame[4], 0);
}

#[test]
fn fetch_message_leaves_the_rest_of_the_buffer() {
    let mut a = [7u8; 8];
    fetch_message(&mut a, "abc");
    assert_eq!(a, [b'a', b'b', b'c', 7, 7, 7, 7, 7]);
    fetch_message(&mut a, "0123456789");
    assert_eq!(&a, b"01234567");
    let mut empty: [u8; 0] = [];
    fetch_message(&mut empty, "abc");
    fetch_message(&mut a, "");
    assert_eq!(&a, b"01234567");
}
