use mx5_telemetry::ublox::{
    encode_frame, fletcher8, ReadProgress, set_bool_cfg, set_u16_cfg, set_u8_cfg, UbxEvent, UbxFrame, Ublox,
};

fn frame_event(class: u8, id: u8, payload: &[u8]) -> UbxEvent {
    UbxEvent::Frame(UbxFrame { class, id, payload: payload.to_vec() })
}

#[test]
fn fletcher8_values() {
    assert_eq!(fletcher8(&[]), 0);
    assert_eq!(fletcher8(&[0x06, 0x8a]), 0x9096);
    assert_eq!(fletcher8(b"hello"), 0x1427);
}

#[test]
fn encode_frame_bytes() {
    assert_eq!(
        encode_frame(0x01, 0x02, &[1, 2, 3]),
        vec![0xb5, 0x62, 0x01, 0x02, 0x03, 0x00, 0x01, 0x02, 0x03, 0x0c, 0x2c]
    );
}

#[test]
fn cfg_pairs_are_little_endian() {
    let mut cmd = Vec::new();
    set_bool_cfg(&mut cmd, 0x10780001, true);
    assert_eq!(cmd, vec![0x01, 0x00, 0x78, 0x10, 0x01]);
    set_u8_cfg(&mut cmd, 0x20110021, 4);
    assert_eq!(&cmd[5..], &[0x21, 0x00, 0x11, 0x20, 0x04]);
    set_u16_cfg(&mut cmd, 0x30210001, 0x0119);
    assert_eq!(&cmd[10..], &[0x01, 0x00, 0x21, 0x30, 0x19, 0x01]);
    set_bool_cfg(&mut cmd, 0x10780002, false);
    assert_eq!(&cmd[16..], &[0x02, 0x00, 0x78, 0x10, 0x00]);
}

#[test]
fn configure_frame_bytes() {
    let ublox = Ublox::new();
    let expected: Vec<u8> = vec![
        0xb5, 0x62, 0x06, 0x8a, 0x29, 0x00, 0x00, 0x01, 0x00, 0x00, 0x01, 0x00, 0x78, 0x10,
        0x01, 0x02, 0x00, 0x78, 0x10, 0x00, 0x11, 0x00, 0x11, 0x20, 0x01, 0x21, 0x00, 0x11,
        0x20, 0x04, 0x2c, 0x00, 0x91, 0x20, 0x01, 0x01, 0x00, 0x21, 0x30, 0x19, 0x00, 0x02,
        0x00, 0x21, 0x30, 0x01, 0x00, 0x04, 0x44,
    ];
    assert_eq!(ublox.configure(), expected);
}

#[test]
fn encoded_frame_parses_back() {
    let payload: Vec<u8> = (0..40u8).collect();
    let frame = encode_frame(0x01, 0x02, &payload);
    let mut ublox = Ublox::new();
    assert_eq!(ublox.handle_incoming_ublox_msg(&frame), vec![frame_event(0x01, 0x02, &payload)]);
    assert_eq!(ublox.buf_read_pos, 0);
}

#[test]
fn leading_garbage_is_discarded() {
    let frame = encode_frame(0x01, 0x02, &[0xb5, 0x62, 7]);
    let mut stream = vec![0x00, 0x62, 0xb5, 0x00, 0x13, 0xb5];
    stream.extend_from_slice(&frame);
    let mut ublox = Ublox::new();
    assert_eq!(
        ublox.handle_incoming_ublox_msg(&stream),
        vec![frame_event(0x01, 0x02, &[0xb5, 0x62, 7])]
    );
}

#[test]
fn reads_of_wanted_size_assemble_a_frame() {
    let payload = [9u8, 8, 7, 6, 5];
    let frame = encode_frame(0x05, 0x01, &payload);
    let mut ublox = Ublox::new();
    assert_eq!(ublox.bytes_wanted(), 8);
    let mut at = 0;
    let mut events = Vec::new();
    while at < frame.len() {
        let n = ublox.bytes_wanted().min(frame.len() - at).min(3);
        events.extend(ublox.handle_incoming_ublox_msg(&frame[at..at + n]));
        at += n;
        if at == 6 {
            assert_eq!(ublox.bytes_wanted(), 7);
        }
    }
    assert_eq!(events, vec![frame_event(0x05, 0x01, &payload)]);
    assert_eq!(ublox.bytes_wanted(), 8);
}

#[test]
fn corrupted_payload_fails_checksum_and_next_frame_survives() {
    let good = encode_frame(0x01, 0x02, &[1, 2, 3, 4]);
    let mut bad = good.clone();
    bad[7] ^= 0x40;
    let next = encode_frame(0x01, 0x07, &[5, 6]);
    let mut stream = bad.clone();
    stream.extend_from_slice(&next);
    let mut ublox = Ublox::new();
    let events = ublox.handle_incoming_ublox_msg(&stream);
    assert_eq!(events.len(), 2);
    match &events[0] {
        UbxEvent::ChecksumMismatch { class, id, expected, actual } => {
            assert_eq!((*class, *id), (0x01, 0x02));
            assert_eq!(*expected, fletcher8(&good[2..good.len() - 2]));
            assert_eq!(*actual, fletcher8(&bad[2..bad.len() - 2]));
            assert_ne!(expected, actual);
        }
        other => panic!("unexpected event {:?}", other),
    }
    assert_eq!(events[1], frame_event(0x01, 0x07, &[5, 6]));
}

#[test]
fn oversized_frame_is_rejected() {
    let mut ublox = Ublox::new();
    let events = ublox.handle_incoming_ublox_msg(&[0xb5, 0x62, 0x01, 0x02, 0xff, 0x00]);
    assert_eq!(events, vec![UbxEvent::Oversized { class: 0x01, id: 0x02, len: 255 }]);
    assert_eq!(ublox.buf_read_pos, 0);
    let frame = encode_frame(0x0a, 0x0b, &[]);
    assert_eq!(ublox.handle_incoming_ublox_msg(&frame), vec![frame_event(0x0a, 0x0b, &[])]);
}

#[test]
fn largest_accepted_frame() {
    let payload = vec![0x55u8; 248];
    let frame = encode_frame(0x01, 0x02, &payload);
    assert_eq!(frame.len(), 256);
    let mut ublox = Ublox::new();
    assert_eq!(ublox.handle_incoming_ublox_msg(&frame), vec![frame_event(0x01, 0x02, &payload)]);
}

#[test]
fn read_progress_follows_the_frame() {
    let frame = encode_frame(0x01, 0x02, &[1, 2]);
    let mut ublox = Ublox::new();
    assert_eq!(ublox.read_progress(), ReadProgress::SearchForSync);
    ublox.handle_incoming_ublox_msg(&frame[..1]);
    assert_eq!(ublox.read_progress(), ReadProgress::SearchForSync);
    ublox.handle_incoming_ublox_msg(&frame[1..4]);
    assert_eq!(ublox.read_progress(), ReadProgress::HandleHeaderPayload);
    ublox.handle_incoming_ublox_msg(&frame[4..7]);
    assert_eq!(ublox.read_progress(), ReadProgress::VerifyCk);
    assert_eq!(ublox.bytes_wanted(), 3);
    let events = ublox.handle_incoming_ublox_msg(&frame[7..]);
    assert_eq!(events.len(), 1);
    assert_eq!(ublox.read_progress(), ReadProgress::SearchForSync);
}

#[test]
fn false_sync_character_is_skipped() {
    let frame = encode_frame(0x01, 0x02, &[3]);
    let mut stream = vec![0xb5, 0x00, 0xb5, 0xb5];
    stream.extend_from_slice(&frame);
    let mut ublox = Ublox::new();
    assert_eq!(ublox.handle_incoming_ublox_msg(&stream), vec![frame_event(0x01, 0x02, &[3])]);
}
