use hi_voicer::websocket::{
    decode_websocket_frame, websocket_accept_frame, websocket_frame, websocket_header_len,
    websocket_payload_len, WebSocketRead,
};
use hi_voicer::websocket::{
    http_header_complete, sherpa_websocket_handshake, sherpa_websocket_key,
    websocket_binary_frames, websocket_upgrade_accepted, SHERPA_DAEMON_PORT,
};
use hi_voicer::websocket::{sample_f32_bits_exec, sherpa_websocket_payload};

#[test]
fn builds_masked_websocket_binary_frame() {
    let frame = websocket_frame(0x2, b"abc");

    assert_eq!(frame[0], 0x82);
    assert_eq!(frame[1], 0x83);
    assert_eq!(&frame[2..6], &[0x12, 0x34, 0x56, 0x78]);
    assert_eq!(frame[6], b'a' ^ 0x12);
    assert_eq!(frame[7], b'b' ^ 0x34);
    assert_eq!(frame[8], b'c' ^ 0x56);
}

#[test]
fn frames_use_extended_lengths() {
    let medium = vec![7u8; 300];
    let frame = websocket_frame(0x1, &medium);
    assert_eq!(frame[1], 0x80 | 126);
    assert_eq!(&frame[2..4], &[0x01, 0x2c]);
    assert_eq!(frame.len(), 2 + 2 + 4 + 300);

    let large = vec![1u8; 70_000];
    let frame = websocket_frame(0x2, &large);
    assert_eq!(frame[1], 0x80 | 127);
    assert_eq!(&frame[2..10], &70_000u64.to_be_bytes());
    assert_eq!(frame.len(), 2 + 8 + 4 + 70_000);
}

#[test]
fn built_frames_decode_back_to_their_payload() {
    for payload in [Vec::new(), b"Done".to_vec(), vec![9u8; 200], vec![3u8; 66_000]] {
        let frame = websocket_frame(0x12, &payload);
        let header_len = websocket_header_len(frame[1]);
        assert_eq!(websocket_payload_len(&frame[..header_len]), payload.len() as u64);
        let decoded = decode_websocket_frame(&frame).expect("one frame");
        assert!(decoded.fin);
        assert_eq!(decoded.opcode, 0x2);
        assert_eq!(decoded.payload, payload);
    }
}

#[test]
fn unmasked_server_frames_are_read() {
    let frame = [0x81, 0x02, b'o', b'k'];
    let decoded = decode_websocket_frame(&frame).expect("frame");
    assert!(decoded.fin);
    assert_eq!(decoded.opcode, 1);
    assert_eq!(decoded.payload, b"ok".to_vec());
    assert!(decode_websocket_frame(&frame[..3]).is_none());
}

#[test]
fn message_assembly_follows_opcodes() {
    let mut message = Vec::new();
    assert_eq!(websocket_accept_frame(&mut message, false, 0x1, b"ab"), WebSocketRead::Incomplete);
    assert_eq!(websocket_accept_frame(&mut message, false, 0x9, b"ping"), WebSocketRead::Incomplete);
    assert_eq!(message, b"ab".to_vec());
    assert_eq!(websocket_accept_frame(&mut message, true, 0x0, b"c"), WebSocketRead::Complete);
    assert_eq!(message, b"abc".to_vec());

    let mut empty = Vec::new();
    assert_eq!(websocket_accept_frame(&mut empty, true, 0xa, b""), WebSocketRead::Incomplete);
    assert_eq!(websocket_accept_frame(&mut empty, true, 0x8, b""), WebSocketRead::Closed);
}

#[test]
fn audio_payload_is_sent_in_binary_frames_of_fixed_size() {
    let payload: Vec<u8> = (0..25_000u32).map(|i| (i % 251) as u8).collect();
    let frames = websocket_binary_frames(&payload);
    assert_eq!(frames.len(), 3);
    let expected: Vec<Vec<u8>> = payload.chunks(10_240).map(|c| websocket_frame(0x2, c)).collect();
    assert_eq!(frames, expected);
    for frame in &frames {
        assert_eq!(frame[0], 0x82);
    }
    assert!(websocket_binary_frames(&[]).is_empty());
}

#[test]
fn handshake_request_and_answer() {
    let request = sherpa_websocket_handshake(SHERPA_DAEMON_PORT, sherpa_websocket_key());
    assert_eq!(
        request,
        "GET / HTTP/1.1\r\nHost: 127.0.0.1:6127\r\nUpgrade: websocket\r\nConnection: Upgrade\r\nSec-WebSocket-Key: dGhlIHNhbXBsZSBub25jZQ==\r\nSec-WebSocket-Version: 13\r\n\r\n"
    );
    assert!(!http_header_complete(b"HTTP/1.1 101 Switching"));
    assert!(http_header_complete(b"HTTP/1.1 101 Switching\r\n\r\n"));
    assert!(http_header_complete(b"\r\n\r\n"));
    assert!(websocket_upgrade_accepted(b"HTTP/1.1 101 Switching Protocols\r\n\r\n"));
    assert!(websocket_upgrade_accepted(b"HTTP/1.0 101 ok"));
    assert!(!websocket_upgrade_accepted(b"HTTP/1.1 400 Bad Request\r\n\r\n"));
    assert!(!websocket_upgrade_accepted(b"HTTP/1.1 10"));
}

#[test]
fn builds_sherpa_websocket_payload_from_wav() {
    let payload = sherpa_websocket_payload(16000, &[0i16, 16384i16]).expect("payload");

    assert_eq!(&payload[0..4], &16000i32.to_le_bytes());
    assert_eq!(&payload[4..8], &8i32.to_le_bytes());
    assert_eq!(f32::from_le_bytes(payload[8..12].try_into().unwrap()), 0.0);
    assert_eq!(f32::from_le_bytes(payload[12..16].try_into().unwrap()), 0.5);
}

#[test]
fn every_sample_is_encoded_as_its_f32_value() {
    for sample in i16::MIN..=i16::MAX {
        let expected = (sample as f32) / 32768.0;
        assert_eq!(sample_f32_bits_exec(sample), expected.to_bits(), "sample {sample}");
    }
    let payload = sherpa_websocket_payload(44100, &[-32768, 1, -1, 32767]).expect("payload");
    assert_eq!(payload.len(), 8 + 16);
    let values: Vec<f32> = payload[8..]
        .chunks(4)
        .map(|b| f32::from_le_bytes(b.try_into().unwrap()))
        .collect();
    assert_eq!(values, vec![-1.0, 1.0 / 32768.0, -1.0 / 32768.0, 32767.0 / 32768.0]);
}

#[test]
fn binary_frames_decode_back_to_the_payload() {
    let payload: Vec<u8> = (0..30_000u32).map(|i| (i * 7 % 256) as u8).collect();
    let mut joined = Vec::new();
    for frame in websocket_binary_frames(&payload) {
        let decoded = decode_websocket_frame(&frame).expect("frame");
        assert!(decoded.fin);
        assert_eq!(decoded.opcode, 2);
        assert!(!decoded.payload.is_empty() && decoded.payload.len() <= 10_240);
        joined.extend(decoded.payload);
    }
    assert_eq!(joined, payload);
}
