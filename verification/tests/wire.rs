use anytalk_daemon::wire::{
    build_audio_only_request, build_full_client_request, build_header, parse_server_message, u32be,
};

fn server_bytes(first: u8, type_and_flags: u8, field: [u8; 4], length: u32, body: &[u8]) -> Vec<u8> {
    let mut data = vec![first, type_and_flags, 0x10, 0x00];
    data.extend_from_slice(&field);
    data.extend_from_slice(&length.to_be_bytes());
    data.extend_from_slice(body);
    data
}

#[test]
fn header_packs_nibbles() {
    assert_eq!(build_header(0b0001, 0b0000, 0b0001, 0b0000), [0x11, 0x10, 0x10, 0x00]);
    assert_eq!(build_header(0b0010, 0b0010, 0b0000, 0b0000), [0x11, 0x22, 0x00, 0x00]);
    assert_eq!(build_header(0xFF, 0xA3, 0x71, 0xF0), [0x11, 0xF3, 0x10, 0x00]);
}

#[test]
fn length_field_is_big_endian() {
    assert_eq!(u32be(0), [0, 0, 0, 0]);
    assert_eq!(u32be(0x0102_0304), [1, 2, 3, 4]);
    assert_eq!(u32be(0xFFFF_FFFF), [255, 255, 255, 255]);
    assert_eq!(u32be(6400), 6400u32.to_be_bytes());
}

#[test]
fn length_field_loses_the_upper_bits() {
    assert_eq!(u32be(usize::MAX), [255, 255, 255, 255]);
    assert_eq!(u32be((u32::MAX as usize).wrapping_add(6)), [0, 0, 0, 5]);
}

#[test]
fn full_client_request_layout() {
    assert_eq!(
        build_full_client_request("{}"),
        vec![0x11, 0x10, 0x10, 0x00, 0, 0, 0, 2, b'{', b'}']
    );
    let frame = build_full_client_request("你");
    assert_eq!(&frame[4..], &[0, 0, 0, 3, 0xE4, 0xBD, 0xA0]);
}

#[test]
fn audio_request_layout() {
    assert_eq!(
        build_audio_only_request(&[7, 8, 9], false),
        vec![0x11, 0x20, 0x00, 0x00, 0, 0, 0, 3, 7, 8, 9]
    );
    assert_eq!(
        build_audio_only_request(&[], true),
        vec![0x11, 0x22, 0x00, 0x00, 0, 0, 0, 0]
    );
    assert_ne!(build_audio_only_request(&[7], true), build_audio_only_request(&[7], false));
}

#[test]
fn response_is_parsed() {
    let data = server_bytes(0x11, 0x93, [0, 0, 0, 1], 2, b"{}tail");
    let parsed = parse_server_message(&data);
    assert_eq!(parsed.kind, "response");
    assert_eq!(parsed.flags, 3);
    assert_eq!(parsed.json_text.as_deref(), Some("{}"));
    assert_eq!(parsed.error_code, None);
    assert_eq!(parsed.error_msg, None);
}

#[test]
fn empty_response_is_parsed() {
    let parsed = parse_server_message(&server_bytes(0x11, 0x90, [9, 9, 9, 9], 0, b""));
    assert_eq!(parsed.kind, "response");
    assert_eq!(parsed.flags, 0);
    assert_eq!(parsed.json_text.as_deref(), Some(""));
}

#[test]
fn error_is_parsed() {
    let data = server_bytes(0x11, 0xF0, [0x02, 0xAE, 0xA5, 0x41], 3, "坏".as_bytes());
    let parsed = parse_server_message(&data);
    assert_eq!(parsed.kind, "error");
    assert_eq!(parsed.flags, 0);
    assert_eq!(parsed.json_text, None);
    assert_eq!(parsed.error_code, Some(0x02AE_A541));
    assert_eq!(parsed.error_msg.as_deref(), Some("坏"));
}

#[test]
fn invalid_utf8_is_replaced() {
    let parsed = parse_server_message(&server_bytes(0x11, 0x90, [0; 4], 3, &[b'a', 0xFF, b'b']));
    assert_eq!(parsed.json_text.as_deref(), Some("a\u{FFFD}b"));
}

#[test]
fn short_or_foreign_frames_are_unknown() {
    let cases: Vec<(Vec<u8>, u8)> = vec![
        (vec![], 0),
        (vec![0x11, 0x93, 0x10], 0),
        (server_bytes(0x21, 0x93, [0; 4], 0, b""), 0),
        (server_bytes(0x12, 0x93, [0; 4], 0, b""), 0),
        (vec![0x11, 0x93, 0x10, 0x00], 3),
        (vec![0x11, 0xF2, 0x10, 0x00, 0, 0, 0, 1, 0, 0, 0], 2),
        (server_bytes(0x11, 0x91, [0; 4], 3, b"{}"), 1),
        (server_bytes(0x11, 0xF1, [0; 4], 0xFFFF_FFFF, b"x"), 1),
        (server_bytes(0x11, 0xB5, [0; 4], 0, b""), 5),
    ];
    for (data, flags) in cases {
        let parsed = parse_server_message(&data);
        assert_eq!(parsed.kind, "unknown");
        assert_eq!(parsed.flags, flags);
        assert_eq!(parsed.json_text, None);
        assert_eq!(parsed.error_code, None);
        assert_eq!(parsed.error_msg, None);
    }
}
