use ankerstatus::parser::{
    apply_live_power, apply_status, bytes_to_ascii, decode_packet, extract_handshake_info, hex_str,
    parse_session_key_response, strip_flags,
};
use ankerstatus::protocol::{
    build_encrypted_payload, build_payload, build_tlv, frame_packet, tlv_iter, A2_STATIC,
    INITIAL_KEY,
};
use ankerstatus::state::{ConnectionMode, DashboardState};

#[test]
fn short_notifications_are_no_packets() {
    for len in 0..10usize {
        assert!(decode_packet(&vec![0u8; len]).is_none());
    }
    assert!(decode_packet(&[0u8; 10]).is_some());
}

#[test]
fn flags_are_stripped_from_commands() {
    assert_eq!(strip_flags(0x4A, 0x02), 0x0202);
    assert_eq!(strip_flags(0xC8, 0xFF), 0x80FF);
    assert_eq!(strip_flags(0x82, 0x0A), 0x820A);
    let raw = [0xFF, 0x09, 0x0C, 0x00, 0x03, 0x01, 0x0F, 0x48, 0x22, 0xAA, 0xBB, 0x00];
    let pkt = decode_packet(&raw).unwrap();
    assert_eq!(pkt.pattern, [0x03, 0x01, 0x0F]);
    assert_eq!(pkt.cmd, 0x0022);
    assert!(pkt.is_enc);
    assert!(pkt.is_ack);
    assert_eq!(pkt.body, vec![0xAA, 0xBB]);
}

#[test]
fn plain_packet_decodes_to_what_it_was_built_from() {
    let payload = build_payload(0x11, 0x0030, &[(0xA1, &[0x21]), (0xFE, &[1, 2, 3, 4])]);
    let raw = frame_packet(&payload);
    let pkt = decode_packet(&raw).unwrap();
    assert_eq!(pkt.pattern, [0x03, 0x00, 0x11]);
    assert_eq!(pkt.cmd, 0x0030);
    assert!(!pkt.is_enc);
    assert!(!pkt.is_ack);
    let fields = tlv_iter(&pkt.body, 0).entries();
    assert_eq!(fields.len(), 2);
    assert_eq!((fields[0].tag, fields[0].val), (0xA1, &[0x21u8][..]));
    assert_eq!((fields[1].tag, fields[1].val), (0xFE, &[1u8, 2, 3, 4][..]));
}

#[test]
fn sealed_packet_decodes_to_what_it_was_built_from() {
    let raw = frame_packet(&build_encrypted_payload(0x0F, 0x0200, &[9, 8, 7]));
    assert_eq!(raw[7], 0x42);
    let pkt = decode_packet(&raw).unwrap();
    assert_eq!(pkt.cmd, 0x0200);
    assert!(pkt.is_enc);
    assert_eq!(pkt.body, vec![9, 8, 7]);
}

#[test]
fn initial_key_is_the_beginning_of_the_static_value() {
    assert_eq!(&A2_STATIC[..16], &INITIAL_KEY[..]);
    assert_eq!(&A2_STATIC[..], b"2c377dfa09cdb7924889e4292a37f61c8c5ed52d");
}

#[test]
fn tlv_of_two_runs_is_both_runs() {
    let a: &[(u8, &[u8])] = &[(1, &[2, 3])];
    let b: &[(u8, &[u8])] = &[(4, &[]), (5, &[6])];
    let both: &[(u8, &[u8])] = &[(1, &[2, 3]), (4, &[]), (5, &[6])];
    let mut joined = build_tlv(a);
    joined.extend_from_slice(&build_tlv(b));
    assert_eq!(build_tlv(both), joined);
    assert_eq!(joined, vec![1, 2, 2, 3, 4, 0, 5, 1, 6]);
}

#[test]
fn long_values_wrap_their_length_byte() {
    let long = [7u8; 257];
    let out = build_tlv(&[(0xA1, &long)]);
    assert_eq!(out.len(), 259);
    assert_eq!(out[1], 1);
}

#[test]
fn incomplete_fields_end_the_walk() {
    let mut iter = tlv_iter(&[0xA1, 1, 5, 0xA2, 3, 1, 2], 0);
    let first = iter.next().unwrap();
    assert_eq!((first.tag, first.val), (0xA1, &[5u8][..]));
    assert!(iter.next().is_none());
    assert!(iter.next().is_none());
    assert!(tlv_iter(&[0xA1], 0).next().is_none());
    assert!(tlv_iter(&[0xA1, 0], 7).next().is_none());
    assert!(tlv_iter(&[], 0).next().is_none());
}

#[test]
fn frame_has_length_and_checksum() {
    let raw = frame_packet(&[1, 2, 3]);
    assert_eq!(raw, vec![0xFF, 0x09, 8, 0, 1, 2, 3, 0xFF ^ 0x09 ^ 8 ^ 1 ^ 2 ^ 3]);
    assert_eq!(raw.iter().fold(0u8, |a, &b| a ^ b), 0);
    let long = frame_packet(&vec![0u8; 300]);
    assert_eq!(long.len(), 305);
    assert_eq!((long[2], long[3]), (0x31, 0x01));
}

#[test]
fn status_sets_all_readings() {
    let mut state = DashboardState::default();
    let data = build_tlv(&[
        (0xA1, &[0x05]),
        (0xA4, &[0, 1, 0x88, 0x13, 0xE8, 0x03, 0xF4, 0x01]),
        (0xA9, &[0, 2, 0x10, 0x27, 0x64, 0x00, 0x0A, 0x00]),
        (0xAA, &[0, 1, 0xD0, 0x07, 0x2C, 0x01, 0xF4, 0x01, 0xC8, 0x00, 0, 0xE8, 0x03, 0]),
        (0xB3, &[0, 25]),
        (0xFE, &[0, 0x78, 0x56, 0x34, 0x12]),
    ]);
    apply_status(&data, 0, &mut state);
    assert_eq!(state.device_status, 5);
    assert_eq!(state.ports[0].mode, ConnectionMode::Output);
    assert_eq!(state.ports[0].millivolts, 5000);
    assert_eq!(state.ports[0].milliamps, 1000);
    assert_eq!(state.ports[0].centiwatts, 500);
    assert_eq!(state.ports[5].mode, ConnectionMode::Input);
    assert_eq!(state.ports[5].millivolts, 10000);
    assert_eq!(state.ports[5].name, "USB-A2");
    assert_eq!(state.channels[0].mode, ConnectionMode::Output);
    assert_eq!(state.channels[0].centivolts, 2000);
    assert_eq!(state.channels[0].centiamps, 300);
    assert_eq!(state.channels[0].max_centivolts, 500);
    assert_eq!(state.channels[0].max_centiamps, 200);
    assert_eq!(state.channels[0].max_deciwatts, 1000);
    assert_eq!(state.temperature, 25);
    assert_eq!(state.device_ts, 0x12345678);
    assert!(state.last_update.is_some());
    assert!(state.error.is_none());
}

#[test]
fn disconnected_connections_lose_their_readings() {
    let mut state = DashboardState::default();
    let on = build_tlv(&[
        (0xA5, &[0, 2, 1, 1, 1, 1, 1, 1]),
        (0xAE, &[0, 2, 1, 0, 2, 0, 3, 0, 4, 0, 9, 5, 0, 0]),
    ]);
    apply_live_power(&on, 0, &mut state);
    assert_eq!(state.ports[1].milliamps, 257);
    assert_eq!(state.channels[4].max_deciwatts, 5);
    let off = build_tlv(&[
        (0xA5, &[0, 0, 1, 1, 1, 1, 1, 1]),
        (0xAE, &[0, 7, 1, 0, 2, 0, 3, 0, 4, 0, 9, 5, 0, 0]),
    ]);
    apply_live_power(&off, 0, &mut state);
    assert_eq!(state.ports[1].mode, ConnectionMode::NotConnected);
    assert_eq!(state.ports[1].millivolts, 0);
    assert_eq!(state.ports[1].milliamps, 0);
    assert_eq!(state.ports[1].centiwatts, 0);
    assert_eq!(state.channels[4].mode, ConnectionMode::NotConnected);
    assert_eq!(state.channels[4].centivolts, 0);
    assert_eq!(state.channels[4].centiamps, 0);
    assert_eq!(state.channels[4].max_centivolts, 3);
    assert_eq!(state.channels[4].max_centiamps, 4);
    assert_eq!(state.channels[4].max_deciwatts, 5);
}

#[test]
fn short_readings_and_unknown_tags_are_ignored() {
    let mut state = DashboardState::default();
    let data = build_tlv(&[
        (0xA1, &[]),
        (0xA4, &[0, 1, 2, 3, 4, 5, 6]),
        (0xAA, &[0, 1, 2, 3, 4, 5, 6, 7, 8, 9, 10, 11, 12]),
        (0xB3, &[9]),
        (0xFE, &[0, 1, 2, 3]),
        (0xA2, &[1, 2, 3]),
        (0xAF, &[1, 2, 3]),
    ]);
    apply_status(&data, 0, &mut state);
    assert_eq!(state.device_status, 0);
    assert_eq!(state.ports[0].mode, ConnectionMode::NotConnected);
    assert_eq!(state.channels[0].mode, ConnectionMode::NotConnected);
    assert_eq!(state.temperature, 0);
    assert_eq!(state.device_ts, 0);
    assert!(state.last_update.is_none());
}

#[test]
fn two_status_payloads_do_what_one_does() {
    let a: &[(u8, &[u8])] = &[(0xA1, &[1]), (0xB3, &[0, 20])];
    let b: &[(u8, &[u8])] = &[(0xA1, &[2])];
    let mut apart = DashboardState::default();
    apply_status(&build_tlv(a), 0, &mut apart);
    apply_status(&build_tlv(b), 0, &mut apart);
    let mut joined = build_tlv(a);
    joined.extend_from_slice(&build_tlv(b));
    let mut at_once = DashboardState::default();
    apply_status(&joined, 0, &mut at_once);
    assert!(apart.last_update.is_none() && at_once.last_update.is_none());
    assert_eq!(apart.device_status, 2);
    assert_eq!(at_once.device_status, 2);
    assert_eq!(apart.temperature, at_once.temperature);
}

#[test]
fn session_key_and_iv_are_found() {
    let key = [0x11u8; 16];
    let other = [0x22u8; 16];
    let iv = [0x33u8; 16];
    let data = build_tlv(&[(0xA1, &key), (0xA4, &iv), (0xA3, &other), (0xA1, &[1, 2])]);
    assert_eq!(parse_session_key_response(&data, 0), (Some(other), Some(iv)));
    assert_eq!(parse_session_key_response(&build_tlv(&[(0xA2, &key)]), 0), (None, None));
    assert_eq!(parse_session_key_response(&[], 0), (None, None));
}

#[test]
fn handshake_info_is_read_behind_the_head() {
    let mut payload = vec![0x03, 0x00, 0x01, 0x08, 0x29, 0x00];
    payload.extend_from_slice(&build_tlv(&[
        (0xA3, b"v1.2.3"),
        (0xA4, b"ABC\x00123"),
        (0xA5, &[0xAA, 0x0B, 0xCC]),
    ]));
    let (serial, firmware, mac) = extract_handshake_info(&payload);
    assert_eq!(serial, "ABC.123");
    assert_eq!(firmware, "v1.2.3");
    assert_eq!(mac, "AA:0B:CC");
    let (serial, firmware, mac) = extract_handshake_info(&[1, 2, 3]);
    assert_eq!((serial.as_str(), firmware.as_str(), mac.as_str()), ("", "", ""));
}

#[test]
fn bytes_as_text() {
    assert_eq!(bytes_to_ascii(&[0x1F, 0x20, 0x41, 0x7E, 0x7F, 0xFF]), ". A~..");
    assert_eq!(hex_str(&[0x00, 0x0A, 0xFF]), "000AFF");
    assert_eq!(hex_str(&[]), "");
}

#[test]
fn flag_bits_in_commands_are_read_as_flags() {
    let pkt = decode_packet(&frame_packet(&build_payload(0x01, 0x4801, &[]))).unwrap();
    assert_eq!(pkt.cmd, 0x0001);
    assert!(pkt.is_enc);
    assert!(pkt.is_ack);
    let raw = frame_packet(&build_encrypted_payload(0x01, 0x0D00, &[]));
    let pkt = decode_packet(&raw).unwrap();
    assert_eq!(pkt.cmd, 0x0500);
    assert!(pkt.is_enc);
    assert!(pkt.is_ack);
}

#[test]
fn telling_the_time_makes_an_update() {
    let time: &[(u8, &[u8])] = &[(0xFE, &[0, 9, 0, 0, 0])];
    let other: &[(u8, &[u8])] = &[(0xA1, &[3])];
    let mut apart = DashboardState::default();
    apply_status(&build_tlv(time), 0, &mut apart);
    let first = apart.last_update;
    assert!(first.is_some());
    apply_status(&build_tlv(other), 0, &mut apart);
    assert_eq!(apart.last_update, first);
    let mut joined = build_tlv(time);
    joined.extend_from_slice(&build_tlv(other));
    let mut at_once = DashboardState::default();
    apply_status(&joined, 0, &mut at_once);
    assert!(at_once.last_update.is_some());
    assert_eq!(at_once.device_ts, apart.device_ts);
    assert_eq!(at_once.device_status, apart.device_status);
}
