use std::time::Instant;

use ankerstatus::crypto::{aes_cbc_encrypt, pad_iv, CryptoKeys, DecryptError};
use ankerstatus::fragments::FragmentBuffer;
use ankerstatus::protocol::{
    build_encrypted_payload, build_payload, build_tlv, frame_packet, INITIAL_KEY,
};
use ankerstatus::session::handshake::{HandshakeAction, HandshakeStep};
use ankerstatus::session::{DeviceSession, RecvEvent, Route, SessionError};
use ankerstatus::state::{DashboardState, SessionPhase};

const TS: [u8; 4] = [1, 2, 3, 4];

fn info_reply() -> Vec<u8> {
    let mut reply = vec![0x03, 0x00, 0x01, 0x08, 0x29, 0x00];
    reply.extend_from_slice(&build_tlv(&[
        (0xA3, b"v1.0"),
        (0xA4, b"SERIAL01"),
        (0xA5, &[1, 2, 3, 4, 5, 6]),
    ]));
    reply
}

fn with_initial_keys(state: &mut DashboardState) -> DeviceSession {
    let mut session = DeviceSession::new(false);
    session.run_handshake(HandshakeStep::AwaitInformation, false, &info_reply(), TS, state);
    session
}

fn sealed(key: &[u8; 16], iv: &[u8; 16], group: u8, cmd: u16, message: &[u8]) -> Vec<u8> {
    frame_packet(&build_encrypted_payload(group, cmd, &aes_cbc_encrypt(key, iv, message)))
}

fn keys_of(session: &DeviceSession) -> ([u8; 16], [u8; 16]) {
    let (key, iv) = session.crypto().key_iv().unwrap();
    (*key, *iv)
}

#[test]
fn new_session_has_no_keys() {
    let session = DeviceSession::new(true);
    assert!(session.verbose);
    assert!(session.crypto().key_iv().is_none());
    assert!(!session.crypto().is_session());
    assert_eq!(session.device_info().serial, "");
    assert!(matches!(
        session.send_encrypted(0x11, 0x0030, &[(0xA1, &[0x21])]),
        Err(SessionError::CryptoNotReady)
    ));
}

#[test]
fn error_texts() {
    assert_eq!(
        SessionError::CryptoNotReady.message(),
        "Crypto not ready — send_encrypted called before key exchange"
    );
    assert_eq!(
        SessionError::NoSerial.message(),
        "Serial number not extracted from handshake — aborting"
    );
    assert_eq!(
        SessionError::NoSessionKey.message(),
        "Timed out waiting for session key.\nThe device may use a different TLV tag — check decrypted hex and update parse_session_key_response()."
    );
}

#[test]
fn plain_packets_are_framed_payloads() {
    let session = DeviceSession::new(false);
    let packet = session.send_plain(0x01, 0x0003, &[(0xA3, &[0x20])]);
    assert_eq!(packet, frame_packet(&build_payload(0x01, 0x0003, &[(0xA3, &[0x20])])));
}

#[test]
fn encrypted_packets_reach_a_peer_with_the_same_keys() {
    let mut state = DashboardState::default();
    let sender = with_initial_keys(&mut state);
    let mut peer = with_initial_keys(&mut state);
    let packet = sender.send_encrypted(0x11, 0x0030, &[(0xA1, &[0x21]), (0xFE, &TS)]).unwrap();
    let got = peer.recv_and_decode(packet.clone(), &mut state);
    assert_eq!(got.content, build_tlv(&[(0xA1, &[0x21]), (0xFE, &TS)]));
    assert_eq!(
        got.event,
        RecvEvent::Decrypted { ciphertext_len: 16, route: Route::Unknown }
    );
    assert_ne!(&packet[9..packet.len() - 1], &got.content[..]);
}

#[test]
fn without_a_key_nothing_changes() {
    let mut state = DashboardState::default();
    let mut session = DeviceSession::new(false);
    let raw = sealed(&[1; 16], &[2; 16], 0x01, 0x0022, &[]);
    let got = session.recv_and_decode(raw.clone(), &mut state);
    assert_eq!(got.event, RecvEvent::NoKey);
    assert_eq!(got.content, raw);
    assert!(session.crypto().key_iv().is_none());
    assert_eq!(state.session_phase, SessionPhase::Inactive);
}

#[test]
fn short_and_plain_notifications() {
    let mut state = DashboardState::default();
    let mut session = DeviceSession::new(false);
    let got = session.recv_and_decode(vec![1, 2, 3], &mut state);
    assert_eq!(got.event, RecvEvent::NotAPacket);
    assert_eq!(got.content, vec![1, 2, 3]);
    let payload = build_payload(0x01, 0x0001, &[(0xA1, &TS)]);
    let got = session.recv_and_decode(frame_packet(&payload), &mut state);
    assert_eq!(got.event, RecvEvent::Plain);
    assert_eq!(got.content, payload);
}

#[test]
fn status_messages_reach_the_dashboard() {
    let mut state = DashboardState::default();
    let mut session = with_initial_keys(&mut state);
    let (key, iv) = keys_of(&session);
    for (cmd, route) in [
        (0x0300, Route::Status),
        (0x8200, Route::Status),
        (0x820A, Route::Status),
        (0x8402, Route::Status),
        (0x8405, Route::Status),
        (0x050E, Route::LivePower),
    ] {
        for head in [&[][..], &[0u8][..]] {
            let mut message = head.to_vec();
            message.extend_from_slice(&build_tlv(&[(0xA1, &[7]), (0xB3, &[0, 30])]));
            state = DashboardState::default();
            let now = Instant::now();
            let got = session.recv_and_decode_at(
                sealed(&key, &iv, 0x0F, cmd, &message),
                now,
                &mut state,
            );
            assert_eq!(got.event, RecvEvent::Decrypted { ciphertext_len: 16, route });
            assert_eq!(got.content, message);
            assert_eq!(state.device_status, 7);
            assert_eq!(state.temperature, 30);
        }
    }
}

#[test]
fn time_of_arrival_is_kept() {
    let mut state = DashboardState::default();
    let mut session = with_initial_keys(&mut state);
    let (key, iv) = keys_of(&session);
    let message = build_tlv(&[(0xFE, &[0, 1, 0, 0, 0])]);
    let now = Instant::now();
    session.recv_and_decode_at(sealed(&key, &iv, 0x0F, 0x0300, &message), now, &mut state);
    assert_eq!(state.last_update, Some(now));
    assert_eq!(state.device_ts, 1);
}

#[test]
fn new_session_key_replaces_the_initial_one() {
    let mut state = DashboardState::default();
    let mut session = with_initial_keys(&mut state);
    let (key, iv) = keys_of(&session);
    let new_key = [0x5Au8; 16];
    let new_iv = [0xA5u8; 16];
    let message = build_tlv(&[(0xA1, &new_key), (0xA4, &new_iv)]);
    let got = session.recv_and_decode(sealed(&key, &iv, 0x01, 0x0022, &message), &mut state);
    assert_eq!(
        got.event,
        RecvEvent::Decrypted { ciphertext_len: 48, route: Route::NewSessionKey }
    );
    assert!(session.crypto().is_session());
    assert_eq!(keys_of(&session), (new_key, new_iv));
    assert_eq!(state.session_phase, SessionPhase::Session);
}

#[test]
fn session_key_without_iv_keeps_the_initial_iv() {
    let mut state = DashboardState::default();
    let mut session = with_initial_keys(&mut state);
    let (key, iv) = keys_of(&session);
    let new_key = [0x5Au8; 16];
    let message = build_tlv(&[(0xA3, &new_key)]);
    session.recv_and_decode(sealed(&key, &iv, 0x01, 0x0022, &message), &mut state);
    assert_eq!(keys_of(&session), (new_key, iv));
    let again = build_tlv(&[(0xA3, &[6u8; 16])]);
    session.recv_and_decode(sealed(&new_key, &iv, 0x01, 0x0022, &again), &mut state);
    assert_eq!(keys_of(&session), ([6u8; 16], [0u8; 16]));
}

#[test]
fn key_exchange_without_key_reuses_the_initial_one() {
    let mut state = DashboardState::default();
    let mut session = with_initial_keys(&mut state);
    let (key, iv) = keys_of(&session);
    let got = session.recv_and_decode(sealed(&key, &iv, 0x01, 0x0022, &[0x00]), &mut state);
    assert_eq!(
        got.event,
        RecvEvent::Decrypted { ciphertext_len: 16, route: Route::ReusedInitialKey }
    );
    assert!(session.crypto().is_session());
    assert_eq!(keys_of(&session), (key, iv));
    assert_eq!(key, INITIAL_KEY);
}

#[test]
fn bad_ciphertexts_are_handed_back() {
    let mut state = DashboardState::default();
    let mut session = with_initial_keys(&mut state);
    let before = keys_of(&session);
    let raw = frame_packet(&build_encrypted_payload(0x01, 0x0022, &[1, 2, 3]));
    let got = session.recv_and_decode(raw.clone(), &mut state);
    assert_eq!(got.event, RecvEvent::DecryptError { ciphertext_len: 3 });
    assert_eq!(got.content, raw);
    assert_eq!(keys_of(&session), before);
    assert_eq!(DecryptError.message(), "AES-CBC decrypt error: Error");
}

fn fragment_packet(cmd: u16, header: u8, data: &[u8]) -> Vec<u8> {
    let mut payload = vec![0x03, 0x01, 0x0F, (cmd >> 8) as u8 | 0x48, cmd as u8, header];
    payload.extend_from_slice(data);
    frame_packet(&payload)
}

#[test]
fn fragmented_messages_are_reassembled() {
    let mut state = DashboardState::default();
    let mut session = with_initial_keys(&mut state);
    let (key, iv) = keys_of(&session);
    let message = build_tlv(&[(0xA1, &[9]), (0xB3, &[0, 41]), (0xC0, &[0; 30])]);
    let ct = aes_cbc_encrypt(&key, &iv, &message);
    let first = fragment_packet(0x0300, 0x12, &ct[..20]);
    let got = session.recv_and_decode(first.clone(), &mut state);
    assert_eq!(got.event, RecvEvent::Buffered);
    assert_eq!(got.content, first);
    assert_eq!(state.device_status, 0);
    let got = session.recv_and_decode(fragment_packet(0x0300, 0x22, &ct[20..]), &mut state);
    assert_eq!(
        got.event,
        RecvEvent::Decrypted { ciphertext_len: ct.len(), route: Route::Status }
    );
    assert_eq!(got.content, message);
    assert_eq!(state.device_status, 9);
    assert_eq!(state.temperature, 41);
}

#[test]
fn single_fragments_need_no_buffer() {
    let mut state = DashboardState::default();
    let mut session = with_initial_keys(&mut state);
    let (key, iv) = keys_of(&session);
    for header in [0x11, 0x10, 0x00] {
        let message = build_tlv(&[(0xA1, &[header])]);
        let ct = aes_cbc_encrypt(&key, &iv, &message);
        session.recv_and_decode(fragment_packet(0x0300, header, &ct), &mut state);
        assert_eq!(state.device_status, header);
    }
}

#[test]
fn fragments_may_come_out_of_order_behind_the_first() {
    let mut fb = FragmentBuffer::default();
    assert!(fb.feed([3, 0], 1, 3, vec![1]).is_none());
    assert!(fb.feed([3, 0], 3, 3, vec![3]).is_none());
    assert!(fb.feed([4, 0], 2, 2, vec![9]).is_none());
    assert_eq!(fb.feed([3, 0], 2, 3, vec![2]), Some(vec![1, 2, 3]));
    assert!(fb.feed([3, 0], 2, 3, vec![7]).is_none());
}

#[test]
fn first_fragment_drops_stale_ones() {
    let mut fb = FragmentBuffer::default();
    assert!(fb.feed([3, 0], 2, 3, vec![8]).is_none());
    assert!(fb.feed([3, 0], 1, 3, vec![1]).is_none());
    assert!(fb.feed([3, 0], 2, 3, vec![2]).is_none());
    assert_eq!(fb.feed([3, 0], 3, 3, vec![3]), Some(vec![1, 2, 3]));
}

#[test]
fn repeated_fragments_replace_each_other() {
    let mut fb = FragmentBuffer::default();
    assert!(fb.feed([3, 0], 1, 2, vec![1]).is_none());
    assert!(fb.feed([3, 0], 1, 2, vec![5]).is_none());
    assert_eq!(fb.feed([3, 0], 2, 2, vec![2]), Some(vec![5, 2]));
}

#[test]
fn unfragmented_data_passes_through() {
    let mut fb = FragmentBuffer::default();
    assert_eq!(fb.feed([1, 1], 0, 0, vec![4, 5]), Some(vec![4, 5]));
    assert_eq!(fb.feed([1, 1], 9, 1, vec![6]), Some(vec![6]));
}

#[test]
fn handshake_runs_through() {
    let mut state = DashboardState::default();
    let mut session = DeviceSession::new(false);
    let (step, action) = session.run_handshake(HandshakeStep::Start, false, &[], TS, &mut state);
    assert_eq!(step, HandshakeStep::AwaitHello);
    assert_eq!(state.session_phase, SessionPhase::Handshake);
    let a2: &[u8] = b"2c377dfa09cdb7924889e4292a37f61c8c5ed52d";
    let hello: &[(u8, &[u8])] = &[(0xA1, &TS), (0xA2, a2)];
    match action {
        HandshakeAction::Exchange { packet } => {
            assert_eq!(packet, frame_packet(&build_payload(0x01, 0x0001, hello)));
        }
        _ => panic!("no exchange"),
    }
    let (step, action) = session.run_handshake(step, false, &[], TS, &mut state);
    assert_eq!(step, HandshakeStep::AwaitParameters);
    let parameters: &[(u8, &[u8])] =
        &[(0xA1, &TS), (0xA2, a2), (0xA3, &[0x20]), (0xA4, &[0x00, 0xF0])];
    match action {
        HandshakeAction::Exchange { packet } => {
            assert_eq!(packet, frame_packet(&build_payload(0x01, 0x0003, parameters)));
        }
        _ => panic!("no exchange"),
    }
    let (step, action) = session.run_handshake(step, false, &[], TS, &mut state);
    assert_eq!(step, HandshakeStep::AwaitInformation);
    match action {
        HandshakeAction::Exchange { packet } => {
            assert_eq!(packet, frame_packet(&build_payload(0x01, 0x0029, hello)));
        }
        _ => panic!("no exchange"),
    }
    let (step, action) = session.run_handshake(step, false, &info_reply(), TS, &mut state);
    assert_eq!(step, HandshakeStep::AwaitConfirmation);
    assert_eq!(session.device_info().serial, "SERIAL01");
    assert_eq!(state.device_info.firmware, "v1.0");
    assert_eq!(state.device_info.mac, "01:02:03:04:05:06");
    assert_eq!(keys_of(&session), (INITIAL_KEY, pad_iv(b"SERIAL01")));
    let confirmation: &[(u8, &[u8])] =
        &[(0xA1, &TS), (0xA2, a2), (0xA3, &[0x20]), (0xA4, &[0x00, 0xF0]), (0xA5, &[0x02])];
    match action {
        HandshakeAction::Exchange { packet } => {
            assert_eq!(packet, frame_packet(&build_payload(0x01, 0x0005, confirmation)));
        }
        _ => panic!("no exchange"),
    }
    let (step, action) = session.run_handshake(step, false, &[], TS, &mut state);
    assert_eq!(step, HandshakeStep::AwaitKey { rounds: 0 });
    let exchange: &[(u8, &[u8])] =
        &[(0xA1, &TS), (0xA2, a2), (0xA3, &[0; 4]), (0xA5, &[0; 40])];
    match action {
        HandshakeAction::SendAndPoll { packet } => {
            let (key, iv) = keys_of(&session);
            assert_eq!(packet, sealed(&key, &iv, 0x01, 0x0022, &build_tlv(exchange)));
        }
        _ => panic!("no key exchange"),
    }
    let (step, action) = session.run_handshake(step, false, &[], TS, &mut state);
    assert_eq!(step, HandshakeStep::AwaitKey { rounds: 1 });
    assert!(matches!(action, HandshakeAction::Poll));
    let (key, iv) = keys_of(&session);
    session.recv_and_decode(sealed(&key, &iv, 0x01, 0x0022, &[0x00]), &mut state);
    let (step, action) = session.run_handshake(step, true, &[], TS, &mut state);
    assert_eq!(step, HandshakeStep::AwaitKey { rounds: 1 });
    assert!(matches!(action, HandshakeAction::Receive));
    let (step, action) = session.run_handshake(step, false, &[], TS, &mut state);
    assert_eq!(step, HandshakeStep::Finished);
    assert!(matches!(action, HandshakeAction::Complete));
    assert_eq!(state.session_phase, SessionPhase::Session);
    let (step, _) = session.run_handshake(step, false, &[], TS, &mut state);
    assert_eq!(step, HandshakeStep::Finished);
}

#[test]
fn handshake_without_serial_fails() {
    let mut state = DashboardState::default();
    let mut session = DeviceSession::new(false);
    let (step, action) =
        session.run_handshake(HandshakeStep::AwaitInformation, false, &[0; 6], TS, &mut state);
    let error = SessionError::NoSerial;
    assert_eq!(step, HandshakeStep::Failed { error });
    assert!(matches!(action, HandshakeAction::Abort { error: SessionError::NoSerial }));
    assert!(session.crypto().key_iv().is_none());
    let (step, _) = session.run_handshake(step, false, &info_reply(), TS, &mut state);
    assert_eq!(step, HandshakeStep::Failed { error });
}

#[test]
fn handshake_without_initial_keys_cannot_ask_for_the_session_key() {
    let mut state = DashboardState::default();
    let mut session = DeviceSession::new(false);
    let (step, _) = session.run_handshake(HandshakeStep::AwaitConfirmation, false, &[], TS, &mut state);
    assert_eq!(step, HandshakeStep::Failed { error: SessionError::CryptoNotReady });
}

#[test]
fn handshake_waits_ten_rounds() {
    let mut state = DashboardState::default();
    let mut session = with_initial_keys(&mut state);
    let (mut step, action) =
        session.run_handshake(HandshakeStep::AwaitConfirmation, false, &[], TS, &mut state);
    assert!(matches!(action, HandshakeAction::SendAndPoll { .. }));
    let mut rounds = 1;
    loop {
        let (next, action) = session.run_handshake(step, false, &[], TS, &mut state);
        step = next;
        match action {
            HandshakeAction::Poll => rounds += 1,
            HandshakeAction::Abort { error } => {
                assert_eq!(error, SessionError::NoSessionKey);
                break;
            }
            _ => panic!("unexpected action"),
        }
    }
    assert_eq!(rounds, 10);
    assert_eq!(state.session_phase, SessionPhase::Inactive);
}

#[test]
fn keys_tell_their_stage() {
    assert!(CryptoKeys::Absent.key_iv().is_none());
    let initial = CryptoKeys::Initial { key: [1; 16], iv: [2; 16] };
    assert_eq!(initial.key_iv(), Some((&[1; 16], &[2; 16])));
    assert!(!initial.is_session());
    let session = CryptoKeys::Session { key: [3; 16], iv: [4; 16] };
    assert_eq!(session.key_iv(), Some((&[3; 16], &[4; 16])));
    assert!(session.is_session());
}
