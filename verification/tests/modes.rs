use ankerstatus::crypto::aes_cbc_encrypt;
use ankerstatus::protocol::{build_encrypted_payload, build_tlv, frame_packet};
use ankerstatus::session::commands::{CommandAction, CommandStep};
use ankerstatus::session::handshake::HandshakeStep;
use ankerstatus::session::scan::{scan_hit, ScanAction, ScanStep, FIRST_SCAN_ID};
use ankerstatus::session::telemetry::{
    drain_notifications, keepalive_due, PollCounter, SolicitAction, SolicitStep, TelemetryAction,
    TelemetryStep, STAGE7B_UUID,
};
use ankerstatus::session::{DeviceSession, SessionError};
use ankerstatus::state::DashboardState;

const TS: [u8; 4] = [9, 8, 7, 6];

fn session() -> DeviceSession {
    let mut reply = vec![0u8; 6];
    reply.extend_from_slice(&build_tlv(&[(0xA4, b"SN")]));
    let mut session = DeviceSession::new(false);
    let mut state = DashboardState::default();
    session.run_handshake(HandshakeStep::AwaitInformation, false, &reply, TS, &mut state);
    session
}

fn sealed(session: &DeviceSession, group: u8, cmd: u16, fields: &[(u8, &[u8])]) -> Vec<u8> {
    let (key, iv) = session.crypto().key_iv().unwrap();
    let ciphertext = aes_cbc_encrypt(key, iv, &build_tlv(fields));
    frame_packet(&build_encrypted_payload(group, cmd, &ciphertext))
}

#[test]
fn soliciting_sends_two_probes() {
    let s = session();
    assert_eq!(&STAGE7B_UUID[..], b"79ebed35-dc9c-4904-b40c-72c4e863aa10");
    let (step, action) = s.solicit_telemetry(SolicitStep::Start, TS);
    assert_eq!(step, SolicitStep::LightSent);
    match action {
        SolicitAction::Probe { packet } => {
            assert_eq!(packet, sealed(&s, 0x0F, 0x0200, &[(0xA1, &[0x21]), (0xFE, &TS)]));
        }
        _ => panic!("no probe"),
    }
    let (step, action) = s.solicit_telemetry(step, TS);
    assert_eq!(step, SolicitStep::FullSent);
    let mut a3 = vec![0x04];
    a3.extend_from_slice(b"79ebed35-dc9c-4904-b40c-72c4e863aa10");
    let full: &[(u8, &[u8])] = &[
        (0xA1, &[0x21]),
        (0xA2, &[0x04, 0x47, 0x42]),
        (0xA3, &a3),
        (0xA5, &[0x01, 0x01]),
        (0xFE, &TS),
    ];
    match action {
        SolicitAction::Probe { packet } => assert_eq!(packet, sealed(&s, 0x0F, 0x020A, full)),
        _ => panic!("no probe"),
    }
    let (step, action) = s.solicit_telemetry(step, TS);
    assert_eq!(step, SolicitStep::FullSent);
    assert!(matches!(action, SolicitAction::Complete));
}

#[test]
fn soliciting_without_a_key_is_given_up() {
    let s = DeviceSession::new(false);
    for start in [SolicitStep::Start, SolicitStep::LightSent] {
        let (step, action) = s.solicit_telemetry(start, TS);
        assert_eq!(step, start);
        assert!(matches!(action, SolicitAction::Abort { error: SessionError::CryptoNotReady }));
    }
}

#[test]
fn draining_stops_at_silence_or_timeout() {
    assert!(drain_notifications(true, 0, 1500));
    assert!(drain_notifications(true, 1499, 1500));
    assert!(!drain_notifications(true, 1500, 1500));
    assert!(!drain_notifications(true, 9000, 1500));
    assert!(!drain_notifications(false, 0, 1500));
    assert!(!drain_notifications(true, 0, 0));
}

#[test]
fn keepalive_packet_and_time() {
    let s = session();
    assert_eq!(
        s.keepalive(TS).unwrap(),
        sealed(&s, 0x11, 0x0030, &[(0xA1, &[0x21]), (0xFE, &TS)])
    );
    assert!(!keepalive_due(9));
    assert!(keepalive_due(10));
    assert_eq!(DeviceSession::new(false).keepalive(TS), Err(SessionError::CryptoNotReady));
}

#[test]
fn keepalive_is_due_every_so_many_polls() {
    for every in [0u32, 1, 3, 5] {
        let mut counter = PollCounter::new(every);
        for n in 1..=20u32 {
            assert_eq!(counter.poll(), n % every.max(1) == 0);
        }
    }
}

#[test]
fn telemetry_comes_after_handshake_and_notice() {
    let s = session();
    let mut counter = PollCounter::new(2);
    let mut step = TelemetryStep::Start;
    let mut names = Vec::new();
    let mut heard = [true, false, true, false, true].into_iter();
    let mut next_heard = false;
    for _ in 0..14 {
        let (next, action) = s.run_telemetry(step, next_heard, 300, 1000, &mut counter, TS);
        step = next;
        names.push(match action {
            TelemetryAction::Handshake => "handshake",
            TelemetryAction::NotifyReady => "ready",
            TelemetryAction::Solicit => "solicit",
            TelemetryAction::BeginTurn => "begin",
            TelemetryAction::Receive { remaining_ns } => {
                assert_eq!(remaining_ns, 700);
                next_heard = heard.next().unwrap();
                "receive"
            }
            TelemetryAction::Probe { packet } => {
                let light: &[(u8, &[u8])] = &[(0xA1, &[0x21]), (0xFE, &TS)];
                assert_eq!(packet, sealed(&s, 0x0F, 0x0200, light));
                "probe"
            }
            TelemetryAction::Keepalive => "keepalive",
            TelemetryAction::Abort { .. } => panic!("given up"),
        });
    }
    assert_eq!(
        names,
        vec![
            "handshake", "ready", "solicit", "begin", "receive", "receive", "probe", "begin",
            "receive", "receive", "probe", "keepalive", "begin", "receive",
        ]
    );
}

#[test]
fn telemetry_turns_end_in_time() {
    let s = session();
    let mut counter = PollCounter::new(9);
    for step in [TelemetryStep::TurnBegun, TelemetryStep::Draining] {
        let (next, action) = s.run_telemetry(step, true, 1000, 1000, &mut counter, TS);
        assert_eq!(next, TelemetryStep::Probed { keepalive_due: false });
        assert!(matches!(action, TelemetryAction::Probe { .. }));
        let (next, _) = s.run_telemetry(step, true, 999, 1000, &mut counter, TS);
        assert_eq!(next, TelemetryStep::Draining);
    }
}

#[test]
fn telemetry_without_a_key_is_given_up() {
    let s = DeviceSession::new(false);
    let mut counter = PollCounter::new(1);
    let (step, action) =
        s.run_telemetry(TelemetryStep::TurnBegun, false, 1, 0, &mut counter, TS);
    let error = SessionError::CryptoNotReady;
    assert_eq!(step, TelemetryStep::Failed { error });
    assert!(matches!(action, TelemetryAction::Abort { error: SessionError::CryptoNotReady }));
    let (step, _) = s.run_telemetry(step, false, 1, 0, &mut counter, TS);
    assert_eq!(step, TelemetryStep::Failed { error });
}

#[test]
fn commands_are_sent_one_after_the_other() {
    let s = session();
    let cmds = [0x0030u16, 0x00FE];
    let mut sent = Vec::new();
    let mut silent = 0;
    let mut step = CommandStep::Send { index: 0 };
    let mut heard = [true, true, false, false].into_iter();
    let mut next_heard = false;
    loop {
        let (next, action) = s.run_commands(step, next_heard, 99, &cmds, 0x11, false);
        step = next;
        match action {
            CommandAction::Exchange { packet } => {
                sent.push(packet);
                next_heard = heard.next().unwrap();
            }
            CommandAction::Receive => next_heard = heard.next().unwrap(),
            CommandAction::Proceed => {}
            CommandAction::ReportSilence => silent += 1,
            CommandAction::Complete => break,
            _ => panic!("unexpected action"),
        }
    }
    assert_eq!(step, CommandStep::Finished);
    assert_eq!(silent, 1);
    assert_eq!(
        sent,
        vec![
            sealed(&s, 0x11, 0x0030, &[(0xA1, &[0x21])]),
            sealed(&s, 0x11, 0x00FE, &[(0xA1, &[0x21])]),
        ]
    );
}

#[test]
fn listening_follows_the_commands() {
    let s = session();
    let next = |step, heard, elapsed| s.run_commands(step, heard, elapsed, &[1], 0x11, true);
    let (step, action) = next(CommandStep::Send { index: 1 }, false, 99);
    assert_eq!(step, CommandStep::Listen);
    assert!(matches!(action, CommandAction::BeginListening));
    let (step, action) = next(step, false, 99);
    assert_eq!(step, CommandStep::Listening);
    assert!(matches!(action, CommandAction::Listen));
    let (step, action) = next(step, true, 9);
    assert_eq!(step, CommandStep::Listening);
    assert!(matches!(action, CommandAction::Listen));
    let (step, action) = next(step, false, 10);
    assert_eq!(step, CommandStep::Listen);
    assert!(matches!(action, CommandAction::Keepalive));
}

#[test]
fn commands_without_a_key_are_given_up() {
    let s = DeviceSession::new(false);
    let (step, action) = s.run_commands(CommandStep::Send { index: 0 }, false, 0, &[1], 0x11, true);
    assert_eq!(step, CommandStep::Failed { error: SessionError::CryptoNotReady });
    assert!(matches!(action, CommandAction::Abort { error: SessionError::CryptoNotReady }));
}

#[test]
fn scan_walks_from_first_to_last() {
    let s = session();
    let (step, action) = s.run_scan(ScanStep::Begin { id: FIRST_SCAN_ID }, false, 0);
    assert_eq!(step, ScanStep::Await { id: 0x0200 });
    match action {
        ScanAction::Exchange { packet } => {
            assert_eq!(packet, sealed(&s, 0x11, 0x0200, &[(0xA1, &[0x21])]));
        }
        _ => panic!("no probe"),
    }
    let (step, action) = s.run_scan(step, true, 0);
    assert_eq!(step, ScanStep::Await { id: 0x0200 });
    assert!(matches!(action, ScanAction::Collect));
    let (step, action) = s.run_scan(step, false, 0);
    assert_eq!(step, ScanStep::Begin { id: 0x0201 });
    assert!(matches!(action, ScanAction::Proceed));
    let (step, action) = s.run_scan(step, false, 10);
    assert_eq!(step, ScanStep::Probe { id: 0x0201 });
    assert!(matches!(action, ScanAction::Keepalive));
    let (step, action) = s.run_scan(step, false, 10);
    assert_eq!(step, ScanStep::Await { id: 0x0201 });
    assert!(matches!(action, ScanAction::Exchange { .. }));
    let (step, action) = s.run_scan(ScanStep::Await { id: 0xFFFF }, false, 0);
    assert_eq!(step, ScanStep::Finished);
    assert!(matches!(action, ScanAction::Complete));
}

#[test]
fn scan_tries_every_id_once() {
    let s = session();
    let mut step = ScanStep::Begin { id: FIRST_SCAN_ID };
    let mut tried: u32 = 0;
    loop {
        let (next, action) = s.run_scan(step, false, 0);
        step = next;
        match action {
            ScanAction::Exchange { .. } => {
                assert_eq!(step, ScanStep::Await { id: (0x0200 + tried) as u16 });
                tried += 1;
            }
            ScanAction::Complete => break,
            _ => {}
        }
    }
    assert_eq!(tried, 0x10000 - 0x0200);
}

#[test]
fn scan_without_a_key_is_given_up() {
    let s = DeviceSession::new(false);
    let (step, action) = s.run_scan(ScanStep::Probe { id: 0x0200 }, false, 0);
    assert_eq!(step, ScanStep::Failed { error: SessionError::CryptoNotReady });
    assert!(matches!(action, ScanAction::Abort { error: SessionError::CryptoNotReady }));
}

#[test]
fn scan_responses_are_opened() {
    let s = session();
    assert!(s.scan_response(vec![0; 8]).is_none());
    let plain = s.scan_response(vec![0, 0, 0, 0, 0, 0, 0, 0x0A, 0x05]).unwrap();
    assert_eq!(plain.cmd, 0x0205);
    assert!(plain.plain.is_empty());
    let raw = sealed(&s, 0x11, 0x0205, &[(0xA1, &[0x77])]);
    let hit = s.scan_response(raw.clone()).unwrap();
    assert_eq!(hit.cmd, 0x0205);
    assert_eq!(hit.plain, build_tlv(&[(0xA1, &[0x77])]));
    assert_eq!(hit.raw, raw);
    let unopened = DeviceSession::new(false).scan_response(raw).unwrap();
    assert!(unopened.plain.is_empty());
    let bad = s.scan_response(vec![0, 0, 0, 0, 0, 0, 0, 0x42, 0x05, 1, 2, 3]).unwrap();
    assert!(bad.plain.is_empty());
}

#[test]
fn scan_hits_take_what_was_opened() {
    let raw = vec![0, 0, 0, 0, 0, 0, 0, 0x42, 0x05, 1];
    assert_eq!(scan_hit(raw.clone(), Some(Ok(vec![5]))).unwrap().plain, vec![5]);
    assert!(scan_hit(raw, None).unwrap().plain.is_empty());
    let unencrypted = vec![0, 0, 0, 0, 0, 0, 0, 0x02, 0x05, 1];
    assert!(scan_hit(unencrypted, Some(Ok(vec![5]))).unwrap().plain.is_empty());
    assert!(scan_hit(vec![0; 8], Some(Ok(vec![5]))).is_none());
}
