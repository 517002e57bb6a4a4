use ankerstatus::protocol::{build_encrypted_payload, build_payload, frame_packet};
use ankerstatus::report::get_status;
use ankerstatus::screen::{
    channel_row, is_quit, mode_style, port_row, render, render_at, Key, RowStyle, BORDER_ROWS,
    CHANNELS_HEIGHT, CHANNEL_HEADERS, CHANNEL_WIDTHS, HEAD_ROWS, PORTS_HEIGHT, PORT_HEADERS,
    PORT_WIDTHS,
};
use ankerstatus::session::scan::ScanHit;
use ankerstatus::session::{Received, RecvEvent, Route};
use ankerstatus::state::{
    clock_str, ChannelState, ConnectionMode, DashboardState, DeviceInfo, PortState, SessionPhase,
    CHANNEL_NAMES, PORT_NAMES,
};
use ankerstatus::text::{
    chars_of, digit, fixed_with_unit, push_decimal, push_fixed, push_hex_word, push_padded,
    push_signed,
};
use ankerstatus::trace::{
    trace_command, trace_encrypted_sent, trace_hit, trace_identity, trace_identity_of,
    trace_plain_sent, trace_received, trace_scan_end,
};

fn port() -> PortState {
    PortState {
        mode: ConnectionMode::Output,
        millivolts: 5000,
        milliamps: 123,
        centiwatts: 65535,
        ..PortState::named("USB-C1")
    }
}

fn channel() -> ChannelState {
    ChannelState {
        mode: ConnectionMode::Input,
        centivolts: 1205,
        centiamps: 7,
        max_centivolts: 6000,
        max_centiamps: 500,
        max_deciwatts: 1001,
        ..ChannelState::named("PWR-1")
    }
}

#[test]
fn numbers_as_text() {
    let mut s = String::new();
    push_decimal(&mut s, 0);
    s.push(' ');
    push_decimal(&mut s, u64::MAX);
    s.push(' ');
    push_signed(&mut s, i64::MIN);
    s.push(' ');
    push_signed(&mut s, 42);
    s.push(' ');
    push_padded(&mut s, 1234, 3);
    s.push(' ');
    push_hex_word(&mut s, 0x0AF0);
    s.push(' ');
    push_fixed(&mut s, 5, 3);
    assert_eq!(s, "0 18446744073709551615 -9223372036854775808 42 234 0AF0 0.005");
    assert_eq!(digit(9), '9');
    assert_eq!(digit(15), 'F');
    assert_eq!(chars_of("aé—"), vec!['a', 'é', '—']);
}

#[test]
fn fixed_point_agrees_with_floating_point() {
    for n in 0..=u16::MAX {
        assert_eq!(fixed_with_unit(n, 3, " V"), format!("{:.3} V", n as f32 / 1000.0));
        assert_eq!(fixed_with_unit(n, 2, " W"), format!("{:.2} W", n as f32 / 100.0));
        assert_eq!(fixed_with_unit(n, 1, ""), format!("{:.1}", n as f32 / 10.0));
    }
}

#[test]
fn default_state() {
    let state = DashboardState::default();
    assert_eq!(state.session_phase, SessionPhase::Inactive);
    assert_eq!(state.ports.iter().map(|p| p.name).collect::<Vec<_>>(), PORT_NAMES);
    assert_eq!(state.channels.iter().map(|c| c.name).collect::<Vec<_>>(), CHANNEL_NAMES);
    assert!(state.ports.iter().all(|p| p.mode == ConnectionMode::default()));
    assert_eq!(PortState::default().name, "");
    assert_eq!(ChannelState::default().max_deciwatts, 0);
    assert_eq!(SessionPhase::default(), SessionPhase::Inactive);
    assert!(state.last_update.is_none());
}

#[test]
fn labels() {
    assert_eq!(ConnectionMode::from_byte(0).as_str(), "Not Connected");
    assert_eq!(ConnectionMode::from_byte(1).as_str(), "Output");
    assert_eq!(ConnectionMode::from_byte(2).as_str(), "Input");
    assert_eq!(ConnectionMode::from_byte(3).as_str(), "Not Connected");
    assert_eq!(SessionPhase::Inactive.as_str(), "INACTIVE");
    assert_eq!(SessionPhase::Connecting.as_str(), "CONNECTING");
    assert_eq!(SessionPhase::Handshake.as_str(), "HANDSHAKE");
    assert_eq!(SessionPhase::Session.as_str(), "SESSION");
    assert_eq!(SessionPhase::Error.as_str(), "ERROR");
}

#[test]
fn device_clock() {
    let mut state = DashboardState::default();
    assert_eq!(state.device_ts_str(), "—");
    state.device_ts = 1_700_000_005;
    let text = state.device_ts_str();
    assert_eq!(text.len(), 8);
    assert_eq!(&text[2..3], ":");
    assert_eq!(&text[5..], ":25");
    let local = chrono::DateTime::from_timestamp(1_700_000_005, 0)
        .unwrap()
        .with_timezone(&chrono::Local);
    assert_eq!(text, local.format("%H:%M:%S").to_string());
    assert_eq!(state.device_ts_str_at(0), "22:13:25");
    assert_eq!(state.device_ts_str_at(3600), "23:13:25");
    assert_eq!(state.device_ts_str_at(7200), "00:13:25");
    state.device_ts = 0;
    assert_eq!(state.device_ts_str_at(3600), "—");
}

#[test]
fn clocks_in_zones() {
    assert_eq!(clock_str(1, -2), "23:59:59");
    assert_eq!(clock_str(0, 86399), "23:59:59");
    assert_eq!(clock_str(0, -86399), "00:00:01");
    assert_eq!(clock_str(86400 + 3661, 0), "01:01:01");
    assert_eq!(clock_str(u32::MAX, 0), "06:28:15");
}

#[test]
fn clones_are_equal() {
    let mut state = DashboardState::default();
    state.error = Some("broken".to_string());
    state.device_info.serial = "SN".to_string();
    state.ports[2] = port();
    let copy = state.clone();
    assert_eq!(copy.error.as_deref(), Some("broken"));
    assert_eq!(copy.device_info.serial, "SN");
    assert_eq!(copy.ports[2].millivolts, 5000);
}

#[test]
fn rows_of_ports() {
    let row = port_row(&port());
    assert_eq!(row.cells, vec!["USB-C1", "Output", "5.000 V", "0.123 A", "655.35 W"]);
    assert_eq!(row.style, RowStyle::Green);
    let row = port_row(&PortState { millivolts: 9, ..PortState::named("USB-A1") });
    assert_eq!(row.cells, vec!["USB-A1", "Not Connected", "", "", ""]);
    assert_eq!(row.style, RowStyle::DimGray);
    assert_eq!(PORT_HEADERS.len(), row.cells.len());
    assert_eq!(PORT_WIDTHS.len(), row.cells.len());
}

#[test]
fn rows_of_channels() {
    let row = channel_row(&channel());
    assert_eq!(
        row.cells,
        vec!["PWR-1", "Input", "12.05 V", "0.07 A", "60.00", "5.00", "100.1"]
    );
    assert_eq!(row.style, RowStyle::Yellow);
    let row = channel_row(&ChannelState::named("PWR-5"));
    assert_eq!(row.cells, vec!["PWR-5", "Not Connected", "", "", "", "", ""]);
    assert_eq!(mode_style(&ConnectionMode::NotConnected), RowStyle::DimGray);
    assert_eq!(CHANNEL_HEADERS.len(), row.cells.len());
    assert_eq!(CHANNEL_WIDTHS.len(), row.cells.len());
}

#[test]
fn screen_of_a_new_session() {
    let screen = render(&DashboardState::default(), "AA:BB", None);
    assert_eq!(screen.title, " Anker BLE Dashboard   ID: AA:BB   SN: —   FW: —   [INACTIVE] ");
    assert_eq!(screen.bar, "  Status: 0x00   Temp: 0°C   Device ts: —   Last update: —");
    assert!(!screen.bar_is_error);
    assert_eq!(screen.ports.len(), 6);
    assert_eq!(screen.channels.len(), 5);
    assert_eq!(PORTS_HEIGHT as usize, (BORDER_ROWS + HEAD_ROWS) as usize + screen.ports.len());
    assert_eq!(
        CHANNELS_HEIGHT as usize,
        (BORDER_ROWS + HEAD_ROWS) as usize + screen.channels.len()
    );
    assert_eq!(PORTS_HEIGHT, 9);
}

#[test]
fn screen_of_a_running_session() {
    let mut state = DashboardState::default();
    state.session_phase = SessionPhase::Session;
    state.device_info = DeviceInfo {
        serial: "SN1".to_string(),
        firmware: "v2".to_string(),
        mac: String::new(),
    };
    state.device_status = 0xAB;
    state.temperature = -5;
    state.device_ts = 12 * 3600 + 34 * 60 + 56;
    let screen = render_at(&state, "id", 0, Some("1.5s ago"));
    assert_eq!(screen.title, " Anker BLE Dashboard   ID: id   SN: SN1   FW: v2   [SESSION] ");
    assert_eq!(
        screen.bar,
        "  Status: 0xAB   Temp: -5°C   Device ts: 12:34:56   Last update: 1.5s ago"
    );
    state.error = Some("lost".to_string());
    let screen = render_at(&state, "id", 0, Some("1.5s ago"));
    assert_eq!(screen.bar, "  ERROR: lost");
    assert!(screen.bar_is_error);
}

#[test]
fn keys_that_quit() {
    assert!(is_quit(Key::Char { c: 'q' }));
    assert!(is_quit(Key::Char { c: 'Q' }));
    assert!(is_quit(Key::Esc));
    assert!(!is_quit(Key::Char { c: 'x' }));
    assert!(!is_quit(Key::Other));
}

#[test]
fn status_report() {
    let mut state = DashboardState::default();
    state.session_phase = SessionPhase::Handshake;
    state.device_status = 3;
    state.temperature = 21;
    state.device_ts = 77;
    state.device_info.mac = "01:02".to_string();
    state.error = Some("e".to_string());
    state.ports[0] = port();
    state.channels[4] = channel();
    let r = get_status(&state);
    assert_eq!(r.session_phase, "HANDSHAKE");
    assert_eq!((r.device_status, r.temperature, r.device_ts), (3, 21, 77));
    assert_eq!(r.device_info.mac, "01:02");
    assert_eq!(r.error.as_deref(), Some("e"));
    assert!(r.last_update.is_none());
    assert_eq!(r.ports.len(), 6);
    assert_eq!(r.channels.len(), 5);
    assert_eq!(r.ports[0].mode, "Output");
    assert_eq!(r.ports[0].milliamps, 123);
    assert_eq!(r.ports[1].name, "USB-C2");
    assert_eq!(r.channels[4].max_deciwatts, 1001);
    assert_eq!(r.channels[4].mode, "Input");
}

#[test]
fn traces_of_sent_packets() {
    assert_eq!(
        trace_plain_sent(0x4001, &[0xFF, 0x09]),
        vec!["\n→ SEND cmd=0x0001", "  Packet: FF09"]
    );
    assert_eq!(
        trace_encrypted_sent(0x020A, &[0x01]),
        vec!["\n→ SEND cmd=0x020A (encrypted)", "  Packet: 01"]
    );
}

#[test]
fn traces_of_received_packets() {
    let got = |content: Vec<u8>, event| Received { content, event };
    assert_eq!(
        trace_received(&[1], &got(vec![1], RecvEvent::NotAPacket)),
        vec!["\n← RECV  raw=01"]
    );
    let raw = frame_packet(&build_payload(0x01, 0x0829, &[]));
    assert_eq!(
        trace_received(&raw, &got(vec![], RecvEvent::Plain)),
        vec!["\n← RECV  raw=FF090A000300010829DF", "  cmd=0x0029  flags=[ACK]  pattern=030001"]
    );
    let raw = frame_packet(&build_encrypted_payload(0x0F, 0x0822, &[]));
    let lines = trace_received(&raw, &got(vec![], RecvEvent::NoKey));
    assert_eq!(lines[1], "  cmd=0x0022  flags=[ENC|ACK]  pattern=03000F");
    assert_eq!(lines[2], "  [DECRYPT_ERROR] No key available");
    let event = RecvEvent::Decrypted { ciphertext_len: 16, route: Route::NewSessionKey };
    let lines = trace_received(&raw, &got(vec![0xAB], event));
    assert_eq!(lines[2..], ["  Decrypted: AB", "  ✓ Session key active"]);
    let event = RecvEvent::Decrypted { ciphertext_len: 16, route: Route::ReusedInitialKey };
    let lines = trace_received(&raw, &got(vec![], event));
    assert_eq!(lines[3], "  ✓ Session active (reusing initial key+IV)");
    let event = RecvEvent::Decrypted { ciphertext_len: 16, route: Route::Unknown };
    let lines = trace_received(&raw, &got(vec![], event));
    assert_eq!(lines[3], "  [unknown cmd=0x0022]");
    let event = RecvEvent::DecryptError { ciphertext_len: 0 };
    let lines = trace_received(&raw, &got(vec![], event));
    assert_eq!(lines[2..], ["  [DECRYPT_ERROR] AES-CBC decrypt error: Error"]);
}

#[test]
fn traces_of_fragments() {
    let raw = frame_packet(&[0x03, 0x01, 0x0F, 0x43, 0x00, 0x12, 0xAA, 0xBB]);
    let buffered = Received { content: vec![], event: RecvEvent::Buffered };
    let lines = trace_received(&raw, &buffered);
    assert_eq!(lines[1], "  cmd=0x0300  flags=[ENC]  pattern=03010F");
    assert_eq!(lines[2..], ["  fragment 1/2 (2 B)", "  buffered — waiting for more"]);
    let event = RecvEvent::Decrypted { ciphertext_len: 32, route: Route::Status };
    let lines = trace_received(&raw, &Received { content: vec![1], event });
    assert_eq!(
        lines[2..],
        ["  fragment 1/2 (2 B)", "  reassembled — 32 B ciphertext", "  Decrypted: 01"]
    );
}

#[test]
fn traces_of_commands_and_hits() {
    assert_eq!(
        trace_command(0, 2, 0x00FE, 0x11),
        "\n─── Command 1/2 0x00FE (group 0x11) ──────────────"
    );
    let hit = ScanHit { cmd: 0x0205, raw: vec![0xFF], plain: vec![] };
    assert_eq!(trace_hit(&hit), vec!["  ★ resp cmd=0x0205 ← FF"]);
    let hit = ScanHit { plain: vec![0x01, 0x02], ..hit };
    assert_eq!(trace_hit(&hit), vec!["  ★ resp cmd=0x0205 ← FF", "      plain: 0102"]);
}

#[test]
fn traces_of_identity_and_scan_end() {
    let info = DeviceInfo {
        serial: "A\\B".to_string(),
        firmware: "v1".to_string(),
        mac: "01:02".to_string(),
    };
    assert_eq!(
        trace_identity(&info, &[0xAB; 16]),
        vec![
            "\n  ✓ Serial: \"A\\\\B\"   FW: \"v1\"   MAC: 01:02".to_string(),
            format!("  Initial IV (S/N padded): {}", "AB".repeat(16)),
        ]
    );
    assert_eq!(
        trace_identity_of("s", "f", "m", &[0; 16])[0],
        "\n  ✓ Serial: s   FW: f   MAC: m"
    );
    assert_eq!(
        trace_scan_end(12, &info),
        vec![
            "\n✓ Probe complete — 12 responses captured",
            "\n  Serial : A\\B\n  FW     : v1\n  MAC    : 01:02",
        ]
    );
}
