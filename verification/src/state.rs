//! What is known of the device.
use std::time::{Duration, Instant, UNIX_EPOCH};
use vstd::prelude::*;

use crate::text::push_padded;

verus! {

use crate::text::{digit_char, padded_digits};

// ---------------------------------------------------------------------------
// Connection mode
// ---------------------------------------------------------------------------

/// Which way power flows.
#[derive(Debug, Clone, Copy, PartialEq, Eq, Structural)]
pub enum ConnectionMode {
    NotConnected,
    Output,
    Input,
}

/// The mode that a mode byte stands for.
pub open spec fn mode_of(b: u8) -> ConnectionMode {
    if b == 1 {
        ConnectionMode::Output
    } else if b == 2 {
        ConnectionMode::Input
    } else {
        ConnectionMode::NotConnected
    }
}

/// The label of a mode.
pub open spec fn mode_label(mode: ConnectionMode) -> Seq<char> {
    match mode {
        ConnectionMode::NotConnected => "Not Connected"@,
        ConnectionMode::Output => "Output"@,
        ConnectionMode::Input => "Input"@,
    }
}

impl Default for ConnectionMode {
    fn default() -> (r: Self)
        ensures
            r == ConnectionMode::NotConnected,
    {
        ConnectionMode::NotConnected
    }
}

impl ConnectionMode {
    /// The mode that a mode byte stands for.
    pub fn from_byte(b: u8) -> (r: Self)
        ensures
            r == mode_of(b),
            r is Output <==> b == 1,
            r is Input <==> b == 2,
    {
        match b {
            1 => ConnectionMode::Output,
            2 => ConnectionMode::Input,
            _ => ConnectionMode::NotConnected,
        }
    }

    /// The label of the mode.
    pub fn as_str(&self) -> (r: &'static str)
        ensures
            r@ == mode_label(*self),
            *self is NotConnected ==> r@ == "Not Connected"@,
            *self is Output ==> r@ == "Output"@,
            *self is Input ==> r@ == "Input"@,
    {
        match self {
            ConnectionMode::NotConnected => "Not Connected",
            ConnectionMode::Output => "Output",
            ConnectionMode::Input => "Input",
        }
    }
}

// ---------------------------------------------------------------------------
// Ports, channels, device, phase
// ---------------------------------------------------------------------------

/// A USB port. Readings are the integers that the device reports.
#[derive(Debug, Clone, Copy)]
pub struct PortState {
    pub name: &'static str,
    pub mode: ConnectionMode,
    pub millivolts: u16,
    pub milliamps: u16,
    pub centiwatts: u16,
}

/// A power channel. Readings are the integers that the device reports.
#[derive(Debug, Clone, Copy)]
pub struct ChannelState {
    pub name: &'static str,
    pub mode: ConnectionMode,
    pub centivolts: u16,
    pub centiamps: u16,
    pub max_centivolts: u16,
    pub max_centiamps: u16,
    pub max_deciwatts: u16,
}

/// A port of which nothing is known yet.
pub open spec fn idle_port(name: &'static str) -> PortState {
    PortState {
        name,
        mode: ConnectionMode::NotConnected,
        millivolts: 0,
        milliamps: 0,
        centiwatts: 0,
    }
}

/// A channel of which nothing is known yet.
pub open spec fn idle_channel(name: &'static str) -> ChannelState {
    ChannelState {
        name,
        mode: ConnectionMode::NotConnected,
        centivolts: 0,
        centiamps: 0,
        max_centivolts: 0,
        max_centiamps: 0,
        max_deciwatts: 0,
    }
}

impl PortState {
    /// A port of which nothing is known yet.
    pub fn named(name: &'static str) -> (r: Self)
        ensures
            r == idle_port(name),
            r.name == name,
            r.mode == ConnectionMode::NotConnected,
            r.millivolts == 0 && r.milliamps == 0 && r.centiwatts == 0,
    {
        PortState {
            name,
            mode: ConnectionMode::NotConnected,
            millivolts: 0,
            milliamps: 0,
            centiwatts: 0,
        }
    }
}

impl Default for PortState {
    fn default() -> (r: Self)
        ensures
            r == idle_port(""),
    {
        PortState::named("")
    }
}

impl ChannelState {
    /// A channel of which nothing is known yet.
    pub fn named(name: &'static str) -> (r: Self)
        ensures
            r == idle_channel(name),
            r.name == name,
            r.mode == ConnectionMode::NotConnected,
            r.centivolts == 0 && r.centiamps == 0 && r.max_centivolts == 0,
            r.max_centiamps == 0 && r.max_deciwatts == 0,
    {
        ChannelState {
            name,
            mode: ConnectionMode::NotConnected,
            centivolts: 0,
            centiamps: 0,
            max_centivolts: 0,
            max_centiamps: 0,
            max_deciwatts: 0,
        }
    }
}

impl Default for ChannelState {
    fn default() -> (r: Self)
        ensures
            r == idle_channel(""),
    {
        ChannelState::named("")
    }
}

/// Who the device is.
#[derive(Debug)]
pub struct DeviceInfo {
    pub serial: String,
    pub firmware: String,
    pub mac: String,
}

/// What `DeviceInfo` stands for.
pub struct InfoView {
    pub serial: Seq<char>,
    pub firmware: Seq<char>,
    pub mac: Seq<char>,
}

impl View for DeviceInfo {
    type V = InfoView;

    open spec fn view(&self) -> InfoView {
        InfoView { serial: self.serial@, firmware: self.firmware@, mac: self.mac@ }
    }
}

/// A device of which nothing is known yet.
pub open spec fn unknown_device() -> InfoView {
    InfoView { serial: Seq::empty(), firmware: Seq::empty(), mac: Seq::empty() }
}

impl Default for DeviceInfo {
    fn default() -> (r: Self)
        ensures
            r@ == unknown_device(),
            r.serial@.len() == 0 && r.firmware@.len() == 0 && r.mac@.len() == 0,
    {
        DeviceInfo { serial: String::new(), firmware: String::new(), mac: String::new() }
    }
}

impl Clone for DeviceInfo {
    fn clone(&self) -> (r: Self)
        ensures
            r@ == self@,
            r.serial@ == self.serial@,
            r.firmware@ == self.firmware@,
            r.mac@ == self.mac@,
    {
        DeviceInfo {
            serial: self.serial.clone(),
            firmware: self.firmware.clone(),
            mac: self.mac.clone(),
        }
    }
}

/// How far the session has come.
#[derive(Debug, Clone, Copy, PartialEq, Eq, Structural)]
pub enum SessionPhase {
    Inactive,
    Connecting,
    Handshake,
    Session,
    Error,
}

/// The label of a phase.
pub open spec fn phase_label(phase: SessionPhase) -> Seq<char> {
    match phase {
        SessionPhase::Inactive => "INACTIVE"@,
        SessionPhase::Connecting => "CONNECTING"@,
        SessionPhase::Handshake => "HANDSHAKE"@,
        SessionPhase::Session => "SESSION"@,
        SessionPhase::Error => "ERROR"@,
    }
}

impl Default for SessionPhase {
    fn default() -> (r: Self)
        ensures
            r == SessionPhase::Inactive,
    {
        SessionPhase::Inactive
    }
}

impl SessionPhase {
    /// The label of the phase.
    pub fn as_str(&self) -> (r: &'static str)
        ensures
            r@ == phase_label(*self),
            *self is Inactive ==> r@ == "INACTIVE"@,
            *self is Connecting ==> r@ == "CONNECTING"@,
            *self is Handshake ==> r@ == "HANDSHAKE"@,
            *self is Session ==> r@ == "SESSION"@,
            *self is Error ==> r@ == "ERROR"@,
    {
        match self {
            SessionPhase::Inactive => "INACTIVE",
            SessionPhase::Connecting => "CONNECTING",
            SessionPhase::Handshake => "HANDSHAKE",
            SessionPhase::Session => "SESSION",
            SessionPhase::Error => "ERROR",
        }
    }
}

// ---------------------------------------------------------------------------
// Dashboard state
// ---------------------------------------------------------------------------

/// Names of the USB ports, by index.
pub const PORT_NAMES: [&'static str; 6] = [
    "USB-C1", "USB-C2", "USB-C3", "USB-C4", "USB-A1", "USB-A2",
];

/// Names of the power channels, by index.
pub const CHANNEL_NAMES: [&'static str; 5] = ["PWR-1", "PWR-2", "PWR-3", "PWR-4", "PWR-5"];

/// All that is known of the device and of the session with it.
#[derive(Debug)]
pub struct DashboardState {
    pub session_phase: SessionPhase,
    pub device_status: u8,
    pub temperature: i32,
    pub device_ts: u32,
    pub last_update: Option<Instant>,
    pub device_info: DeviceInfo,
    pub error: Option<String>,
    /// USB ports: indices 0–5 → USB-C1..C4, USB-A1..A2
    pub ports: [PortState; 6],
    /// Power channels: indices 0–4 → PWR-1..5
    pub channels: [ChannelState; 5],
}

/// What `DashboardState` stands for.
#[verifier::ext_equal]
pub struct DashboardView {
    pub session_phase: SessionPhase,
    pub device_status: u8,
    pub temperature: i32,
    pub device_ts: u32,
    pub last_update: Option<Instant>,
    pub device_info: InfoView,
    pub error: Option<Seq<char>>,
    pub ports: Seq<PortState>,
    pub channels: Seq<ChannelState>,
}

/// The text of an optional string.
pub open spec fn text_of(s: Option<String>) -> Option<Seq<char>> {
    match s {
        Some(t) => Some(t@),
        None => None,
    }
}

impl View for DashboardState {
    type V = DashboardView;

    open spec fn view(&self) -> DashboardView {
        DashboardView {
            session_phase: self.session_phase,
            device_status: self.device_status,
            temperature: self.temperature,
            device_ts: self.device_ts,
            last_update: self.last_update,
            device_info: self.device_info@,
            error: text_of(self.error),
            ports: self.ports@,
            channels: self.channels@,
        }
    }
}

/// The state before anything has been heard from the device.
pub open spec fn initial_dashboard() -> DashboardView {
    DashboardView {
        session_phase: SessionPhase::Inactive,
        device_status: 0,
        temperature: 0,
        device_ts: 0,
        last_update: None,
        device_info: unknown_device(),
        error: None,
        ports: Seq::new(6, |i: int| idle_port(PORT_NAMES@[i])),
        channels: Seq::new(5, |i: int| idle_channel(CHANNEL_NAMES@[i])),
    }
}

impl Default for DashboardState {
    fn default() -> (r: Self)
        ensures
            r@ == initial_dashboard(),
            r.session_phase == SessionPhase::Inactive,
            r.device_status == 0 && r.temperature == 0 && r.device_ts == 0,
            r.last_update is None,
            r.error is None,
            r.device_info.serial@.len() == 0,
            r.device_info.firmware@.len() == 0,
            r.device_info.mac@.len() == 0,
            forall|i: int|
                0 <= i < 6 ==> (#[trigger] r.ports@[i]).name == PORT_NAMES@[i] && r.ports@[i].mode
                    == ConnectionMode::NotConnected && r.ports@[i].millivolts == 0
                    && r.ports@[i].milliamps == 0 && r.ports@[i].centiwatts == 0,
            forall|i: int|
                0 <= i < 5 ==> (#[trigger] r.channels@[i]).name == CHANNEL_NAMES@[i]
                    && r.channels@[i].mode == ConnectionMode::NotConnected
                    && r.channels@[i].centivolts == 0 && r.channels@[i].centiamps == 0
                    && r.channels@[i].max_centivolts == 0 && r.channels@[i].max_centiamps == 0
                    && r.channels@[i].max_deciwatts == 0,
    {
        let r = DashboardState {
            session_phase: SessionPhase::Inactive,
            device_status: 0,
            temperature: 0,
            device_ts: 0,
            last_update: None,
            device_info: DeviceInfo {
                serial: String::new(),
                firmware: String::new(),
                mac: String::new(),
            },
            error: None,
            ports: [
                PortState::named(PORT_NAMES[0]),
                PortState::named(PORT_NAMES[1]),
                PortState::named(PORT_NAMES[2]),
                PortState::named(PORT_NAMES[3]),
                PortState::named(PORT_NAMES[4]),
                PortState::named(PORT_NAMES[5]),
            ],
            channels: [
                ChannelState::named(CHANNEL_NAMES[0]),
                ChannelState::named(CHANNEL_NAMES[1]),
                ChannelState::named(CHANNEL_NAMES[2]),
                ChannelState::named(CHANNEL_NAMES[3]),
                ChannelState::named(CHANNEL_NAMES[4]),
            ],
        };
        assert(r@ =~= initial_dashboard());
        r
    }
}

impl Clone for DashboardState {
    fn clone(&self) -> (r: Self)
        ensures
            r@ == self@,
            r.session_phase == self.session_phase,
            r.device_status == self.device_status,
            r.temperature == self.temperature,
            r.device_ts == self.device_ts,
            r.last_update == self.last_update,
            r.device_info.serial@ == self.device_info.serial@,
            r.device_info.firmware@ == self.device_info.firmware@,
            r.device_info.mac@ == self.device_info.mac@,
            r.error is Some <==> self.error is Some,
            r.error matches Some(e) ==> e@ == self.error->0@,
            r.ports@ == self.ports@,
            r.channels@ == self.channels@,
    {
        DashboardState {
            session_phase: self.session_phase,
            device_status: self.device_status,
            temperature: self.temperature,
            device_ts: self.device_ts,
            last_update: self.last_update,
            device_info: self.device_info.clone(),
            error: match &self.error {
                Some(e) => Some(e.clone()),
                None => None,
            },
            ports: self.ports,
            channels: self.channels,
        }
    }
}

/// `HH:MM:SS` for a second of the day.
pub open spec fn clock_text(second_of_day: int) -> Seq<char> {
    padded_digits((second_of_day / 3600) as nat, 2) + seq![':'] + padded_digits(
        (second_of_day / 60 % 60) as nat,
        2,
    ) + seq![':'] + padded_digits((second_of_day % 60) as nat, 2)
}

/// The time of day at `ts` seconds since the Unix epoch, in a zone that is `offset` seconds
/// ahead of UTC.
pub open spec fn zone_clock(ts: u32, offset: int) -> Seq<char> {
    clock_text((ts + offset) % 86400)
}

/// The clock of the device in a zone that is `offset` seconds ahead of UTC: a dash before it is
/// known, then the time of day.
pub open spec fn device_clock(ts: u32, offset: int) -> Seq<char> {
    if ts == 0 {
        "—"@
    } else {
        zone_clock(ts, offset)
    }
}

/// How far a zone can be ahead of UTC or behind it.
pub open spec fn is_zone_offset(offset: int) -> bool {
    -86400 < offset < 86400
}

/// Calls chrono's conversion of a system time to `DateTime<Local>` and hands out the offset of
/// the machine's zone at that time, in seconds ahead of UTC. Claimed of it: the offset is less
/// than a day. Which zone the machine is in is left open.
#[verifier::external_body]
fn local_offset(ts: u32) -> (offset: i32)
    ensures
        is_zone_offset(offset as int),
{
    let dt: chrono::DateTime<chrono::Local> = (UNIX_EPOCH + Duration::from_secs(ts as u64)).into();
    dt.offset().local_minus_utc()
}

/// The time of day at `ts` seconds since the Unix epoch, in a zone that is `offset` seconds ahead
/// of UTC.
pub fn clock_str(ts: u32, offset: i32) -> (r: String)
    requires
        is_zone_offset(offset as int),
    ensures
        r@ == zone_clock(ts, offset as int),
{
    // A day more keeps the sum from getting negative.
    let second: u64 = ((ts as i64 + offset as i64 + 86400) % 86400) as u64;
    assert(second == (ts + offset) % 86400);
    let mut r = String::new();
    push_padded(&mut r, second / 3600, 2);
    r.push(':');
    push_padded(&mut r, second / 60 % 60, 2);
    r.push(':');
    push_padded(&mut r, second % 60, 2);
    assert(r@ =~= zone_clock(ts, offset as int));
    r
}

impl DashboardState {
    /// Format the device timestamp as HH:MM:SS in a zone that is `offset` seconds ahead of UTC,
    /// or "—" if not yet set.
    pub fn device_ts_str_at(&self, offset: i32) -> (r: String)
        requires
            is_zone_offset(offset as int),
        ensures
            r@ == device_clock(self.device_ts, offset as int),
            self.device_ts == 0 ==> r@ == "—"@,
            self.device_ts != 0 ==> ({
                let second = (self.device_ts + offset) % 86400;
                is_time_of_day(r@, second / 3600, second / 60 % 60, second % 60)
            }),
    {
        proof {
            law_clock_shows_time_of_day(self.device_ts, offset as int);
        }
        if self.device_ts == 0 {
            return "—".to_string();
        }
        clock_str(self.device_ts, offset)
    }

    /// The offset of the machine's zone at the time of the device.
    pub(crate) fn zone_offset(&self) -> (offset: i32)
        ensures
            is_zone_offset(offset as int),
    {
        local_offset(self.device_ts)
    }

    /// Format the device timestamp as HH:MM:SS in the machine's zone, or "—" if not yet set.
    pub fn device_ts_str(&self) -> (r: String)
        ensures
            exists|offset: int|
                is_zone_offset(offset) && r@ == #[trigger] device_clock(self.device_ts, offset),
    {
        self.device_ts_str_at(self.zone_offset())
    }
}

// ---------------------------------------------------------------------------
// Laws
// ---------------------------------------------------------------------------

/// The two decimal digits of a number below a hundred.
pub open spec fn two_digits(n: int) -> Seq<char> {
    seq![digit_char(n / 10), digit_char(n % 10)]
}

/// `text` is the time of day with these hours, minutes and seconds.
pub open spec fn is_time_of_day(text: Seq<char>, h: int, m: int, s: int) -> bool {
    &&& 0 <= h < 24
    &&& 0 <= m < 60
    &&& 0 <= s < 60
    &&& text == two_digits(h) + seq![':'] + two_digits(m) + seq![':'] + two_digits(s)
}

proof fn lemma_two_digits(n: nat)
    requires
        n < 100,
    ensures
        padded_digits(n, 2) == two_digits(n as int),
{
    reveal_with_fuel(padded_digits, 3);
    assert(padded_digits(n, 2) =~= two_digits(n as int));
}

/// The clock shows hours, minutes and seconds of the second of the day that the timestamp falls
/// on in its zone.
pub proof fn law_clock_shows_time_of_day(ts: u32, offset: int)
    ensures
        ({
            let second = (ts + offset) % 86400;
            is_time_of_day(zone_clock(ts, offset), second / 3600, second / 60 % 60, second % 60)
        }),
        zone_clock(ts, offset).len() == 8,
{
    let second = (ts + offset) % 86400;
    lemma_two_digits((second / 3600) as nat);
    lemma_two_digits((second / 60 % 60) as nat);
    lemma_two_digits((second % 60) as nat);
}

/// The clock of the device is a dash if and only if its time is not known.
pub proof fn law_dash_stands_for_unknown_time(ts: u32, offset: int)
    ensures
        device_clock(ts, offset) == "—"@ <==> ts == 0,
{
    reveal_strlit("—");
    law_clock_shows_time_of_day(ts, offset);
}

/// In one zone two timestamps show the same time of day if and only if they are whole days apart.
pub proof fn law_clock_tells_times_apart(a: u32, b: u32, offset: int)
    ensures
        zone_clock(a, offset) == zone_clock(b, offset) <==> (a - b) % 86400 == 0,
{
    let x = (a + offset) % 86400;
    let y = (b + offset) % 86400;
    assert(x == y <==> (a - b) % 86400 == 0);
    law_clock_shows_time_of_day(a, offset);
    law_clock_shows_time_of_day(b, offset);
    if zone_clock(a, offset) == zone_clock(b, offset) {
        let t = zone_clock(a, offset);
        lemma_time_of_day_is_unique(
            t,
            x / 3600,
            x / 60 % 60,
            x % 60,
            y / 3600,
            y / 60 % 60,
            y % 60,
        );
        assert(x == 3600 * (x / 3600) + 60 * (x / 60 % 60) + x % 60);
        assert(y == 3600 * (y / 3600) + 60 * (y / 60 % 60) + y % 60);
    }
}

proof fn lemma_time_of_day_is_unique(
    text: Seq<char>,
    h: int,
    m: int,
    s: int,
    h2: int,
    m2: int,
    s2: int,
)
    requires
        is_time_of_day(text, h, m, s),
        is_time_of_day(text, h2, m2, s2),
    ensures
        h == h2 && m == m2 && s == s2,
{
    let a = two_digits(h) + seq![':'] + two_digits(m) + seq![':'] + two_digits(s);
    let b = two_digits(h2) + seq![':'] + two_digits(m2) + seq![':'] + two_digits(s2);
    assert(a[0] == digit_char(h / 10) && a[1] == digit_char(h % 10));
    assert(a[3] == digit_char(m / 10) && a[4] == digit_char(m % 10));
    assert(a[6] == digit_char(s / 10) && a[7] == digit_char(s % 10));
    assert(b[0] == digit_char(h2 / 10) && b[1] == digit_char(h2 % 10));
    assert(b[3] == digit_char(m2 / 10) && b[4] == digit_char(m2 % 10));
    assert(b[6] == digit_char(s2 / 10) && b[7] == digit_char(s2 % 10));
}

} // verus!
