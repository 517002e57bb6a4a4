//! What the dashboard shows.
use vstd::prelude::*;

use crate::state::{ChannelState, ConnectionMode, DashboardState, PortState};
use crate::text::{fixed_with_unit, push_hex_byte, push_line, push_signed};

verus! {

use crate::state::{device_clock, is_zone_offset, mode_label, phase_label, DashboardView};
use crate::text::{fixed_text, hex_byte, signed_text, texts_of};

/// The heads of the columns of the port table.
pub const PORT_HEADERS: [&'static str; 5] = ["Port", "Mode", "Voltage", "Current", "Power"];

/// The widths of the columns of the port table.
pub const PORT_WIDTHS: [u16; 5] = [8, 14, 10, 10, 10];

/// The heads of the columns of the channel table.
pub const CHANNEL_HEADERS: [&'static str; 7] = [
    "Channel", "Mode", "Voltage", "Current", "Max V", "Max A", "Max W",
];

/// The widths of the columns of the channel table.
pub const CHANNEL_WIDTHS: [u16; 7] = [10, 14, 9, 9, 7, 7, 8];

/// Rows that the frame of a table takes: the borders above and below.
pub const BORDER_ROWS: u16 = 2;

/// Rows that the heads of the columns take.
pub const HEAD_ROWS: u16 = 1;

/// Height of the port table with its frame.
pub const PORTS_HEIGHT: u16 = 9;

/// Least height of the channel table with its frame.
pub const CHANNELS_HEIGHT: u16 = 8;

/// How a row is coloured.
#[derive(Debug, Clone, Copy, PartialEq, Eq, Structural)]
pub enum RowStyle {
    Green,
    Yellow,
    DimGray,
}

/// The colour of a mode.
pub open spec fn style_of(mode: ConnectionMode) -> RowStyle {
    match mode {
        ConnectionMode::Output => RowStyle::Green,
        ConnectionMode::Input => RowStyle::Yellow,
        ConnectionMode::NotConnected => RowStyle::DimGray,
    }
}

/// The colour of a mode.
pub fn mode_style(mode: &ConnectionMode) -> (r: RowStyle)
    ensures
        r == style_of(*mode),
        r is Green <==> *mode is Output,
        r is Yellow <==> *mode is Input,
{
    match mode {
        ConnectionMode::Output => RowStyle::Green,
        ConnectionMode::Input => RowStyle::Yellow,
        ConnectionMode::NotConnected => RowStyle::DimGray,
    }
}

/// A row of a table.
pub struct TableRow {
    pub cells: Vec<String>,
    pub style: RowStyle,
}

/// What `TableRow` stands for.
#[verifier::ext_equal]
pub struct RowView {
    pub cells: Seq<Seq<char>>,
    pub style: RowStyle,
}

impl View for TableRow {
    type V = RowView;

    open spec fn view(&self) -> RowView {
        RowView { cells: texts_of(self.cells@), style: self.style }
    }
}

/// A reading with `places` digits behind the point and its unit; nothing where the connection
/// is not in use.
pub open spec fn reading(
    mode: ConnectionMode,
    n: u16,
    places: nat,
    unit: Seq<char>,
) -> Seq<char> {
    if mode == ConnectionMode::NotConnected {
        Seq::empty()
    } else {
        fixed_text(n as nat, places) + unit
    }
}

/// The row of a port.
pub open spec fn port_row_of(p: PortState) -> RowView {
    RowView {
        cells: seq![
            p.name@,
            mode_label(p.mode),
            reading(p.mode, p.millivolts, 3, " V"@),
            reading(p.mode, p.milliamps, 3, " A"@),
            reading(p.mode, p.centiwatts, 2, " W"@),
        ],
        style: style_of(p.mode),
    }
}

/// The row of a channel.
pub open spec fn channel_row_of(ch: ChannelState) -> RowView {
    RowView {
        cells: seq![
            ch.name@,
            mode_label(ch.mode),
            reading(ch.mode, ch.centivolts, 2, " V"@),
            reading(ch.mode, ch.centiamps, 2, " A"@),
            reading(ch.mode, ch.max_centivolts, 2, ""@),
            reading(ch.mode, ch.max_centiamps, 2, ""@),
            reading(ch.mode, ch.max_deciwatts, 1, ""@),
        ],
        style: style_of(ch.mode),
    }
}

fn show_reading(mode: ConnectionMode, n: u16, places: u8, unit: &str) -> (r: String)
    requires
        1 <= places <= 3,
    ensures
        r@ == reading(mode, n, places as nat, unit@),
{
    if mode != ConnectionMode::NotConnected {
        fixed_with_unit(n, places, unit)
    } else {
        String::new()
    }
}

/// The row of a port.
pub fn port_row(p: &PortState) -> (r: TableRow)
    ensures
        r@ == port_row_of(*p),
{
    let mut cells: Vec<String> = Vec::new();
    push_line(&mut cells, p.name.to_string());
    push_line(&mut cells, p.mode.as_str().to_string());
    push_line(&mut cells, show_reading(p.mode, p.millivolts, 3, " V"));
    push_line(&mut cells, show_reading(p.mode, p.milliamps, 3, " A"));
    push_line(&mut cells, show_reading(p.mode, p.centiwatts, 2, " W"));
    assert(texts_of(cells@) =~= port_row_of(*p).cells);
    TableRow { cells, style: mode_style(&p.mode) }
}

/// The row of a channel.
pub fn channel_row(ch: &ChannelState) -> (r: TableRow)
    ensures
        r@ == channel_row_of(*ch),
{
    let mut cells: Vec<String> = Vec::new();
    push_line(&mut cells, ch.name.to_string());
    push_line(&mut cells, ch.mode.as_str().to_string());
    push_line(&mut cells, show_reading(ch.mode, ch.centivolts, 2, " V"));
    push_line(&mut cells, show_reading(ch.mode, ch.centiamps, 2, " A"));
    push_line(&mut cells, show_reading(ch.mode, ch.max_centivolts, 2, ""));
    push_line(&mut cells, show_reading(ch.mode, ch.max_centiamps, 2, ""));
    push_line(&mut cells, show_reading(ch.mode, ch.max_deciwatts, 1, ""));
    assert(texts_of(cells@) =~= channel_row_of(*ch).cells);
    TableRow { cells, style: mode_style(&ch.mode) }
}

/// The text, or a dash in place of an empty one.
pub open spec fn or_dash(text: Seq<char>) -> Seq<char> {
    if text.len() == 0 {
        "—"@
    } else {
        text
    }
}

/// The title.
pub open spec fn title_text(d: DashboardView, device_id: Seq<char>) -> Seq<char> {
    " Anker BLE Dashboard   ID: "@ + device_id + "   SN: "@ + or_dash(d.device_info.serial)
        + "   FW: "@ + or_dash(d.device_info.firmware) + "   ["@ + phase_label(d.session_phase)
        + "] "@
}

/// How long ago the last update was, or a dash where there was none.
pub open spec fn updated_text(updated: Option<&str>) -> Seq<char> {
    match updated {
        Some(text) => text@,
        None => "—"@,
    }
}

/// The status bar: the error, if there is one, and otherwise status, temperature, the clock of
/// the device in a zone that is `offset` seconds ahead of UTC, and how long ago the last update
/// was.
pub open spec fn bar_text(d: DashboardView, offset: int, updated: Seq<char>) -> Seq<char> {
    match d.error {
        Some(error) => "  ERROR: "@ + error,
        None => "  Status: 0x"@ + hex_byte(d.device_status) + "   Temp: "@ + signed_text(
            d.temperature as int,
        ) + "°C   Device ts: "@ + device_clock(d.device_ts, offset) + "   Last update: "@ + updated,
    }
}

/// What is shown.
pub struct Screen {
    pub title: String,
    pub bar: String,
    pub bar_is_error: bool,
    pub ports: Vec<TableRow>,
    pub channels: Vec<TableRow>,
}

/// The rows of a table.
pub open spec fn rows_of(rows: Seq<TableRow>) -> Seq<RowView> {
    rows.map_values(|r: TableRow| r@)
}

/// What `Screen` stands for.
#[verifier::ext_equal]
pub struct ScreenView {
    pub title: Seq<char>,
    pub bar: Seq<char>,
    pub bar_is_error: bool,
    pub ports: Seq<RowView>,
    pub channels: Seq<RowView>,
}

impl View for Screen {
    type V = ScreenView;

    open spec fn view(&self) -> ScreenView {
        ScreenView {
            title: self.title@,
            bar: self.bar@,
            bar_is_error: self.bar_is_error,
            ports: rows_of(self.ports@),
            channels: rows_of(self.channels@),
        }
    }
}

/// What is shown of `d` in a zone that is `offset` seconds ahead of UTC, where `updated` tells
/// how long ago the last update was.
pub open spec fn screen_of(
    d: DashboardView,
    device_id: Seq<char>,
    offset: int,
    updated: Seq<char>,
) -> ScreenView {
    ScreenView {
        title: title_text(d, device_id),
        bar: bar_text(d, offset, updated),
        bar_is_error: d.error is Some,
        ports: d.ports.map_values(|p: PortState| port_row_of(p)),
        channels: d.channels.map_values(|ch: ChannelState| channel_row_of(ch)),
    }
}

fn push_or_dash(r: &mut String, text: &str)
    ensures
        final(r)@ == old(r)@ + or_dash(text@),
{
    if text.is_empty() {
        r.append("—");
    } else {
        r.append(text);
    }
}

fn title_line(state: &DashboardState, device_id: &str) -> (r: String)
    ensures
        r@ == title_text(state@, device_id@),
{
    let mut r = String::new();
    r.append(" Anker BLE Dashboard   ID: ");
    r.append(device_id);
    r.append("   SN: ");
    push_or_dash(&mut r, state.device_info.serial.as_str());
    r.append("   FW: ");
    push_or_dash(&mut r, state.device_info.firmware.as_str());
    r.append("   [");
    r.append(state.session_phase.as_str());
    r.append("] ");
    assert(r@ =~= title_text(state@, device_id@));
    r
}

fn bar_line(state: &DashboardState, offset: i32, updated: Option<&str>) -> (r: String)
    requires
        is_zone_offset(offset as int),
    ensures
        r@ == bar_text(state@, offset as int, updated_text(updated)),
{
    let mut r = String::new();
    match &state.error {
        Some(error) => {
            r.append("  ERROR: ");
            r.append(error.as_str());
        },
        None => {
            r.append("  Status: 0x");
            push_hex_byte(&mut r, state.device_status);
            r.append("   Temp: ");
            push_signed(&mut r, state.temperature as i64);
            r.append("°C   Device ts: ");
            r.append(state.device_ts_str_at(offset).as_str());
            r.append("   Last update: ");
            match updated {
                Some(text) => {
                    r.append(text);
                },
                None => {
                    r.append("—");
                },
            }
        },
    }
    assert(r@ =~= bar_text(state@, offset as int, updated_text(updated)));
    r
}

/// What is shown in a zone that is `offset` seconds ahead of UTC; `updated` tells how long ago the
/// last update was, if there was one.
pub fn render_at(
    state: &DashboardState,
    device_id: &str,
    offset: i32,
    updated: Option<&str>,
) -> (r: Screen)
    requires
        is_zone_offset(offset as int),
    ensures
        r@ == screen_of(state@, device_id@, offset as int, updated_text(updated)),
        PORTS_HEIGHT == BORDER_ROWS + HEAD_ROWS + r.ports@.len(),
        CHANNELS_HEIGHT == BORDER_ROWS + HEAD_ROWS + r.channels@.len(),
{
    let mut ports: Vec<TableRow> = Vec::new();
    let mut i: usize = 0;
    while i < 6
        invariant
            i <= 6,
            ports@.len() == i,
            forall|j: int| 0 <= j < i ==> (#[trigger] ports@[j])@ == port_row_of(state@.ports[j]),
        decreases 6 - i,
    {
        ports.push(port_row(&state.ports[i]));
        i += 1;
    }
    let mut channels: Vec<TableRow> = Vec::new();
    let mut k: usize = 0;
    while k < 5
        invariant
            k <= 5,
            channels@.len() == k,
            forall|j: int|
                0 <= j < k ==> (#[trigger] channels@[j])@ == channel_row_of(state@.channels[j]),
        decreases 5 - k,
    {
        channels.push(channel_row(&state.channels[k]));
        k += 1;
    }
    let ghost shown = screen_of(state@, device_id@, offset as int, updated_text(updated));
    assert(rows_of(ports@) =~= shown.ports);
    assert(rows_of(channels@) =~= shown.channels);
    let bar_is_error: bool = state.error.is_some();
    Screen {
        title: title_line(state, device_id),
        bar: bar_line(state, offset, updated),
        bar_is_error,
        ports,
        channels,
    }
}

/// What is shown in the machine's zone; `updated` tells how long ago the last update was, if there
/// was one.
pub fn render(state: &DashboardState, device_id: &str, updated: Option<&str>) -> (r: Screen)
    ensures
        exists|offset: int|
            is_zone_offset(offset) && r@ == #[trigger] screen_of(
                state@,
                device_id@,
                offset,
                updated_text(updated),
            ),
        PORTS_HEIGHT == BORDER_ROWS + HEAD_ROWS + r.ports@.len(),
        CHANNELS_HEIGHT == BORDER_ROWS + HEAD_ROWS + r.channels@.len(),
{
    render_at(state, device_id, state.zone_offset(), updated)
}

/// A key on the keyboard.
#[derive(Debug, Clone, Copy, PartialEq, Eq, Structural)]
pub enum Key {
    Char { c: char },
    Esc,
    Other,
}

/// Whether the key closes the dashboard.
pub fn is_quit(key: Key) -> (r: bool)
    ensures
        r == (key == (Key::Char { c: 'q' }) || key == (Key::Char { c: 'Q' }) || key == Key::Esc),
{
    match key {
        Key::Char { c } => c == 'q' || c == 'Q',
        Key::Esc => true,
        Key::Other => false,
    }
}

// ---------------------------------------------------------------------------
// Laws
// ---------------------------------------------------------------------------

/// A row shows readings exactly where its connection is in use; otherwise it is dim and its
/// cells behind the mode are empty.
pub proof fn law_idle_rows_show_no_readings(p: PortState, ch: ChannelState)
    ensures
        p.mode == ConnectionMode::NotConnected <==> port_row_of(p).style == RowStyle::DimGray,
        forall|i: int|
            2 <= i < 5 ==> ((#[trigger] port_row_of(p).cells[i]).len() == 0 <==> p.mode
                == ConnectionMode::NotConnected),
        ch.mode == ConnectionMode::NotConnected <==> channel_row_of(ch).style
            == RowStyle::DimGray,
        forall|i: int|
            2 <= i < 7 ==> ((#[trigger] channel_row_of(ch).cells[i]).len() == 0 <==> ch.mode
                == ConnectionMode::NotConnected),
{
}

/// Both tables have room for their frame, for the heads of their columns and for all their rows.
pub proof fn law_tables_have_room(
    d: DashboardView,
    device_id: Seq<char>,
    offset: int,
    updated: Seq<char>,
)
    requires
        d.ports.len() == 6,
        d.channels.len() == 5,
    ensures
        PORTS_HEIGHT == BORDER_ROWS + HEAD_ROWS + screen_of(d, device_id, offset, updated).ports.len(),
        CHANNELS_HEIGHT == BORDER_ROWS + HEAD_ROWS + screen_of(
            d,
            device_id,
            offset,
            updated,
        ).channels.len(),
{
}

/// An error takes the place of the status line, and nothing else on the screen depends on it.
pub proof fn law_error_replaces_status_line(
    d: DashboardView,
    error: Option<Seq<char>>,
    device_id: Seq<char>,
    offset: int,
    updated: Seq<char>,
)
    ensures
        ({
            let with = screen_of(DashboardView { error, ..d }, device_id, offset, updated);
            let without = screen_of(DashboardView { error: None, ..d }, device_id, offset, updated);
            &&& with.bar_is_error <==> error is Some
            &&& error matches Some(e) ==> with.bar == "  ERROR: "@ + e
            &&& with.title == without.title
            &&& with.ports == without.ports
            &&& with.channels == without.channels
        }),
{
}

/// The cells of a port that is in use: its name, its mode, volts and amps in thousandths and watts
/// in hundredths. Output is green, input is yellow.
pub proof fn law_port_cells(p: PortState)
    requires
        p.mode !is NotConnected,
    ensures
        port_row_of(p).cells == seq![
            p.name@,
            mode_label(p.mode),
            fixed_text(p.millivolts as nat, 3) + " V"@,
            fixed_text(p.milliamps as nat, 3) + " A"@,
            fixed_text(p.centiwatts as nat, 2) + " W"@,
        ],
        port_row_of(p).style is Green <==> p.mode is Output,
        port_row_of(p).style is Yellow <==> p.mode is Input,
{
}

/// The cells of a channel that is in use: its name, its mode, volts and amps in hundredths, the
/// greatest volts and amps in hundredths and the greatest watts in tenths. Output is green, input
/// is yellow.
pub proof fn law_channel_cells(ch: ChannelState)
    requires
        ch.mode !is NotConnected,
    ensures
        channel_row_of(ch).cells.len() == 7,
        channel_row_of(ch).cells[0] == ch.name@,
        channel_row_of(ch).cells[1] == mode_label(ch.mode),
        channel_row_of(ch).cells[2] == fixed_text(ch.centivolts as nat, 2) + " V"@,
        channel_row_of(ch).cells[3] == fixed_text(ch.centiamps as nat, 2) + " A"@,
        channel_row_of(ch).cells[4] == fixed_text(ch.max_centivolts as nat, 2),
        channel_row_of(ch).cells[5] == fixed_text(ch.max_centiamps as nat, 2),
        channel_row_of(ch).cells[6] == fixed_text(ch.max_deciwatts as nat, 1),
        channel_row_of(ch).style is Green <==> ch.mode is Output,
        channel_row_of(ch).style is Yellow <==> ch.mode is Input,
{
    reveal_strlit("");
    assert(channel_row_of(ch).cells[4] =~= fixed_text(ch.max_centivolts as nat, 2));
    assert(channel_row_of(ch).cells[5] =~= fixed_text(ch.max_centiamps as nat, 2));
    assert(channel_row_of(ch).cells[6] =~= fixed_text(ch.max_deciwatts as nat, 1));
}

/// The cells of a connection that is not in use are its name and its mode; the others are empty.
pub proof fn law_idle_cells(p: PortState, ch: ChannelState)
    requires
        p.mode is NotConnected,
        ch.mode is NotConnected,
    ensures
        port_row_of(p).cells.len() == 5,
        port_row_of(p).cells[0] == p.name@,
        port_row_of(p).cells[1] == mode_label(p.mode),
        channel_row_of(ch).cells.len() == 7,
        channel_row_of(ch).cells[0] == ch.name@,
        channel_row_of(ch).cells[1] == mode_label(ch.mode),
{
}

/// The screen, part by part: in the title the identifier, serial number and firmware version of
/// the device, with dashes for what is not known, and the phase; in the status bar, without an
/// error, status, temperature, the clock of the device and the last update; below them every port
/// and every channel in its row.
pub proof fn law_screen_parts(
    d: DashboardView,
    device_id: Seq<char>,
    offset: int,
    updated: Seq<char>,
)
    ensures
        ({
            let shown = screen_of(d, device_id, offset, updated);
            let serial = if d.device_info.serial.len() == 0 {
                "—"@
            } else {
                d.device_info.serial
            };
            let firmware = if d.device_info.firmware.len() == 0 {
                "—"@
            } else {
                d.device_info.firmware
            };
            &&& shown.title == " Anker BLE Dashboard   ID: "@ + device_id + "   SN: "@ + serial
                + "   FW: "@ + firmware + "   ["@ + phase_label(d.session_phase) + "] "@
            &&& d.error is None ==> shown.bar == "  Status: 0x"@ + hex_byte(d.device_status)
                + "   Temp: "@ + signed_text(d.temperature as int) + "°C   Device ts: "@
                + device_clock(d.device_ts, offset) + "   Last update: "@ + updated
            &&& shown.ports.len() == d.ports.len()
            &&& forall|i: int|
                0 <= i < d.ports.len() ==> #[trigger] shown.ports[i] == port_row_of(d.ports[i])
            &&& shown.channels.len() == d.channels.len()
            &&& forall|i: int|
                0 <= i < d.channels.len() ==> #[trigger] shown.channels[i] == channel_row_of(
                    d.channels[i],
                )
        }),
{
}

/// A dash is shown for the last update where there was none. The rows of a table are theirs, each
/// at its place, cell by cell.
pub proof fn law_shown_as_given(updated: &str, rows: Seq<TableRow>)
    ensures
        updated_text(Some(updated)) == updated@,
        updated_text(None) == "—"@,
        rows_of(rows).len() == rows.len(),
        forall|i: int|
            0 <= i < rows.len() ==> (#[trigger] rows_of(rows)[i]).style == rows[i].style
                && rows_of(rows)[i].cells == texts_of(rows[i].cells@),
{
}

} // verus!
