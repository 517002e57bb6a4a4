//! What is reported of the device over the REST API.
use std::time::Instant;
use vstd::prelude::*;

use crate::state::{ChannelState, DashboardState, DeviceInfo, PortState};

verus! {

use crate::state::{mode_label, phase_label, text_of, DashboardView};

/// A USB port in a report.
pub struct PortReport {
    pub name: String,
    pub mode: String,
    pub millivolts: u16,
    pub milliamps: u16,
    pub centiwatts: u16,
}

impl PortReport {
    /// Whether the report tells name, mode and readings of the port.
    pub open spec fn tells(self, port: PortState) -> bool {
        &&& self.name@ == port.name@
        &&& self.mode@ == mode_label(port.mode)
        &&& self.millivolts == port.millivolts
        &&& self.milliamps == port.milliamps
        &&& self.centiwatts == port.centiwatts
    }

    /// The report of a port.
    pub fn of(port: &PortState) -> (r: Self)
        ensures
            r.tells(*port),
            r.name@ == port.name@,
            r.mode@ == mode_label(port.mode),
            r.millivolts == port.millivolts,
            r.milliamps == port.milliamps,
            r.centiwatts == port.centiwatts,
    {
        PortReport {
            name: port.name.to_string(),
            mode: port.mode.as_str().to_string(),
            millivolts: port.millivolts,
            milliamps: port.milliamps,
            centiwatts: port.centiwatts,
        }
    }
}

/// A power channel in a report.
pub struct ChannelReport {
    pub name: String,
    pub mode: String,
    pub centivolts: u16,
    pub centiamps: u16,
    pub max_centivolts: u16,
    pub max_centiamps: u16,
    pub max_deciwatts: u16,
}

impl ChannelReport {
    /// Whether the report tells name, mode and readings of the channel.
    pub open spec fn tells(self, ch: ChannelState) -> bool {
        &&& self.name@ == ch.name@
        &&& self.mode@ == mode_label(ch.mode)
        &&& self.centivolts == ch.centivolts
        &&& self.centiamps == ch.centiamps
        &&& self.max_centivolts == ch.max_centivolts
        &&& self.max_centiamps == ch.max_centiamps
        &&& self.max_deciwatts == ch.max_deciwatts
    }

    /// The report of a channel.
    pub fn of(ch: &ChannelState) -> (r: Self)
        ensures
            r.tells(*ch),
            r.name@ == ch.name@,
            r.mode@ == mode_label(ch.mode),
            r.centivolts == ch.centivolts,
            r.centiamps == ch.centiamps,
            r.max_centivolts == ch.max_centivolts,
            r.max_centiamps == ch.max_centiamps,
            r.max_deciwatts == ch.max_deciwatts,
    {
        ChannelReport {
            name: ch.name.to_string(),
            mode: ch.mode.as_str().to_string(),
            centivolts: ch.centivolts,
            centiamps: ch.centiamps,
            max_centivolts: ch.max_centivolts,
            max_centiamps: ch.max_centiamps,
            max_deciwatts: ch.max_deciwatts,
        }
    }
}

/// All that is reported.
pub struct StatusReport {
    pub session_phase: String,
    pub device_status: u8,
    pub temperature: i32,
    pub device_ts: u32,
    pub last_update: Option<Instant>,
    pub device_info: DeviceInfo,
    pub ports: Vec<PortReport>,
    pub channels: Vec<ChannelReport>,
    pub error: Option<String>,
}

impl StatusReport {
    /// Whether the report tells all that the dashboard knows.
    pub open spec fn tells(self, d: DashboardView) -> bool {
        &&& self.session_phase@ == phase_label(d.session_phase)
        &&& self.device_status == d.device_status
        &&& self.temperature == d.temperature
        &&& self.device_ts == d.device_ts
        &&& self.last_update == d.last_update
        &&& self.device_info@ == d.device_info
        &&& self.ports@.len() == d.ports.len()
        &&& forall|i: int|
            0 <= i < d.ports.len() ==> (#[trigger] self.ports@[i]).tells(d.ports[i])
        &&& self.channels@.len() == d.channels.len()
        &&& forall|i: int|
            0 <= i < d.channels.len() ==> (#[trigger] self.channels@[i]).tells(d.channels[i])
        &&& text_of(self.error) == d.error
    }
}

/// The report of what is known.
pub fn get_status(state: &DashboardState) -> (r: StatusReport)
    ensures
        r.tells(state@),
        r.session_phase@ == phase_label(state.session_phase),
        r.device_status == state.device_status,
        r.temperature == state.temperature,
        r.device_ts == state.device_ts,
        r.last_update == state.last_update,
        r.device_info.serial@ == state.device_info.serial@,
        r.device_info.firmware@ == state.device_info.firmware@,
        r.device_info.mac@ == state.device_info.mac@,
        r.ports@.len() == 6,
        r.channels@.len() == 5,
        r.error is Some <==> state.error is Some,
        r.error matches Some(e) ==> e@ == state.error->0@,
{
    let mut ports: Vec<PortReport> = Vec::new();
    let mut i: usize = 0;
    while i < 6
        invariant
            i <= 6,
            ports@.len() == i,
            forall|j: int| 0 <= j < i ==> (#[trigger] ports@[j]).tells(state@.ports[j]),
        decreases 6 - i,
    {
        ports.push(PortReport::of(&state.ports[i]));
        i += 1;
    }
    let mut channels: Vec<ChannelReport> = Vec::new();
    let mut k: usize = 0;
    while k < 5
        invariant
            k <= 5,
            channels@.len() == k,
            forall|j: int| 0 <= j < k ==> (#[trigger] channels@[j]).tells(state@.channels[j]),
        decreases 5 - k,
    {
        channels.push(ChannelReport::of(&state.channels[k]));
        k += 1;
    }
    StatusReport {
        session_phase: state.session_phase.as_str().to_string(),
        device_status: state.device_status,
        temperature: state.temperature,
        device_ts: state.device_ts,
        last_update: state.last_update,
        device_info: state.device_info.clone(),
        ports,
        channels,
        error: match &state.error {
            Some(e) => Some(e.clone()),
            None => None,
        },
    }
}

/// A report tells each port and each channel at its place, reading by reading.
pub proof fn law_report_tells_every_reading(r: StatusReport, d: DashboardView)
    requires
        r.tells(d),
    ensures
        r.session_phase@ == phase_label(d.session_phase),
        r.device_status == d.device_status,
        r.temperature == d.temperature,
        r.device_ts == d.device_ts,
        r.last_update == d.last_update,
        r.device_info@ == d.device_info,
        r.error is Some <==> d.error is Some,
        r.error matches Some(e) ==> d.error == Some(e@),
        r.ports@.len() == d.ports.len(),
        r.channels@.len() == d.channels.len(),
        forall|i: int|
            0 <= i < d.ports.len() ==> (#[trigger] r.ports@[i]).name@ == d.ports[i].name@
                && r.ports@[i].mode@ == mode_label(d.ports[i].mode) && r.ports@[i].millivolts
                == d.ports[i].millivolts && r.ports@[i].milliamps == d.ports[i].milliamps
                && r.ports@[i].centiwatts == d.ports[i].centiwatts,
        forall|i: int|
            0 <= i < d.channels.len() ==> (#[trigger] r.channels@[i]).name@ == d.channels[i].name@
                && r.channels@[i].mode@ == mode_label(d.channels[i].mode)
                && r.channels@[i].centivolts == d.channels[i].centivolts
                && r.channels@[i].centiamps == d.channels[i].centiamps
                && r.channels@[i].max_centivolts == d.channels[i].max_centivolts
                && r.channels@[i].max_centiamps == d.channels[i].max_centiamps
                && r.channels@[i].max_deciwatts == d.channels[i].max_deciwatts,
{
}

} // verus!
