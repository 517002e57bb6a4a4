//! Telemetry: soliciting it, polling for it and keeping the session alive.
use vstd::prelude::*;

use crate::session::{DeviceSession, SessionError};

verus! {

use crate::crypto::KeysView;
use crate::protocol::{fields_of, law_tlv_bytes_of_one_more, law_tlv_size, tlv_bytes, Field};
use crate::session::{
    carries, encrypted_packet, law_encrypted_packet_bytes, opens_to, packet_of,
};
use vstd::arithmetic::div_mod::{
    lemma_fundamental_div_mod, lemma_fundamental_div_mod_converse, lemma_small_mod,
};

/// Identifier in the A3 field of the full probe.
pub const STAGE7B_UUID: [u8; 36] = [
    0x37, 0x39, 0x65, 0x62, 0x65, 0x64, 0x33, 0x35, 0x2D, 0x64, 0x63, 0x39, 0x63, 0x2D, 0x34, 0x39,
    0x30, 0x34, 0x2D, 0x62, 0x34, 0x30, 0x63, 0x2D, 0x37, 0x32, 0x63, 0x34, 0x65, 0x38, 0x36, 0x33,
    0x61, 0x61, 0x31, 0x30,
];

/// The lightweight probe.
pub const LIGHT_PROBE_CMD: u16 = 0x0200;

/// The full probe.
pub const FULL_PROBE_CMD: u16 = 0x020A;

/// The keepalive.
pub const KEEPALIVE_CMD: u16 = 0x0030;

/// How long to drain notifications after a probe, in milliseconds.
pub const PROBE_DRAIN_MS: u64 = 1500;

/// How long draining waits for one notification, in milliseconds.
pub const DRAIN_RECV_MS: u64 = 100;

/// How long a session may go without a keepalive, in seconds.
pub const KEEPALIVE_SECS: u64 = 10;

/// The fields of the lightweight probe and of the keepalive.
pub open spec fn light_fields(ts: Seq<u8>) -> Seq<Field> {
    seq![(0xA1u8, seq![0x21u8]), (0xFEu8, ts)]
}

/// The fields of the full probe.
pub open spec fn full_fields(ts: Seq<u8>) -> Seq<Field> {
    seq![
        (0xA1u8, seq![0x21u8]),
        (0xA2u8, seq![0x04u8, 0x47u8, 0x42u8]),
        (0xA3u8, seq![0x04u8] + STAGE7B_UUID@),
        (0xA5u8, seq![0x01u8, 0x01u8]),
        (0xFEu8, ts),
    ]
}

/// How far soliciting has come.
#[derive(Debug, Clone, Copy, PartialEq, Eq, Structural)]
pub enum SolicitStep {
    /// Nothing has been sent.
    Start,
    /// The lightweight probe has been sent.
    LightSent,
    /// Both probes have been sent.
    FullSent,
}

/// What is to be done next.
pub enum SolicitAction {
    /// Write the packet, then drain notifications for `PROBE_DRAIN_MS`.
    Probe { packet: Vec<u8> },
    /// Nothing: telemetry has been solicited.
    Complete,
    /// Give up.
    Abort { error: SessionError },
}

/// The packet of an action; `None` once telemetry has been solicited.
pub open spec fn solicited(action: SolicitAction) -> Option<Result<Seq<u8>, SessionError>> {
    match action {
        SolicitAction::Probe { packet } => Some(Ok(packet@)),
        SolicitAction::Complete => None,
        SolicitAction::Abort { error } => Some(Err(error)),
    }
}

/// Whether draining goes on `elapsed_ms` after it began; `got_one` tells whether the last wait
/// brought a notification. Queued notifications are drained up to `timeout_ms`.
pub fn drain_notifications(got_one: bool, elapsed_ms: u64, timeout_ms: u64) -> (r: bool)
    ensures
        r == (got_one && elapsed_ms < timeout_ms),
{
    got_one && elapsed_ms < timeout_ms
}

/// Whether a keepalive is due `elapsed_secs` after the last one.
pub fn keepalive_due(elapsed_secs: u64) -> (r: bool)
    ensures
        r == (elapsed_secs >= KEEPALIVE_SECS),
        r == (elapsed_secs >= 10),
{
    elapsed_secs >= KEEPALIVE_SECS
}

/// Counts polls up to the next keepalive.
pub struct PollCounter {
    every: u32,
    count: u32,
}

impl PollCounter {
    /// After how many polls a keepalive is due; zero counts as one.
    pub closed spec fn every(self) -> int {
        if self.every == 0 {
            1
        } else {
            self.every as int
        }
    }

    /// How many polls there were since the last keepalive.
    pub closed spec fn count(self) -> int {
        self.count as int
    }

    /// A keepalive is never overdue.
    pub open spec fn wf(self) -> bool {
        0 <= self.count() < self.every()
    }

    /// A counter that has seen no poll yet.
    pub fn new(every: u32) -> (r: Self)
        ensures
            r.wf(),
            r.every() == if every == 0 {
                1
            } else {
                every as int
            },
            r.count() == 0,
    {
        PollCounter { every, count: 0 }
    }

    /// Count one poll; the result tells whether a keepalive is due.
    pub fn poll(&mut self) -> (due: bool)
        requires
            old(self).wf(),
        ensures
            final(self).wf(),
            final(self).every() == old(self).every(),
            (final(self).count(), due) == polled(old(self).every(), old(self).count()),
    {
        self.count = self.count + 1;
        if self.count >= self.every {
            self.count = 0;
            true
        } else {
            false
        }
    }
}

/// The count after one poll, and whether a keepalive is due.
pub open spec fn polled(every: int, count: int) -> (int, bool) {
    if count + 1 >= every {
        (0, true)
    } else {
        (count + 1, false)
    }
}

/// The count after `polls` polls, and whether a keepalive is due at the last one.
pub open spec fn polled_times(every: int, polls: nat) -> (int, bool)
    decreases polls,
{
    if polls == 0 {
        (0, false)
    } else {
        polled(every, polled_times(every, (polls - 1) as nat).0)
    }
}

/// A keepalive is due at every poll whose number is a multiple of `every`, and at no other.
pub proof fn law_keepalive_every_so_many_polls(every: int, polls: nat)
    requires
        every >= 1,
        polls >= 1,
    ensures
        polled_times(every, polls).1 <==> polls as int % every == 0,
{
    lemma_polls_since_keepalive(every, polls);
}

proof fn lemma_polls_since_keepalive(every: int, polls: nat)
    requires
        every >= 1,
    ensures
        polled_times(every, polls).0 == polls as int % every,
        polls >= 1 ==> (polled_times(every, polls).1 <==> polls as int % every == 0),
    decreases polls,
{
    if polls == 0 {
        lemma_small_mod(0, every as nat);
    } else {
        let before = polls - 1;
        lemma_polls_since_keepalive(every, before as nat);
        let r = before % every;
        let q = before / every;
        lemma_fundamental_div_mod(before, every);
        assert(0 <= r < every) by (nonlinear_arith)
            requires
                every >= 1,
                r == before % every,
        ;
        if r + 1 >= every {
            assert(polls == every * (q + 1) + 0) by (nonlinear_arith)
                requires
                    before == every * q + r,
                    r + 1 == every,
                    polls == before + 1,
            ;
            lemma_fundamental_div_mod_converse(
                polls as int,
                every,
                q + 1,
                0,
            );
        } else {
            assert(polls == q * every + (r + 1)) by (nonlinear_arith)
                requires
                    before == every * q + r,
                    polls == before + 1,
            ;
            lemma_fundamental_div_mod_converse(
                polls as int,
                every,
                q,
                r + 1,
            );
        }
    }
}

/// How far polling telemetry has come.
#[derive(Debug, Clone, Copy, PartialEq, Eq, Structural)]
pub enum TelemetryStep {
    /// Nothing has been done.
    Start,
    /// The handshake is complete.
    Connected,
    /// It has been told that the handshake is complete.
    Announced,
    /// A turn of the poll loop is over, or telemetry has been solicited.
    TurnOver,
    /// A turn has begun.
    TurnBegun,
    /// A notification has been waited for in this turn.
    Draining,
    /// The lightweight probe of this turn has been sent.
    Probed { keepalive_due: bool },
    /// A probe could not be sent.
    Failed { error: SessionError },
}

/// What is to be done next.
pub enum TelemetryAction {
    /// Run the handshake.
    Handshake,
    /// Tell those who wait for it that the handshake is complete.
    NotifyReady,
    /// Solicit telemetry.
    Solicit,
    /// Note the time: a turn begins.
    BeginTurn,
    /// Wait for a notification, as long as the turn still lasts.
    Receive { remaining_ns: u128 },
    /// Write the packet.
    Probe { packet: Vec<u8> },
    /// Send a keepalive and report if that fails.
    Keepalive,
    /// Give up.
    Abort { error: SessionError },
}

/// What `TelemetryAction` stands for.
#[verifier::ext_equal]
pub enum TelemetryActionView {
    Handshake,
    NotifyReady,
    Solicit,
    BeginTurn,
    Receive { remaining_ns: u128 },
    Probe { packet: Seq<u8> },
    Keepalive,
    Abort { error: SessionError },
}

impl View for TelemetryAction {
    type V = TelemetryActionView;

    open spec fn view(&self) -> TelemetryActionView {
        match *self {
            TelemetryAction::Handshake => TelemetryActionView::Handshake,
            TelemetryAction::NotifyReady => TelemetryActionView::NotifyReady,
            TelemetryAction::Solicit => TelemetryActionView::Solicit,
            TelemetryAction::BeginTurn => TelemetryActionView::BeginTurn,
            TelemetryAction::Receive { remaining_ns } => TelemetryActionView::Receive {
                remaining_ns,
            },
            TelemetryAction::Probe { packet } => TelemetryActionView::Probe { packet: packet@ },
            TelemetryAction::Keepalive => TelemetryActionView::Keepalive,
            TelemetryAction::Abort { error } => TelemetryActionView::Abort { error },
        }
    }
}

/// What is met at a step of polling telemetry: the keys in force, whether the wait that the step
/// stands for brought a notification, how long ago the turn began, how long a turn lasts, and the
/// timestamp.
pub struct TelemetryMeeting {
    pub keys: KeysView,
    pub heard: bool,
    pub elapsed_ns: u128,
    pub interval_ns: u128,
    pub ts: Seq<u8>,
}

/// The probe that ends the draining of a turn, and the count of polls after it.
pub open spec fn telemetry_probe(every: int, count: int, met: TelemetryMeeting) -> (
    TelemetryStep,
    TelemetryActionView,
    int,
) {
    match encrypted_packet(met.keys, 0x0F, LIGHT_PROBE_CMD, light_fields(met.ts)) {
        Ok(packet) => (
            TelemetryStep::Probed { keepalive_due: polled(every, count).1 },
            TelemetryActionView::Probe { packet },
            polled(every, count).0,
        ),
        Err(error) => (
            TelemetryStep::Failed { error },
            TelemetryActionView::Abort { error },
            count,
        ),
    }
}

/// The next step, the action and the count of polls: handshake, notice, soliciting, and then
/// turns. In a turn notifications are taken until none comes or the turn is over; then the probe
/// is sent, and after it a keepalive, if one is due.
pub open spec fn telemetry_next(
    every: int,
    count: int,
    step: TelemetryStep,
    met: TelemetryMeeting,
) -> (TelemetryStep, TelemetryActionView, int) {
    let time_left = met.elapsed_ns < met.interval_ns;
    let wait = (
        TelemetryStep::Draining,
        TelemetryActionView::Receive { remaining_ns: (met.interval_ns - met.elapsed_ns) as u128 },
        count,
    );
    match step {
        TelemetryStep::Start => (
            TelemetryStep::Connected,
            TelemetryActionView::Handshake,
            count,
        ),
        TelemetryStep::Connected => (
            TelemetryStep::Announced,
            TelemetryActionView::NotifyReady,
            count,
        ),
        TelemetryStep::Announced => (TelemetryStep::TurnOver, TelemetryActionView::Solicit, count),
        TelemetryStep::TurnOver => (TelemetryStep::TurnBegun, TelemetryActionView::BeginTurn, count),
        TelemetryStep::TurnBegun => if time_left {
            wait
        } else {
            telemetry_probe(every, count, met)
        },
        TelemetryStep::Draining => if met.heard && time_left {
            wait
        } else {
            telemetry_probe(every, count, met)
        },
        TelemetryStep::Probed { keepalive_due } => if keepalive_due {
            (TelemetryStep::TurnOver, TelemetryActionView::Keepalive, count)
        } else {
            (TelemetryStep::TurnBegun, TelemetryActionView::BeginTurn, count)
        },
        TelemetryStep::Failed { error } => (step, TelemetryActionView::Abort { error }, count),
    }
}

proof fn lemma_telemetry_sizes(ts: Seq<u8>)
    requires
        ts.len() == 4,
    ensures
        tlv_bytes(light_fields(ts)).len() <= 2000,
        tlv_bytes(full_fields(ts)).len() <= 2000,
{
    law_tlv_size(light_fields(ts));
    law_tlv_size(full_fields(ts));
}

impl DeviceSession {
    /// The lightweight probe.
    fn light_probe(&self, ts: [u8; 4]) -> (r: Result<Vec<u8>, SessionError>)
        ensures
            packet_of(r) == encrypted_packet(self@.keys, 0x0F, LIGHT_PROBE_CMD, light_fields(ts@)),
            r is Err <==> self@.keys is Absent,
            r matches Ok(packet) ==> carries(
                packet@,
                self@.keys,
                0x0F,
                0x0200,
                light_message(ts@),
            ) && opens_to(packet@, self@.keys, light_message(ts@)),
    {
        proof {
            lemma_telemetry_sizes(ts@);
            lemma_messages(ts@);
        }
        let items: [(u8, &[u8]); 2] = [
            (0xA1u8, [0x21u8].as_slice()),
            (0xFEu8, ts.as_slice()),
        ];
        assert(fields_of(items@) =~~= light_fields(ts@));
        self.send_encrypted(0x0F, LIGHT_PROBE_CMD, items.as_slice())
    }

    /// The next step and action of soliciting telemetry: the lightweight probe, then the full
    /// probe. `ts` is the timestamp that soliciting was started with.
    pub fn solicit_telemetry(&self, step: SolicitStep, ts: [u8; 4]) -> (r: (
        SolicitStep,
        SolicitAction,
    ))
        ensures
            solicited(r.1) == (match step {
                SolicitStep::Start => Some(
                    encrypted_packet(self@.keys, 0x0F, LIGHT_PROBE_CMD, light_fields(ts@)),
                ),
                SolicitStep::LightSent => Some(
                    encrypted_packet(self@.keys, 0x0F, FULL_PROBE_CMD, full_fields(ts@)),
                ),
                SolicitStep::FullSent => None,
            }),
            r.0 == (match (step, r.1) {
                (_, SolicitAction::Abort { .. }) => step,
                (SolicitStep::Start, _) => SolicitStep::LightSent,
                (_, _) => SolicitStep::FullSent,
            }),
            r.1 is Complete <==> step is FullSent,
            r.1 is Abort <==> step !is FullSent && self@.keys is Absent,
            r.1 matches SolicitAction::Probe { packet } ==> {
                &&& step is Start ==> carries(
                    packet@,
                    self@.keys,
                    0x0F,
                    0x0200,
                    light_message(ts@),
                ) && opens_to(packet@, self@.keys, light_message(ts@)) && r.0 is LightSent
                &&& step is LightSent ==> carries(
                    packet@,
                    self@.keys,
                    0x0F,
                    0x020A,
                    full_message(ts@),
                ) && opens_to(packet@, self@.keys, full_message(ts@)) && r.0 is FullSent
            },
    {
        proof {
            lemma_telemetry_sizes(ts@);
            lemma_messages(ts@);
        }
        match step {
            SolicitStep::Start => match self.light_probe(ts) {
                Ok(packet) => (SolicitStep::LightSent, SolicitAction::Probe { packet }),
                Err(error) => (step, SolicitAction::Abort { error }),
            },
            SolicitStep::LightSent => {
                let mut a3: Vec<u8> = vec![0x04];
                a3.extend_from_slice(STAGE7B_UUID.as_slice());
                let items: [(u8, &[u8]); 5] = [
                    (0xA1u8, [0x21u8].as_slice()),
                    (0xA2u8, [0x04u8, 0x47u8, 0x42u8].as_slice()),
                    (0xA3u8, a3.as_slice()),
                    (0xA5u8, [0x01u8, 0x01u8].as_slice()),
                    (0xFEu8, ts.as_slice()),
                ];
                assert(fields_of(items@) =~~= full_fields(ts@));
                match self.send_encrypted(0x0F, FULL_PROBE_CMD, items.as_slice()) {
                    Ok(packet) => (SolicitStep::FullSent, SolicitAction::Probe { packet }),
                    Err(error) => (step, SolicitAction::Abort { error }),
                }
            },
            SolicitStep::FullSent => (step, SolicitAction::Complete),
        }
    }

    /// The keepalive.
    pub fn keepalive(&self, ts: [u8; 4]) -> (r: Result<Vec<u8>, SessionError>)
        ensures
            packet_of(r) == encrypted_packet(self@.keys, 0x11, KEEPALIVE_CMD, light_fields(ts@)),
            r is Err <==> self@.keys is Absent,
            r matches Ok(packet) ==> carries(
                packet@,
                self@.keys,
                0x11,
                0x0030,
                light_message(ts@),
            ) && opens_to(packet@, self@.keys, light_message(ts@)),
    {
        proof {
            lemma_telemetry_sizes(ts@);
            lemma_messages(ts@);
        }
        let items: [(u8, &[u8]); 2] = [
            (0xA1u8, [0x21u8].as_slice()),
            (0xFEu8, ts.as_slice()),
        ];
        assert(fields_of(items@) =~~= light_fields(ts@));
        self.send_encrypted(0x11, KEEPALIVE_CMD, items.as_slice())
    }

    /// The probe that ends the draining of a turn.
    fn end_of_draining(&self, counter: &mut PollCounter, ts: [u8; 4]) -> (r: (
        TelemetryStep,
        TelemetryAction,
    ))
        requires
            old(counter).wf(),
        ensures
            final(counter).wf(),
            final(counter).every() == old(counter).every(),
            forall|met: TelemetryMeeting|
                met.keys == self@.keys && met.ts == ts@ ==> (r.0, r.1@, final(counter).count())
                    == #[trigger] telemetry_probe(old(counter).every(), old(counter).count(), met),
            r.1 matches TelemetryAction::Probe { packet } ==> carries(
                packet@,
                self@.keys,
                0x0F,
                0x0200,
                light_message(ts@),
            ) && opens_to(packet@, self@.keys, light_message(ts@)),
    {
        match self.light_probe(ts) {
            Ok(packet) => {
                let keepalive_due: bool = counter.poll();
                (TelemetryStep::Probed { keepalive_due }, TelemetryAction::Probe { packet })
            },
            Err(error) => (TelemetryStep::Failed { error }, TelemetryAction::Abort { error }),
        }
    }

    /// The next step and action of polling telemetry; `heard` tells whether the wait that `step`
    /// stands for brought a notification, `elapsed_ns` how long ago the turn began, and
    /// `interval_ns` how long a turn lasts. Begin with `Start`.
    pub fn run_telemetry(
        &self,
        step: TelemetryStep,
        heard: bool,
        elapsed_ns: u128,
        interval_ns: u128,
        counter: &mut PollCounter,
        ts: [u8; 4],
    ) -> (r: (TelemetryStep, TelemetryAction))
        requires
            old(counter).wf(),
        ensures
            final(counter).wf(),
            final(counter).every() == old(counter).every(),
            (r.0, r.1@, final(counter).count()) == telemetry_next(
                old(counter).every(),
                old(counter).count(),
                step,
                (TelemetryMeeting { keys: self@.keys, heard, elapsed_ns, interval_ns, ts: ts@ }),
            ),
            r.1 matches TelemetryAction::Probe { packet } ==> carries(
                packet@,
                self@.keys,
                0x0F,
                0x0200,
                light_message(ts@),
            ) && opens_to(packet@, self@.keys, light_message(ts@)),
    {
        match step {
            TelemetryStep::Start => (TelemetryStep::Connected, TelemetryAction::Handshake),
            TelemetryStep::Connected => (TelemetryStep::Announced, TelemetryAction::NotifyReady),
            TelemetryStep::Announced => (TelemetryStep::TurnOver, TelemetryAction::Solicit),
            TelemetryStep::TurnOver => (TelemetryStep::TurnBegun, TelemetryAction::BeginTurn),
            TelemetryStep::TurnBegun | TelemetryStep::Draining => {
                if elapsed_ns < interval_ns && (heard || step == TelemetryStep::TurnBegun) {
                    let remaining_ns: u128 = interval_ns - elapsed_ns;
                    (TelemetryStep::Draining, TelemetryAction::Receive { remaining_ns })
                } else {
                    self.end_of_draining(counter, ts)
                }
            },
            TelemetryStep::Probed { keepalive_due } => {
                if keepalive_due {
                    (TelemetryStep::TurnOver, TelemetryAction::Keepalive)
                } else {
                    (TelemetryStep::TurnBegun, TelemetryAction::BeginTurn)
                }
            },
            TelemetryStep::Failed { error } => (step, TelemetryAction::Abort { error }),
        }
    }
}

// ---------------------------------------------------------------------------
// Laws
// ---------------------------------------------------------------------------

/// The step and the count of polls after a run from the start.
pub open spec fn telemetry_run(every: int, met: Seq<TelemetryMeeting>) -> (TelemetryStep, int)
    decreases met.len(),
{
    if met.len() == 0 {
        (TelemetryStep::Start, 0)
    } else {
        let (step, count) = telemetry_run(every, met.drop_last());
        let next = telemetry_next(every, count, step, met.last());
        (next.0, next.2)
    }
}

/// The actions of a run from the start.
pub open spec fn telemetry_actions(every: int, met: Seq<TelemetryMeeting>) -> Seq<
    TelemetryActionView,
>
    decreases met.len(),
{
    if met.len() == 0 {
        Seq::empty()
    } else {
        let (step, count) = telemetry_run(every, met.drop_last());
        telemetry_actions(every, met.drop_last()).push(
            telemetry_next(every, count, step, met.last()).1,
        )
    }
}

/// How many probes are among the actions.
pub open spec fn probes_in(actions: Seq<TelemetryActionView>) -> nat
    decreases actions.len(),
{
    if actions.len() == 0 {
        0
    } else if actions.last() is Probe {
        probes_in(actions.drop_last()) + 1
    } else {
        probes_in(actions.drop_last())
    }
}

/// The handshake comes first, then the notice that it is complete, then telemetry is solicited;
/// none of the three happens again, and every probe comes after them.
pub proof fn law_ready_comes_between_handshake_and_probes(every: int, met: Seq<TelemetryMeeting>)
    ensures
        ({
            let actions = telemetry_actions(every, met);
            &&& actions.len() == met.len()
            &&& actions.len() > 0 ==> actions[0] is Handshake
            &&& actions.len() > 1 ==> actions[1] is NotifyReady
            &&& actions.len() > 2 ==> actions[2] is Solicit
            &&& forall|i: int|
                3 <= i < actions.len() ==> !((#[trigger] actions[i]) is Handshake)
                    && !(actions[i] is NotifyReady) && !(actions[i] is Solicit)
        }),
{
    lemma_telemetry_order(every, met);
}

proof fn lemma_telemetry_order(every: int, met: Seq<TelemetryMeeting>)
    ensures
        ({
            let actions = telemetry_actions(every, met);
            let step = telemetry_run(every, met).0;
            &&& actions.len() == met.len()
            &&& actions.len() > 0 ==> actions[0] is Handshake
            &&& actions.len() > 1 ==> actions[1] is NotifyReady
            &&& actions.len() > 2 ==> actions[2] is Solicit
            &&& forall|i: int|
                3 <= i < actions.len() ==> !((#[trigger] actions[i]) is Handshake)
                    && !(actions[i] is NotifyReady) && !(actions[i] is Solicit)
            &&& step is Start <==> met.len() == 0
            &&& step is Connected <==> met.len() == 1
            &&& step is Announced <==> met.len() == 2
        }),
    decreases met.len(),
{
    if met.len() > 0 {
        lemma_telemetry_order(every, met.drop_last());
    }
}

/// A turn waits for notifications only while it lasts, and no wait outlasts it.
pub proof fn law_turns_drain_until_their_end(
    every: int,
    count: int,
    step: TelemetryStep,
    met: TelemetryMeeting,
)
    ensures
        telemetry_next(every, count, step, met).1 matches TelemetryActionView::Receive {
            remaining_ns,
        } ==> {
            &&& remaining_ns > 0
            &&& met.elapsed_ns + remaining_ns == met.interval_ns
            &&& step is Draining ==> met.heard
        },
        step is Draining && met.heard && met.elapsed_ns < met.interval_ns ==> telemetry_next(
            every,
            count,
            step,
            met,
        ).1 is Receive,
{
}

/// A keepalive follows every probe whose number is a multiple of `every`, and no other; a probe
/// is sent only if there is a key.
pub proof fn law_keepalive_follows_every_nth_probe(every: int, met: Seq<TelemetryMeeting>)
    requires
        every >= 1,
    ensures
        telemetry_run(every, met).1 == polled_times(
            every,
            probes_in(telemetry_actions(every, met)),
        ).0,
        telemetry_run(every, met).0 matches TelemetryStep::Probed { keepalive_due }
            ==> (keepalive_due <==> probes_in(telemetry_actions(every, met)) as int % every == 0)
            && met.last().keys.pair() is Some,
        forall|m: TelemetryMeeting|
            (#[trigger] telemetry_next(
                every,
                telemetry_run(every, met).1,
                telemetry_run(every, met).0,
                m,
            )).1 is Keepalive <==> telemetry_run(every, met).0 == (TelemetryStep::Probed {
                keepalive_due: true,
            }),
    decreases met.len(),
{
    if met.len() > 0 {
        let earlier = met.drop_last();
        law_keepalive_follows_every_nth_probe(every, earlier);
        let before = telemetry_actions(every, earlier);
        let actions = telemetry_actions(every, met);
        assert(actions.drop_last() =~= before);
        let n = probes_in(actions);
        if actions.last() is Probe {
            assert(n == probes_in(before) + 1);
            assert((n - 1) as nat == probes_in(before));
            law_keepalive_every_so_many_polls(every, n);
        }
    }
}

// ---------------------------------------------------------------------------
// Laws on what is sent
// ---------------------------------------------------------------------------

/// The message of the lightweight probe and of the keepalive: A1 holds 21, FE the timestamp.
pub open spec fn light_message(ts: Seq<u8>) -> Seq<u8> {
    seq![0xA1u8, 0x01u8, 0x21u8, 0xFEu8, 0x04u8] + ts
}

/// The message of the full probe: A1 holds 21, A2 04 47 42, A3 04 and the identifier, A5 01 01 and
/// FE the timestamp.
pub open spec fn full_message(ts: Seq<u8>) -> Seq<u8> {
    seq![0xA1u8, 0x01u8, 0x21u8, 0xA2u8, 0x03u8, 0x04u8, 0x47u8, 0x42u8, 0xA3u8, 0x25u8, 0x04u8]
        + STAGE7B_UUID@ + seq![0xA5u8, 0x02u8, 0x01u8, 0x01u8, 0xFEu8, 0x04u8] + ts
}

/// The bytes of the messages.
proof fn lemma_messages(ts: Seq<u8>)
    requires
        ts.len() == 4,
    ensures
        tlv_bytes(light_fields(ts)) == light_message(ts),
        tlv_bytes(full_fields(ts)) == full_message(ts),
{
    let none = Seq::<Field>::empty();
    let a1 = seq![0x21u8];
    let one = none.push((0xA1u8, a1));
    law_tlv_bytes_of_one_more(none, 0xA1, a1);
    law_tlv_bytes_of_one_more(one, 0xFE, ts);
    assert(light_fields(ts) =~= one.push((0xFEu8, ts)));
    assert(tlv_bytes(light_fields(ts)) =~= light_message(ts));
    let a2 = seq![0x04u8, 0x47u8, 0x42u8];
    let a3 = seq![0x04u8] + STAGE7B_UUID@;
    let a5 = seq![0x01u8, 0x01u8];
    let two = one.push((0xA2u8, a2));
    let three = two.push((0xA3u8, a3));
    let four = three.push((0xA5u8, a5));
    law_tlv_bytes_of_one_more(one, 0xA2, a2);
    law_tlv_bytes_of_one_more(two, 0xA3, a3);
    law_tlv_bytes_of_one_more(three, 0xA5, a5);
    law_tlv_bytes_of_one_more(four, 0xFE, ts);
    assert(full_fields(ts) =~= four.push((0xFEu8, ts)));
    assert(tlv_bytes(full_fields(ts)) =~= full_message(ts));
}

/// Every probe of a telemetry run is a packet for group 0F and command 0200 that carries 21 in A1
/// and the timestamp in FE, encrypted with the key and IV in force, of whichever stage they are.
/// A turn that has no time left, or in which no notification came, ends with one, unless there is
/// no key.
pub proof fn law_probe_asks_for_telemetry(
    every: int,
    count: int,
    step: TelemetryStep,
    met: TelemetryMeeting,
)
    requires
        met.ts.len() == 4,
    ensures
        ({
            let (next, action, after) = telemetry_next(every, count, step, met);
            let ends = step is TurnBegun && met.elapsed_ns >= met.interval_ns || step is Draining
                && (!met.heard || met.elapsed_ns >= met.interval_ns);
            &&& action is Probe <==> ends && met.keys !is Absent
            &&& action matches TelemetryActionView::Probe { packet } ==> carries(
                packet,
                met.keys,
                0x0F,
                0x0200,
                seq![0xA1u8, 0x01u8, 0x21u8, 0xFEu8, 0x04u8] + met.ts,
            )
            &&& action is Probe ==> next is Probed && after == polled(every, count).0
            &&& ends && met.keys is Absent ==> action == (TelemetryActionView::Abort {
                error: SessionError::CryptoNotReady,
            })
        }),
{
    lemma_messages(met.ts);
    law_encrypted_packet_bytes(met.keys, 0x0F, 0x0200, light_fields(met.ts));
}

/// The order of a turn: it begins, notifications are taken, the probe is sent, and then either a
/// keepalive or the next turn follows.
pub proof fn law_turns_follow_each_other(every: int, count: int, met: TelemetryMeeting)
    ensures
        ({
            let begun = TelemetryStep::TurnBegun;
            let over = TelemetryStep::TurnOver;
            let due = TelemetryStep::Probed { keepalive_due: true };
            let not_due = TelemetryStep::Probed { keepalive_due: false };
            let begin = TelemetryActionView::BeginTurn;
            &&& telemetry_next(every, count, over, met) == (begun, begin, count)
            &&& telemetry_next(every, count, not_due, met) == (begun, begin, count)
            &&& telemetry_next(every, count, due, met) == (
                over,
                TelemetryActionView::Keepalive,
                count,
            )
            &&& met.elapsed_ns < met.interval_ns ==> {
                let (next, action, after) = telemetry_next(every, count, begun, met);
                &&& next is Draining
                &&& action is Receive
                &&& after == count
            }
            &&& met.heard && met.elapsed_ns < met.interval_ns ==> {
                let (next, action, after) = telemetry_next(
                    every,
                    count,
                    TelemetryStep::Draining,
                    met,
                );
                &&& next is Draining
                &&& action is Receive
                &&& after == count
            }
            &&& forall|error: SessionError|
                #[trigger]
                telemetry_next(every, count, (TelemetryStep::Failed { error }), met) == (
                    TelemetryStep::Failed { error },
                    TelemetryActionView::Abort { error },
                    count,
                )
        }),
{
}

/// The count of polls since the last keepalive is the number of polls modulo `every`.
pub proof fn law_polls_are_counted(every: int, polls: nat)
    requires
        every >= 1,
    ensures
        polled_times(every, polls).0 == polls as int % every,
{
    lemma_polls_since_keepalive(every, polls);
}

/// Every probe among the actions of a run asks for telemetry with the keys that were in force when
/// it was sent.
pub proof fn law_all_probes_ask_for_telemetry(every: int, met: Seq<TelemetryMeeting>)
    requires
        forall|i: int| 0 <= i < met.len() ==> (#[trigger] met[i]).ts.len() == 4,
    ensures
        telemetry_actions(every, met).len() == met.len(),
        forall|i: int|
            0 <= i < met.len() ==> ((#[trigger] telemetry_actions(every, met)[i]) matches
                TelemetryActionView::Probe { packet } ==> carries(
                packet,
                met[i].keys,
                0x0F,
                0x0200,
                seq![0xA1u8, 0x01u8, 0x21u8, 0xFEu8, 0x04u8] + met[i].ts,
            )),
    decreases met.len(),
{
    if met.len() > 0 {
        let earlier = met.drop_last();
        assert forall|i: int| 0 <= i < earlier.len() implies (#[trigger] earlier[i]).ts.len() == 4
            by {
            assert(earlier[i] == met[i]);
        }
        law_all_probes_ask_for_telemetry(every, earlier);
        let (step, count) = telemetry_run(every, earlier);
        let at = met.len() - 1;
        assert(met[at].ts.len() == 4);
        law_probe_asks_for_telemetry(every, count, step, met.last());
        let before = telemetry_actions(every, earlier);
        let actions = telemetry_actions(every, met);
        assert forall|i: int| 0 <= i < met.len() implies ((#[trigger] actions[i]) matches
            TelemetryActionView::Probe { packet } ==> carries(
            packet,
            met[i].keys,
            0x0F,
            0x0200,
            seq![0xA1u8, 0x01u8, 0x21u8, 0xFEu8, 0x04u8] + met[i].ts,
        )) by {
            if i < at {
                assert(actions[i] == before[i]);
                assert(earlier[i] == met[i]);
            }
        }
    }
}

} // verus!
