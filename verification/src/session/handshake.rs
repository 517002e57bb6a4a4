//! The handshake: four plain exchanges and the key exchange.
use std::time::Instant;
use vstd::prelude::*;

use crate::crypto::{pad_iv, CryptoKeys};
use crate::parser::extract_handshake_info;
use crate::protocol::{A2_STATIC, INITIAL_KEY};
use crate::session::{DeviceSession, SessionError};
use crate::state::{DashboardState, DeviceInfo, SessionPhase};

verus! {

use crate::crypto::{cbc_opened, padded_iv, KeysView};
use crate::parser::{
    decoded, info_in, last_tagged, law_ascii_text_is_printable, law_status_keeps_the_rest,
};
use crate::protocol::{
    fields_of, law_tlv_bytes_of_one_more, law_tlv_size, tlv_bytes, tlv_fields, Field,
};
use crate::session::{
    carries, encrypted_packet, is_fragment, is_packet_for, law_encrypted_packet_bytes,
    law_plain_packet_bytes, message_fields, opens_to, plain_packet, received, SessionView,
};
use crate::state::DashboardView;
use vstd::utf8::{encode_utf8, is_ascii_chars, is_ascii_chars_encode_utf8};

/// First message of the handshake.
pub const HELLO_CMD: u16 = 0x0001;

/// Second message of the handshake.
pub const PARAMETERS_CMD: u16 = 0x0003;

/// Asks who the device is.
pub const INFORMATION_CMD: u16 = 0x0029;

/// Last plain message of the handshake.
pub const CONFIRMATION_CMD: u16 = 0x0005;

/// Asks for the session key.
pub const KEY_CMD: u16 = 0x0022;

/// How long to wait for the reply to a plain request, in milliseconds.
pub const REPLY_TIMEOUT_MS: u64 = 5000;

/// How long to sleep before a round of waiting for the session key, in milliseconds.
pub const ROUND_SLEEP_MS: u64 = 500;

/// How long to wait for each notification of a round, in milliseconds.
pub const ROUND_RECV_MS: u64 = 50;

/// How many rounds to wait for the session key.
pub const KEY_ROUNDS: u8 = 10;

/// What the handshake waits for.
#[derive(Debug, Clone, Copy, PartialEq, Eq, Structural)]
pub enum HandshakeStep {
    /// To be started.
    Start,
    /// The reply to `HELLO_CMD`.
    AwaitHello,
    /// The reply to `PARAMETERS_CMD`.
    AwaitParameters,
    /// The reply to `INFORMATION_CMD`, which tells who the device is.
    AwaitInformation,
    /// The reply to `CONFIRMATION_CMD`.
    AwaitConfirmation,
    /// The session key, in the round after the given number of rounds.
    AwaitKey { rounds: u8 },
    /// Nothing: a session key is in force.
    Finished,
    /// Nothing: the handshake has failed.
    Failed { error: SessionError },
}

/// What is to be done next.
pub enum HandshakeAction {
    /// Write the packet and wait for one notification, `REPLY_TIMEOUT_MS` at most.
    Exchange { packet: Vec<u8> },
    /// Write the packet, then begin a round.
    SendAndPoll { packet: Vec<u8> },
    /// Begin a round: sleep for `ROUND_SLEEP_MS`, then wait for a notification for
    /// `ROUND_RECV_MS`.
    Poll,
    /// Wait for another notification for `ROUND_RECV_MS`.
    Receive,
    /// Drop the notifications that are still queued; the handshake is complete.
    Complete,
    /// Give up.
    Abort { error: SessionError },
}

/// What `HandshakeAction` stands for.
#[verifier::ext_equal]
pub enum ActionView {
    Exchange { packet: Seq<u8> },
    SendAndPoll { packet: Seq<u8> },
    Poll,
    Receive,
    Complete,
    Abort { error: SessionError },
}

impl View for HandshakeAction {
    type V = ActionView;

    open spec fn view(&self) -> ActionView {
        match *self {
            HandshakeAction::Exchange { packet } => ActionView::Exchange { packet: packet@ },
            HandshakeAction::SendAndPoll { packet } => ActionView::SendAndPoll { packet: packet@ },
            HandshakeAction::Poll => ActionView::Poll,
            HandshakeAction::Receive => ActionView::Receive,
            HandshakeAction::Complete => ActionView::Complete,
            HandshakeAction::Abort { error } => ActionView::Abort { error },
        }
    }
}

/// The fields that every message of the handshake begins with.
pub open spec fn common_fields(ts: Seq<u8>) -> Seq<Field> {
    seq![(0xA1u8, ts), (0xA2u8, A2_STATIC@)]
}

/// The fields of `PARAMETERS_CMD`.
pub open spec fn parameter_fields(ts: Seq<u8>) -> Seq<Field> {
    common_fields(ts) + seq![(0xA3u8, seq![0x20u8]), (0xA4u8, seq![0x00u8, 0xF0u8])]
}

/// The fields of `CONFIRMATION_CMD`.
pub open spec fn confirmation_fields(ts: Seq<u8>) -> Seq<Field> {
    parameter_fields(ts) + seq![(0xA5u8, seq![0x02u8])]
}

/// The fields of `KEY_CMD`.
pub open spec fn key_fields(ts: Seq<u8>) -> Seq<Field> {
    common_fields(ts) + seq![
        (0xA3u8, Seq::new(4, |i: int| 0u8)),
        (0xA5u8, Seq::new(40, |i: int| 0u8)),
    ]
}

/// The keys that the plain handshake ends with: the IV is made of the serial number.
pub open spec fn initial_keys(serial: Seq<char>) -> KeysView {
    KeysView::Initial { key: INITIAL_KEY@, iv: padded_iv(encode_utf8(serial)) }
}

/// The session, the dashboard, the next step and the action once what `step` waits for has
/// happened; `heard` tells whether the wait of a round brought a notification, and `reply` is the
/// content of the reply, where there is one. A round goes on until no notification comes.
pub open spec fn handshake_next(
    s: SessionView,
    d: DashboardView,
    step: HandshakeStep,
    heard: bool,
    reply: Seq<u8>,
    ts: Seq<u8>,
) -> (SessionView, DashboardView, HandshakeStep, ActionView) {
    match step {
        HandshakeStep::Start => (
            s,
            DashboardView { session_phase: SessionPhase::Handshake, ..d },
            HandshakeStep::AwaitHello,
            ActionView::Exchange { packet: plain_packet(0x01, HELLO_CMD, common_fields(ts)) },
        ),
        HandshakeStep::AwaitHello => (
            s,
            d,
            HandshakeStep::AwaitParameters,
            ActionView::Exchange { packet: plain_packet(0x01, PARAMETERS_CMD, parameter_fields(ts)) },
        ),
        HandshakeStep::AwaitParameters => (
            s,
            d,
            HandshakeStep::AwaitInformation,
            ActionView::Exchange { packet: plain_packet(0x01, INFORMATION_CMD, common_fields(ts)) },
        ),
        HandshakeStep::AwaitInformation => {
            let info = info_in(tlv_fields(reply, 6));
            if info.serial.len() == 0 {
                (
                    s,
                    d,
                    HandshakeStep::Failed { error: SessionError::NoSerial },
                    ActionView::Abort { error: SessionError::NoSerial },
                )
            } else {
                (
                    SessionView { info, keys: initial_keys(info.serial), ..s },
                    DashboardView { device_info: info, ..d },
                    HandshakeStep::AwaitConfirmation,
                    ActionView::Exchange {
                        packet: plain_packet(0x01, CONFIRMATION_CMD, confirmation_fields(ts)),
                    },
                )
            }
        },
        HandshakeStep::AwaitConfirmation => match encrypted_packet(
            s.keys,
            0x01,
            KEY_CMD,
            key_fields(ts),
        ) {
            Ok(packet) => (
                s,
                d,
                HandshakeStep::AwaitKey { rounds: 0 },
                ActionView::SendAndPoll { packet },
            ),
            Err(error) => (s, d, HandshakeStep::Failed { error }, ActionView::Abort { error }),
        },
        HandshakeStep::AwaitKey { rounds } => if heard {
            (s, d, step, ActionView::Receive)
        } else if s.keys is Session {
            (s, d, HandshakeStep::Finished, ActionView::Complete)
        } else if rounds + 1 < KEY_ROUNDS {
            (s, d, HandshakeStep::AwaitKey { rounds: (rounds + 1) as u8 }, ActionView::Poll)
        } else {
            (
                s,
                d,
                HandshakeStep::Failed { error: SessionError::NoSessionKey },
                ActionView::Abort { error: SessionError::NoSessionKey },
            )
        },
        HandshakeStep::Finished => (s, d, step, ActionView::Complete),
        HandshakeStep::Failed { error } => (s, d, step, ActionView::Abort { error }),
    }
}

/// The fields of all messages of the handshake are short.
proof fn lemma_handshake_sizes(ts: Seq<u8>)
    requires
        ts.len() == 4,
    ensures
        tlv_bytes(common_fields(ts)).len() <= 2000,
        tlv_bytes(parameter_fields(ts)).len() <= 2000,
        tlv_bytes(confirmation_fields(ts)).len() <= 2000,
        tlv_bytes(key_fields(ts)).len() <= 2000,
{
    law_tlv_size(common_fields(ts));
    law_tlv_size(parameter_fields(ts));
    law_tlv_size(confirmation_fields(ts));
    law_tlv_size(key_fields(ts));
}

impl DeviceSession {
    /// The next step and action of the handshake, once what `step` waits for has happened;
    /// `heard` tells whether the wait of a round brought a notification, `reply` is the content
    /// of the reply, where there is one, and `ts` the timestamp that the handshake was started
    /// with.
    pub fn run_handshake(
        &mut self,
        step: HandshakeStep,
        heard: bool,
        reply: &[u8],
        ts: [u8; 4],
        state: &mut DashboardState,
    ) -> (r: (HandshakeStep, HandshakeAction))
        ensures
            (final(self)@, final(state)@, r.0, r.1@) == handshake_next(
                old(self)@,
                old(state)@,
                step,
                heard,
                reply@,
                ts@,
            ),
            r.1 is SendAndPoll <==> step is AwaitConfirmation && old(self)@.keys !is Absent,
            r.1 matches HandshakeAction::SendAndPoll { packet } ==> carries(
                packet@,
                old(self)@.keys,
                0x01,
                0x0022,
                key_message(ts@),
            ) && opens_to(packet@, old(self)@.keys, key_message(ts@)),
            r.1 matches HandshakeAction::Exchange { packet } ==> is_plain_request(
                step,
                packet@,
                ts@,
            ),
    {
        proof {
            lemma_handshake_sizes(ts@);
            lemma_handshake_messages(ts@);
        }
        let a2: [u8; 40] = A2_STATIC;
        let common: [(u8, &[u8]); 2] = [(0xA1u8, ts.as_slice()), (0xA2u8, a2.as_slice())];
        match step {
            HandshakeStep::Start => {
                state.session_phase = SessionPhase::Handshake;
                assert(fields_of(common@) =~= common_fields(ts@));
                let packet: Vec<u8> = self.send_plain(0x01, HELLO_CMD, common.as_slice());
                (HandshakeStep::AwaitHello, HandshakeAction::Exchange { packet })
            },
            HandshakeStep::AwaitHello => {
                let items: [(u8, &[u8]); 4] = [
                    common[0],
                    common[1],
                    (0xA3u8, [0x20u8].as_slice()),
                    (0xA4u8, [0x00u8, 0xF0u8].as_slice()),
                ];
                assert(fields_of(items@) =~~= parameter_fields(ts@));
                let packet: Vec<u8> = self.send_plain(0x01, PARAMETERS_CMD, items.as_slice());
                (HandshakeStep::AwaitParameters, HandshakeAction::Exchange { packet })
            },
            HandshakeStep::AwaitParameters => {
                assert(fields_of(common@) =~= common_fields(ts@));
                let packet: Vec<u8> = self.send_plain(0x01, INFORMATION_CMD, common.as_slice());
                (HandshakeStep::AwaitInformation, HandshakeAction::Exchange { packet })
            },
            HandshakeStep::AwaitInformation => {
                let (serial, firmware, mac) = extract_handshake_info(reply);
                if serial.as_str().is_empty() {
                    let error = SessionError::NoSerial;
                    return (HandshakeStep::Failed { error }, HandshakeAction::Abort { error });
                }
                let iv: [u8; 16] = pad_iv(serial.as_str().as_bytes());
                self.device_info = DeviceInfo { serial, firmware, mac };
                self.crypto = CryptoKeys::Initial { key: INITIAL_KEY, iv };
                state.device_info = self.device_info.clone();
                let items: [(u8, &[u8]); 5] = [
                    common[0],
                    common[1],
                    (0xA3u8, [0x20u8].as_slice()),
                    (0xA4u8, [0x00u8, 0xF0u8].as_slice()),
                    (0xA5u8, [0x02u8].as_slice()),
                ];
                assert(fields_of(items@) =~~= confirmation_fields(ts@));
                let packet: Vec<u8> = self.send_plain(0x01, CONFIRMATION_CMD, items.as_slice());
                (HandshakeStep::AwaitConfirmation, HandshakeAction::Exchange { packet })
            },
            HandshakeStep::AwaitConfirmation => {
                let items: [(u8, &[u8]); 4] = [
                    common[0],
                    common[1],
                    (0xA3u8, [0u8; 4].as_slice()),
                    (0xA5u8, [0u8; 40].as_slice()),
                ];
                assert(fields_of(items@) =~~= key_fields(ts@));
                match self.send_encrypted(0x01, KEY_CMD, items.as_slice()) {
                    Ok(packet) => (
                        HandshakeStep::AwaitKey { rounds: 0 },
                        HandshakeAction::SendAndPoll { packet },
                    ),
                    Err(error) => (
                        HandshakeStep::Failed { error },
                        HandshakeAction::Abort { error },
                    ),
                }
            },
            HandshakeStep::AwaitKey { rounds } => {
                if heard {
                    (step, HandshakeAction::Receive)
                } else if self.crypto.is_session() {
                    (HandshakeStep::Finished, HandshakeAction::Complete)
                } else if rounds < KEY_ROUNDS - 1 {
                    (HandshakeStep::AwaitKey { rounds: rounds + 1 }, HandshakeAction::Poll)
                } else {
                    let error = SessionError::NoSessionKey;
                    (HandshakeStep::Failed { error }, HandshakeAction::Abort { error })
                }
            },
            HandshakeStep::Finished => (step, HandshakeAction::Complete),
            HandshakeStep::Failed { error } => (step, HandshakeAction::Abort { error }),
        }
    }
}

// ---------------------------------------------------------------------------
// Laws
// ---------------------------------------------------------------------------

/// What holds between the steps of a handshake that was started on a new session: before the
/// device has told who it is there are no keys; from then on the session and the dashboard
/// know the device, and either the initial keys are in force and the dashboard shows the
/// handshake, or session keys are in force and the dashboard shows the session.
pub open spec fn handshake_invariant(s: SessionView, d: DashboardView, step: HandshakeStep) -> bool {
    &&& d.ports.len() == 6
    &&& d.channels.len() == 5
    &&& match step {
        HandshakeStep::Start => s.keys is Absent,
        HandshakeStep::AwaitHello
        | HandshakeStep::AwaitParameters
        | HandshakeStep::AwaitInformation => s.keys is Absent && d.session_phase
            == SessionPhase::Handshake,
        HandshakeStep::AwaitConfirmation => device_is_known(s, d),
        HandshakeStep::AwaitKey { rounds } => device_is_known(s, d) && rounds < KEY_ROUNDS,
        HandshakeStep::Finished => device_is_known(s, d) && s.keys is Session,
        HandshakeStep::Failed { error } => true,
    }
}

/// The device has told who it is, and keys, device information and phase agree.
pub open spec fn device_is_known(s: SessionView, d: DashboardView) -> bool {
    &&& s.info.serial.len() > 0
    &&& d.device_info == s.info
    &&& s.keys == initial_keys(s.info.serial) && d.session_phase == SessionPhase::Handshake
        || s.keys is Session && d.session_phase == SessionPhase::Session
}

/// Every step of a handshake keeps its invariant.
pub proof fn law_handshake_keeps_invariant(
    s: SessionView,
    d: DashboardView,
    step: HandshakeStep,
    heard: bool,
    reply: Seq<u8>,
    ts: Seq<u8>,
)
    requires
        handshake_invariant(s, d, step),
    ensures
        ({
            let (s2, d2, step2, action) = handshake_next(s, d, step, heard, reply, ts);
            handshake_invariant(s2, d2, step2)
        }),
{
}

/// Whatever is received between two steps of a handshake keeps its invariant.
pub proof fn law_receiving_keeps_handshake_invariant(
    s: SessionView,
    d: DashboardView,
    step: HandshakeStep,
    raw: Seq<u8>,
    now: Instant,
)
    requires
        handshake_invariant(s, d, step),
    ensures
        handshake_invariant(
            received(s, d, raw, now).session,
            received(s, d, raw, now).dashboard,
            step,
        ),
{
    let after = received(s, d, raw, now);
    if after.event is Decrypted {
        law_status_keeps_the_rest(d, message_fields(after.content), now);
    }
}

/// A handshake completes exactly where a round of waiting for the session key is over and session
/// keys are in force.
pub proof fn law_handshake_completes_with_session_keys(
    s: SessionView,
    d: DashboardView,
    step: HandshakeStep,
    heard: bool,
    reply: Seq<u8>,
    ts: Seq<u8>,
)
    requires
        step !is Finished,
    ensures
        handshake_next(s, d, step, heard, reply, ts).3 is Complete <==> step is AwaitKey && !heard
            && s.keys is Session,
        handshake_next(s, d, step, heard, reply, ts).2 is Finished <==> step is AwaitKey && !heard
            && s.keys is Session,
{
}

/// A handshake gives up exactly where the device did not tell its serial number, where there
/// is no key to ask for the session key with, or where the last round brought no session key.
pub proof fn law_handshake_gives_up(
    s: SessionView,
    d: DashboardView,
    step: HandshakeStep,
    heard: bool,
    reply: Seq<u8>,
    ts: Seq<u8>,
)
    requires
        step !is Failed,
    ensures
        ({
            let action = handshake_next(s, d, step, heard, reply, ts).3;
            &&& action == (ActionView::Abort { error: SessionError::NoSerial }) <==> step
                is AwaitInformation && info_in(tlv_fields(reply, 6)).serial.len() == 0
            &&& action == (ActionView::Abort { error: SessionError::CryptoNotReady }) <==> step
                is AwaitConfirmation && s.keys is Absent
            &&& action == (ActionView::Abort { error: SessionError::NoSessionKey }) <==> (step matches
                HandshakeStep::AwaitKey { rounds } && !heard && rounds >= KEY_ROUNDS - 1 && s.keys
                !is Session)
        }),
{
}

/// How many steps a handshake can still take, not counting those that a notification in a round
/// brings.
pub open spec fn steps_left(step: HandshakeStep) -> int {
    match step {
        HandshakeStep::Start => 15,
        HandshakeStep::AwaitHello => 14,
        HandshakeStep::AwaitParameters => 13,
        HandshakeStep::AwaitInformation => 12,
        HandshakeStep::AwaitConfirmation => 11,
        HandshakeStep::AwaitKey { rounds } => if rounds < KEY_ROUNDS {
            KEY_ROUNDS - rounds
        } else {
            1
        },
        HandshakeStep::Finished => 0,
        HandshakeStep::Failed { error } => 0,
    }
}

/// A round goes on until no notification comes, and nothing but waiting happens before that.
pub proof fn law_rounds_last_until_silence(
    s: SessionView,
    d: DashboardView,
    rounds: u8,
    heard: bool,
    reply: Seq<u8>,
    ts: Seq<u8>,
)
    ensures
        ({
            let step = HandshakeStep::AwaitKey { rounds };
            let next = handshake_next(s, d, step, heard, reply, ts);
            &&& next.3 is Receive <==> heard
            &&& heard ==> next.0 == s && next.1 == d && next.2 == step
        }),
{
}

/// A handshake ends, unless notifications come without end in a round: every other step leaves
/// fewer steps to take, and a handshake that has ended stays as it is.
pub proof fn law_handshake_ends(
    s: SessionView,
    d: DashboardView,
    step: HandshakeStep,
    heard: bool,
    reply: Seq<u8>,
    ts: Seq<u8>,
)
    ensures
        ({
            let (s2, d2, step2, action) = handshake_next(s, d, step, heard, reply, ts);
            &&& 0 <= steps_left(step2)
            &&& steps_left(step) > 0 && !(step is AwaitKey && heard) ==> steps_left(step2)
                < steps_left(step)
            &&& steps_left(step2) <= steps_left(step)
            &&& steps_left(step) == 0 ==> s2 == s && d2 == d && step2 == step
            &&& steps_left(step2) == 0 <==> action is Complete || action is Abort
        }),
{
}

/// While the handshake waits for the session key, a response to the key exchange that decrypts
/// completes it as soon as the round is over.
pub proof fn law_key_exchange_completes_handshake(
    s: SessionView,
    d: DashboardView,
    rounds: u8,
    raw: Seq<u8>,
    now: Instant,
    reply: Seq<u8>,
    ts: Seq<u8>,
)
    requires
        decoded(raw) matches Some(pkt) && pkt.is_enc && pkt.cmd == 0x0022 && !is_fragment(pkt)
            && (s.keys.pair() matches Some((key, iv)) && cbc_opened(key, iv, pkt.body) is Some),
    ensures
        ({
            let after = received(s, d, raw, now);
            let next = handshake_next(
                after.session,
                after.dashboard,
                HandshakeStep::AwaitKey { rounds },
                false,
                reply,
                ts,
            );
            &&& after.dashboard.session_phase == SessionPhase::Session
            &&& next.2 is Finished
            &&& next.3 is Complete
        }),
{
}

/// What happens during a handshake: a step of it, or a notification.
pub enum HandshakeEvent {
    Step { heard: bool, reply: Seq<u8>, ts: Seq<u8> },
    Receive { raw: Seq<u8>, now: Instant },
}

/// Session, dashboard and step after a run of events from the start of a handshake.
pub open spec fn handshake_run(s: SessionView, d: DashboardView, events: Seq<HandshakeEvent>) -> (
    SessionView,
    DashboardView,
    HandshakeStep,
)
    decreases events.len(),
{
    if events.len() == 0 {
        (s, d, HandshakeStep::Start)
    } else {
        let (s1, d1, step) = handshake_run(s, d, events.drop_last());
        match events.last() {
            HandshakeEvent::Step { heard, reply, ts } => {
                let (s2, d2, step2, action) = handshake_next(s1, d1, step, heard, reply, ts);
                (s2, d2, step2)
            },
            HandshakeEvent::Receive { raw, now } => {
                let after = received(s1, d1, raw, now);
                (after.session, after.dashboard, step)
            },
        }
    }
}

/// A handshake on a new session keeps its invariant whatever happens. Once it is finished,
/// session keys are in force, the device is known to session and dashboard, and the dashboard
/// shows the session as established.
pub proof fn law_finished_handshake(s: SessionView, d: DashboardView, events: Seq<HandshakeEvent>)
    requires
        s.keys is Absent,
        d.ports.len() == 6,
        d.channels.len() == 5,
    ensures
        ({
            let (s2, d2, step) = handshake_run(s, d, events);
            &&& handshake_invariant(s2, d2, step)
            &&& step is Finished ==> {
                &&& s2.keys is Session
                &&& s2.info.serial.len() > 0
                &&& d2.device_info == s2.info
                &&& d2.session_phase == SessionPhase::Session
            }
        }),
    decreases events.len(),
{
    if events.len() > 0 {
        law_finished_handshake(s, d, events.drop_last());
        let (s1, d1, step) = handshake_run(s, d, events.drop_last());
        match events.last() {
            HandshakeEvent::Step { heard, reply, ts } => {
                law_handshake_keeps_invariant(s1, d1, step, heard, reply, ts);
            },
            HandshakeEvent::Receive { raw, now } => {
                law_receiving_keeps_handshake_invariant(s1, d1, step, raw, now);
            },
        }
    }
}

/// The initial IV is made of the bytes of the serial number, one per character, and zeros.
pub proof fn law_initial_iv_is_the_serial(fields: Seq<Field>)
    ensures
        ({
            let serial = info_in(fields).serial;
            let iv = initial_keys(serial)->Initial_iv;
            forall|i: int|
                0 <= i < 16 ==> #[trigger] iv[i] == if i < serial.len() {
                    serial[i] as u8
                } else {
                    0
                }
        }),
{
    let serial = info_in(fields).serial;
    match last_tagged(fields, 0xA4) {
        Some(v) => {
            law_ascii_text_is_printable(v);
        },
        None => {},
    }
    assert(is_ascii_chars(serial));
    is_ascii_chars_encode_utf8(serial);
}

// ---------------------------------------------------------------------------
// Laws on what is sent
// ---------------------------------------------------------------------------

/// The message of the first request and of that for information: A1 holds the timestamp, A2 the
/// fixed bytes.
pub open spec fn hello_message(ts: Seq<u8>) -> Seq<u8> {
    seq![0xA1u8, 0x04u8] + ts + seq![0xA2u8, 0x28u8] + A2_STATIC@
}

/// The message of the second request: in addition A3 holds 20 and A4 00 F0.
pub open spec fn parameter_message(ts: Seq<u8>) -> Seq<u8> {
    hello_message(ts) + seq![0xA3u8, 0x01u8, 0x20u8, 0xA4u8, 0x02u8, 0x00u8, 0xF0u8]
}

/// The message of the confirmation: in addition A5 holds 02.
pub open spec fn confirmation_message(ts: Seq<u8>) -> Seq<u8> {
    parameter_message(ts) + seq![0xA5u8, 0x01u8, 0x02u8]
}

/// The message that asks for the session key: A1 and A2 as in the first request, four zero bytes in
/// A3 and forty in A5.
pub open spec fn key_message(ts: Seq<u8>) -> Seq<u8> {
    hello_message(ts) + seq![0xA3u8, 0x04u8, 0u8, 0u8, 0u8, 0u8, 0xA5u8, 0x28u8] + Seq::new(
        40,
        |i: int| 0u8,
    )
}

/// Whether the bytes are the plain request that follows the given step.
pub open spec fn is_plain_request(step: HandshakeStep, packet: Seq<u8>, ts: Seq<u8>) -> bool {
    let body = packet.subrange(9, packet.len() - 1);
    match step {
        HandshakeStep::Start => is_packet_for(packet, 0x01, 0x00, 0x01) && body == hello_message(
            ts,
        ),
        HandshakeStep::AwaitHello => is_packet_for(packet, 0x01, 0x00, 0x03) && body
            == parameter_message(ts),
        HandshakeStep::AwaitParameters => is_packet_for(packet, 0x01, 0x00, 0x29) && body
            == hello_message(ts),
        HandshakeStep::AwaitInformation => is_packet_for(packet, 0x01, 0x00, 0x05) && body
            == confirmation_message(ts),
        _ => false,
    }
}

/// The bytes of the messages.
proof fn lemma_handshake_messages(ts: Seq<u8>)
    requires
        ts.len() == 4,
    ensures
        tlv_bytes(common_fields(ts)) == hello_message(ts),
        tlv_bytes(parameter_fields(ts)) == parameter_message(ts),
        tlv_bytes(confirmation_fields(ts)) == confirmation_message(ts),
        tlv_bytes(key_fields(ts)) == key_message(ts),
{
    let none = Seq::<Field>::empty();
    let one = none.push((0xA1u8, ts));
    let two = one.push((0xA2u8, A2_STATIC@));
    law_tlv_bytes_of_one_more(none, 0xA1, ts);
    law_tlv_bytes_of_one_more(one, 0xA2, A2_STATIC@);
    assert(common_fields(ts) =~= two);
    assert(tlv_bytes(two) =~= hello_message(ts));
    let a3 = seq![0x20u8];
    let a4 = seq![0x00u8, 0xF0u8];
    let a5 = seq![0x02u8];
    let three = two.push((0xA3u8, a3));
    let four = three.push((0xA4u8, a4));
    law_tlv_bytes_of_one_more(two, 0xA3, a3);
    law_tlv_bytes_of_one_more(three, 0xA4, a4);
    law_tlv_bytes_of_one_more(four, 0xA5, a5);
    assert(parameter_fields(ts) =~= four);
    assert(tlv_bytes(four) =~= parameter_message(ts));
    assert(confirmation_fields(ts) =~= four.push((0xA5u8, a5)));
    assert(tlv_bytes(confirmation_fields(ts)) =~= confirmation_message(ts));
    let zeros4 = Seq::new(4, |i: int| 0u8);
    let zeros40 = Seq::new(40, |i: int| 0u8);
    let other = two.push((0xA3u8, zeros4));
    law_tlv_bytes_of_one_more(two, 0xA3, zeros4);
    law_tlv_bytes_of_one_more(other, 0xA5, zeros40);
    assert(key_fields(ts) =~~= other.push((0xA5u8, zeros40)));
    assert(tlv_bytes(key_fields(ts)) =~= key_message(ts));
}

/// The four plain requests, in their order: 0001, 0003, 0029 and 0005, all for group 01. The
/// first shows the handshake in the dashboard; the last comes only if the reply tells a serial
/// number, and then device information and the initial keys are in place, the initial key with
/// the padded serial number as IV. Nothing else changes.
pub proof fn law_plain_requests(
    s: SessionView,
    d: DashboardView,
    step: HandshakeStep,
    heard: bool,
    reply: Seq<u8>,
    ts: Seq<u8>,
)
    requires
        ts.len() == 4,
    ensures
        ({
            let (s2, d2, step2, action) = handshake_next(s, d, step, heard, reply, ts);
            let info = info_in(tlv_fields(reply, 6));
            &&& action matches ActionView::Exchange { packet } ==> is_plain_request(
                step,
                packet,
                ts,
            )
            &&& step is Start ==> action is Exchange && step2 is AwaitHello && s2 == s && d2
                == (DashboardView { session_phase: SessionPhase::Handshake, ..d })
            &&& step is AwaitHello ==> action is Exchange && step2 is AwaitParameters && s2 == s
                && d2 == d
            &&& step is AwaitParameters ==> action is Exchange && step2 is AwaitInformation && s2
                == s && d2 == d
            &&& step is AwaitInformation && info.serial.len() > 0 ==> {
                &&& action is Exchange
                &&& step2 is AwaitConfirmation
                &&& s2.info == info
                &&& s2.keys == (KeysView::Initial {
                    key: INITIAL_KEY@,
                    iv: padded_iv(encode_utf8(info.serial)),
                })
                &&& s2.pending == s.pending
                &&& s2.verbose == s.verbose
                &&& d2 == (DashboardView { device_info: info, ..d })
            }
            &&& step is AwaitInformation && info.serial.len() == 0 ==> {
                &&& action == (ActionView::Abort { error: SessionError::NoSerial })
                &&& step2 == (HandshakeStep::Failed { error: SessionError::NoSerial })
                &&& s2 == s
                &&& d2 == d
            }
        }),
{
    lemma_handshake_messages(ts);
    law_plain_packet_bytes(0x01, 0x0001, common_fields(ts));
    law_plain_packet_bytes(0x01, 0x0003, parameter_fields(ts));
    law_plain_packet_bytes(0x01, 0x0029, common_fields(ts));
    law_plain_packet_bytes(0x01, 0x0005, confirmation_fields(ts));
}

/// After the confirmation the session key is asked for, with command 0022 for group 01, encrypted
/// with the key and IV in force. It is waited for in ten rounds. Neither session nor dashboard
/// changes.
pub proof fn law_key_request(
    s: SessionView,
    d: DashboardView,
    step: HandshakeStep,
    heard: bool,
    reply: Seq<u8>,
    ts: Seq<u8>,
)
    requires
        ts.len() == 4,
    ensures
        ({
            let (s2, d2, step2, action) = handshake_next(s, d, step, heard, reply, ts);
            &&& action is SendAndPoll <==> step is AwaitConfirmation && s.keys !is Absent
            &&& action matches ActionView::SendAndPoll { packet } ==> carries(
                packet,
                s.keys,
                0x01,
                0x0022,
                key_message(ts),
            ) && step2 == (HandshakeStep::AwaitKey { rounds: 0 })
            &&& step is AwaitConfirmation || step is AwaitKey || step is Finished || step is Failed
                ==> s2 == s && d2 == d
            &&& step is AwaitConfirmation && s.keys is Absent ==> action == (ActionView::Abort {
                error: SessionError::CryptoNotReady,
            }) && step2 == (HandshakeStep::Failed { error: SessionError::CryptoNotReady })
            &&& step is Finished ==> action is Complete && step2 == step
            &&& step matches HandshakeStep::Failed { error } ==> action == (ActionView::Abort {
                error,
            }) && step2 == step
            &&& step matches HandshakeStep::AwaitKey { rounds } ==> {
                &&& heard ==> action is Receive && step2 == step
                &&& !heard && s.keys is Session ==> action is Complete && step2 is Finished
                &&& !heard && s.keys !is Session && rounds < 9 ==> action is Poll && (step2 matches
                    HandshakeStep::AwaitKey { rounds: following } && following == rounds + 1)
                &&& !heard && s.keys !is Session && rounds >= 9 ==> action == (ActionView::Abort {
                    error: SessionError::NoSessionKey,
                }) && step2 == (HandshakeStep::Failed { error: SessionError::NoSessionKey })
            }
        }),
{
    lemma_handshake_messages(ts);
    law_encrypted_packet_bytes(s.keys, 0x01, 0x0022, key_fields(ts));
}

} // verus!
