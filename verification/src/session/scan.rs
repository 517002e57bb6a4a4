//! Trying every command ID and collecting what answers.
use vstd::prelude::*;
use vstd::slice::slice_subrange;

use crate::crypto::{aes_cbc_decrypt, DecryptError};
use crate::parser::strip_flags;
use crate::session::telemetry::keepalive_due;
use crate::session::{DeviceSession, SessionError};

verus! {

use crate::crypto::{cbc_opened, KeysView};
use crate::parser::cmd_of;
use crate::protocol::{law_tlv_bytes_of_one_field, tlv_bytes};
use crate::session::commands::command_fields;
use crate::session::telemetry::KEEPALIVE_SECS;
use crate::session::{
    carries, encrypted_packet, is_packet_for, law_encrypted_packet_bytes, opens_to,
};

/// The first command ID that is tried; the last one is 0xFFFF.
pub const FIRST_SCAN_ID: u16 = 0x0200;

/// The group of the commands that are tried.
pub const SCAN_GROUP: u8 = 0x11;

/// How long to wait for each notification after a command, in milliseconds.
pub const SCAN_RECV_MS: u64 = 150;

// ---------------------------------------------------------------------------
// Responses
// ---------------------------------------------------------------------------

/// A response to a command that was tried.
pub struct ScanHit {
    /// The command ID of the response, without its flags.
    pub cmd: u16,
    /// The notification.
    pub raw: Vec<u8>,
    /// The decrypted message; empty where there is none.
    pub plain: Vec<u8>,
}

/// What `ScanHit` stands for.
#[verifier::ext_equal]
pub struct HitView {
    pub cmd: u16,
    pub raw: Seq<u8>,
    pub plain: Seq<u8>,
}

impl View for ScanHit {
    type V = HitView;

    open spec fn view(&self) -> HitView {
        HitView { cmd: self.cmd, raw: self.raw@, plain: self.plain@ }
    }
}

/// Whether a notification that is long enough for a command ID says that it is encrypted.
pub open spec fn claims_encryption(raw: Seq<u8>) -> bool {
    raw.len() >= 9 && raw[7] & 0x40 != 0
}

/// The ciphertext of an encrypted notification: all between the command ID and the checksum.
pub open spec fn scan_ciphertext(raw: Seq<u8>) -> Seq<u8> {
    raw.subrange(9, raw.len() - 1)
}

/// The response in a notification that is long enough for a command ID, where `opened` is what
/// the cipher made of the ciphertext.
pub open spec fn hit_of(raw: Seq<u8>, opened: Option<Seq<u8>>) -> Option<HitView> {
    if raw.len() < 9 {
        None
    } else {
        Some(
            HitView {
                cmd: cmd_of(raw[7], raw[8]),
                raw,
                plain: match opened {
                    Some(message) if claims_encryption(raw) => message,
                    _ => Seq::empty(),
                },
            },
        )
    }
}

/// What the cipher makes of the ciphertext of a notification under the keys in force.
pub open spec fn scan_opened(keys: KeysView, raw: Seq<u8>) -> Option<Seq<u8>> {
    match keys.pair() {
        Some((key, iv)) => cbc_opened(key, iv, scan_ciphertext(raw)),
        None => None,
    }
}

/// The response in a notification; `opened` is what came back for its ciphertext, if it was
/// decrypted.
pub fn scan_hit(raw: Vec<u8>, opened: Option<Result<Vec<u8>, DecryptError>>) -> (r: Option<ScanHit>)
    ensures
        r is Some <==> raw@.len() >= 9,
        r matches Some(hit) ==> {
            let enc = raw@[7] as int / 64 % 2;
            let ack = raw@[7] as int / 8 % 2;
            &&& hit.cmd == 256 * (raw@[7] - 64 * enc - 8 * ack) + raw@[8]
            &&& hit.raw@ == raw@
            &&& enc == 1 ==> (opened matches Some(Ok(message)) ==> hit.plain@ == message@)
            &&& !(opened matches Some(Ok(_))) || enc == 0 ==> hit.plain@.len() == 0
        },
        r matches Some(hit) ==> Some(hit@) == hit_of(
            raw@,
            match opened {
                Some(Ok(message)) => Some(message@),
                _ => None,
            },
        ),
{
    if raw.len() < 9 {
        return None;
    }
    proof {
        lemma_flag_bits(raw@[7]);
    }
    let cmd: u16 = strip_flags(raw[7], raw[8]);
    let encrypted: bool = raw[7] & 0x40 != 0;
    let plain: Vec<u8> = match opened {
        Some(Ok(message)) => if encrypted {
            message
        } else {
            Vec::new()
        },
        _ => Vec::new(),
    };
    Some(ScanHit { cmd, raw, plain })
}

impl DeviceSession {
    /// The response in a notification that came in while scanning. One that is not decrypted,
    /// because it is not encrypted, because there is no key or because the cipher rejects it,
    /// has an empty message.
    pub fn scan_response(&self, raw: Vec<u8>) -> (r: Option<ScanHit>)
        requires
            claims_encryption(raw@) ==> raw@.len() > 9,
        ensures
            r is Some <==> raw@.len() >= 9,
            r matches Some(hit) ==> Some(hit@) == hit_of(raw@, scan_opened(self@.keys, raw@)),
            r matches Some(hit) ==> {
                let enc = raw@[7] as int / 64 % 2;
                let ack = raw@[7] as int / 8 % 2;
                &&& hit.cmd == 256 * (raw@[7] - 64 * enc - 8 * ack) + raw@[8]
                &&& hit.raw@ == raw@
                &&& enc == 0 || self@.keys is Absent ==> hit.plain@.len() == 0
            },
    {
        proof {
            if raw@.len() >= 9 {
                lemma_flag_bits(raw@[7]);
            }
        }
        if raw.len() >= 9 && raw[7] & 0x40 != 0 {
            let ciphertext: &[u8] = slice_subrange(raw.as_slice(), 9, raw.len() - 1);
            match self.crypto.key_iv() {
                Some((key, iv)) => {
                    let opened = aes_cbc_decrypt(key, iv, ciphertext);
                    scan_hit(raw, Some(opened))
                },
                None => scan_hit(raw, None),
            }
        } else {
            scan_hit(raw, None)
        }
    }
}

// ---------------------------------------------------------------------------
// The scan
// ---------------------------------------------------------------------------

/// How far a scan has come.
#[derive(Debug, Clone, Copy, PartialEq, Eq, Structural)]
pub enum ScanStep {
    /// The command is next, once the session has been kept alive.
    Begin { id: u16 },
    /// The command is next.
    Probe { id: u16 },
    /// The command has been sent.
    Await { id: u16 },
    /// All commands have been tried.
    Finished,
    /// A command could not be sent.
    Failed { error: SessionError },
}

/// What is to be done next.
pub enum ScanAction {
    /// Note the time and send a keepalive; it does not matter whether that works.
    Keepalive,
    /// Write the packet, then wait for a notification for `SCAN_RECV_MS`.
    Exchange { packet: Vec<u8> },
    /// Collect the notification and wait for another one for `SCAN_RECV_MS`.
    Collect,
    /// Nothing: the next command follows.
    Proceed,
    /// Report the responses.
    Complete,
    /// Give up.
    Abort { error: SessionError },
}

/// What `ScanAction` stands for.
#[verifier::ext_equal]
pub enum ScanActionView {
    Keepalive,
    Exchange { packet: Seq<u8> },
    Collect,
    Proceed,
    Complete,
    Abort { error: SessionError },
}

impl View for ScanAction {
    type V = ScanActionView;

    open spec fn view(&self) -> ScanActionView {
        match *self {
            ScanAction::Keepalive => ScanActionView::Keepalive,
            ScanAction::Exchange { packet } => ScanActionView::Exchange { packet: packet@ },
            ScanAction::Collect => ScanActionView::Collect,
            ScanAction::Proceed => ScanActionView::Proceed,
            ScanAction::Complete => ScanActionView::Complete,
            ScanAction::Abort { error } => ScanActionView::Abort { error },
        }
    }
}

/// Sending the command `id`.
pub open spec fn scan_probe(keys: KeysView, id: u16) -> (ScanStep, ScanActionView) {
    match encrypted_packet(keys, SCAN_GROUP, id, command_fields()) {
        Ok(packet) => (ScanStep::Await { id }, ScanActionView::Exchange { packet }),
        Err(error) => (ScanStep::Failed { error }, ScanActionView::Abort { error }),
    }
}

/// The next step and action; `heard` tells whether the wait that `step` stands for brought a
/// notification, and `elapsed_secs` how long ago the last keepalive was.
pub open spec fn scan_next(keys: KeysView, step: ScanStep, heard: bool, elapsed_secs: u64) -> (
    ScanStep,
    ScanActionView,
) {
    match step {
        ScanStep::Begin { id } => if elapsed_secs >= KEEPALIVE_SECS {
            (ScanStep::Probe { id }, ScanActionView::Keepalive)
        } else {
            scan_probe(keys, id)
        },
        ScanStep::Probe { id } => scan_probe(keys, id),
        ScanStep::Await { id } => if heard {
            (step, ScanActionView::Collect)
        } else if id == 0xFFFF {
            (ScanStep::Finished, ScanActionView::Complete)
        } else {
            (ScanStep::Begin { id: (id + 1) as u16 }, ScanActionView::Proceed)
        },
        ScanStep::Finished => (step, ScanActionView::Complete),
        ScanStep::Failed { error } => (step, ScanActionView::Abort { error }),
    }
}

impl DeviceSession {
    /// The next step and action of a scan; `heard` tells whether the wait that `step` stands
    /// for brought a notification, and `elapsed_secs` how long ago the last keepalive was.
    /// Begin with `Begin { id: FIRST_SCAN_ID }`.
    pub fn run_scan(&self, step: ScanStep, heard: bool, elapsed_secs: u64) -> (r: (
        ScanStep,
        ScanAction,
    ))
        ensures
            (r.0, r.1@) == scan_next(self@.keys, step, heard, elapsed_secs),
            r.1 is Exchange <==> self@.keys !is Absent && (step is Probe || step is Begin
                && elapsed_secs < 10),
            r.1 matches ScanAction::Exchange { packet } ==> {
                let id = if step is Begin {
                    step->Begin_id
                } else {
                    step->Probe_id
                };
                &&& carries(packet@, self@.keys, 0x11, id, seq![0xA1u8, 0x01u8, 0x21u8])
                &&& opens_to(packet@, self@.keys, seq![0xA1u8, 0x01u8, 0x21u8])
            },
    {
        match step {
            ScanStep::Begin { id } => {
                if keepalive_due(elapsed_secs) {
                    (ScanStep::Probe { id }, ScanAction::Keepalive)
                } else {
                    self.probe(id)
                }
            },
            ScanStep::Probe { id } => self.probe(id),
            ScanStep::Await { id } => {
                if heard {
                    (step, ScanAction::Collect)
                } else if id == 0xFFFF {
                    (ScanStep::Finished, ScanAction::Complete)
                } else {
                    (ScanStep::Begin { id: id + 1 }, ScanAction::Proceed)
                }
            },
            ScanStep::Finished => (step, ScanAction::Complete),
            ScanStep::Failed { error } => (step, ScanAction::Abort { error }),
        }
    }

    /// Send the command `id`.
    fn probe(&self, id: u16) -> (r: (ScanStep, ScanAction))
        ensures
            (r.0, r.1@) == scan_probe(self@.keys, id),
            r.1 is Exchange <==> self@.keys !is Absent,
            r.1 matches ScanAction::Exchange { packet } ==> carries(
                packet@,
                self@.keys,
                0x11,
                id,
                seq![0xA1u8, 0x01u8, 0x21u8],
            ) && opens_to(packet@, self@.keys, seq![0xA1u8, 0x01u8, 0x21u8]),
    {
        match self.command_packet(SCAN_GROUP, id) {
            Ok(packet) => (ScanStep::Await { id }, ScanAction::Exchange { packet }),
            Err(error) => (ScanStep::Failed { error }, ScanAction::Abort { error }),
        }
    }
}

// ---------------------------------------------------------------------------
// Laws
// ---------------------------------------------------------------------------

/// What a scan meets at one step: the keys in force, whether a notification came, and how long
/// ago the last keepalive was.
pub type Meeting = (KeysView, bool, u64);

/// The step and the last action after a run from the first command on.
pub open spec fn scan_run(met: Seq<Meeting>) -> (ScanStep, ScanActionView)
    decreases met.len(),
{
    if met.len() == 0 {
        (ScanStep::Begin { id: FIRST_SCAN_ID }, ScanActionView::Proceed)
    } else {
        let before = scan_run(met.drop_last()).0;
        scan_next(met.last().0, before, met.last().1, met.last().2)
    }
}

/// The commands that have been tried in a run.
pub open spec fn ids_tried(met: Seq<Meeting>) -> Seq<u16>
    decreases met.len(),
{
    if met.len() == 0 {
        Seq::empty()
    } else {
        let earlier = ids_tried(met.drop_last());
        match (scan_run(met.drop_last()).0, scan_run(met).1) {
            (ScanStep::Begin { id }, ScanActionView::Exchange { .. }) => earlier.push(id),
            (ScanStep::Probe { id }, ScanActionView::Exchange { .. }) => earlier.push(id),
            _ => earlier,
        }
    }
}

/// The command IDs from the first one up to, but not including, `end`.
pub open spec fn ids_below(end: int) -> Seq<u16> {
    Seq::new((end - FIRST_SCAN_ID) as nat, |i: int| (FIRST_SCAN_ID + i) as u16)
}

/// The packets that have been sent in a run.
pub open spec fn packets_tried(met: Seq<Meeting>) -> Seq<Seq<u8>>
    decreases met.len(),
{
    if met.len() == 0 {
        Seq::empty()
    } else {
        match scan_run(met).1 {
            ScanActionView::Exchange { packet } => packets_tried(met.drop_last()).push(packet),
            _ => packets_tried(met.drop_last()),
        }
    }
}

/// A scan tries the command IDs from 0x0200 up, each once, and it is finished only when it has
/// tried them all, up to 0xFFFF. The packets say the same: the one with number `i`, counted from
/// zero, is for group 11 and for the ID 0x0200 + `i`.
pub proof fn law_scan_tries_every_id_once(met: Seq<Meeting>)
    ensures
        forall|i: int|
            0 <= i < packets_tried(met).len() ==> is_packet_for(
                #[trigger] packets_tried(met)[i],
                0x11,
                ((0x0200 + i) / 256) as u8 | 0x40,
                ((0x0200 + i) % 256) as u8,
            ),
        match scan_run(met).0 {
            ScanStep::Begin { id } => packets_tried(met).len() == id - 0x0200,
            ScanStep::Probe { id } => packets_tried(met).len() == id - 0x0200,
            ScanStep::Await { id } => packets_tried(met).len() == id - 0x0200 + 1,
            ScanStep::Finished => packets_tried(met).len() == 0xFFFF - 0x0200 + 1,
            ScanStep::Failed { .. } => packets_tried(met).len() <= 0xFFFF - 0x0200 + 1,
        },
        match scan_run(met).0 {
            ScanStep::Begin { id } => id >= FIRST_SCAN_ID && ids_tried(met) == ids_below(id as int),
            ScanStep::Probe { id } => id >= FIRST_SCAN_ID && ids_tried(met) == ids_below(id as int),
            ScanStep::Await { id } => id >= FIRST_SCAN_ID && ids_tried(met) == ids_below(id + 1),
            ScanStep::Finished => ids_tried(met) == ids_below(0x10000),
            ScanStep::Failed { .. } => true,
        },
    decreases met.len(),
{
    if met.len() == 0 {
        assert(ids_tried(met) =~= ids_below(FIRST_SCAN_ID as int));
    } else {
        law_scan_tries_every_id_once(met.drop_last());
        let (keys, heard, elapsed_secs) = met.last();
        law_scan_sends_the_id(keys, scan_run(met.drop_last()).0, heard, elapsed_secs);
        let before = packets_tried(met.drop_last());
        assert forall|i: int| 0 <= i < packets_tried(met).len() implies is_packet_for(
            #[trigger] packets_tried(met)[i],
            0x11,
            ((0x0200 + i) / 256) as u8 | 0x40,
            ((0x0200 + i) % 256) as u8,
        ) by {
            if i < before.len() {
                assert(packets_tried(met)[i] == before[i]);
            }
        }
        match scan_run(met.drop_last()).0 {
            ScanStep::Begin { id } => {
                assert(ids_below(id as int).push(id) =~= ids_below(id + 1));
            },
            ScanStep::Probe { id } => {
                assert(ids_below(id as int).push(id) =~= ids_below(id + 1));
            },
            _ => {},
        }
    }
}

/// A scan fails only where there is no key.
pub proof fn law_scan_fails_without_a_key(
    keys: KeysView,
    step: ScanStep,
    heard: bool,
    elapsed_secs: u64,
)
    requires
        step !is Failed,
    ensures
        scan_next(keys, step, heard, elapsed_secs).0 is Failed ==> keys is Absent && scan_next(
            keys,
            step,
            heard,
            elapsed_secs,
        ).1 == (ScanActionView::Abort { error: SessionError::CryptoNotReady }),
        step is Probe && keys is Absent ==> scan_next(keys, step, heard, elapsed_secs).0 is Failed,
{
}

/// Only an encrypted notification that the cipher accepts has a message.
pub proof fn law_only_decrypted_responses_have_a_message(keys: KeysView, raw: Seq<u8>)
    requires
        raw.len() >= 9,
        hit_of(raw, scan_opened(keys, raw)).unwrap().plain.len() > 0,
    ensures
        claims_encryption(raw),
        keys.pair() matches Some((key, iv)) && cbc_opened(key, iv, scan_ciphertext(raw)) is Some,
{
}

/// The flags in the high byte of a command.
proof fn lemma_flag_bits(high: u8)
    ensures
        high & 0x40 != 0 <==> high as int / 64 % 2 == 1,
        high as int - 64 * (high as int / 64 % 2) - 8 * (high as int / 8 % 2) == high & 0xB7,
{
    assert(high & 0x40 != 0 <==> high / 64 % 2 == 1) by (bit_vector);
    assert((high & 0xB7) + 64 * (high / 64 % 2) + 8 * (high / 8 % 2) == high) by (bit_vector);
}

/// A packet is sent exactly where a command is next, the session needs no keepalive first and there
/// is a key. It is for group 11 and for the ID of the step, and carries 21 in A1, encrypted with
/// the key and IV in force, of whichever stage they are.
pub proof fn law_scan_sends_the_id(keys: KeysView, step: ScanStep, heard: bool, elapsed_secs: u64)
    ensures
        ({
            let (next, action) = scan_next(keys, step, heard, elapsed_secs);
            let sends = step is Probe || step is Begin && elapsed_secs < 10;
            let id = if step is Begin {
                step->Begin_id
            } else {
                step->Probe_id
            };
            &&& action is Exchange <==> sends && keys !is Absent
            &&& action matches ScanActionView::Exchange { packet } ==> carries(
                packet,
                keys,
                0x11,
                id,
                seq![0xA1u8, 0x01u8, 0x21u8],
            ) && next == (ScanStep::Await { id })
            &&& sends && keys is Absent ==> action == (ScanActionView::Abort {
                error: SessionError::CryptoNotReady,
            }) && next == (ScanStep::Failed { error: SessionError::CryptoNotReady })
        }),
{
    law_tlv_bytes_of_one_field(0xA1, seq![0x21u8]);
    assert(tlv_bytes(command_fields()) =~= seq![0xA1u8, 0x01u8, 0x21u8]);
    match step {
        ScanStep::Begin { id } => law_encrypted_packet_bytes(keys, 0x11, id, command_fields()),
        ScanStep::Probe { id } => law_encrypted_packet_bytes(keys, 0x11, id, command_fields()),
        _ => {},
    }
}

/// Ten seconds after the last keepalive another one comes before the next command. After a command,
/// notifications are collected as long as they come; then the next ID is up, and after FFFF the
/// scan is over. A scan that is over stays so.
pub proof fn law_scan_goes_on(keys: KeysView, step: ScanStep, heard: bool, elapsed_secs: u64)
    ensures
        ({
            let (next, action) = scan_next(keys, step, heard, elapsed_secs);
            &&& action is Keepalive <==> step is Begin && elapsed_secs >= 10
            &&& step matches ScanStep::Begin { id } ==> (elapsed_secs >= 10 ==> next
                == (ScanStep::Probe { id }))
            &&& action is Collect <==> step is Await && heard
            &&& step is Await && heard ==> next == step
            &&& step matches ScanStep::Await { id } ==> {
                &&& !heard && id < 0xFFFF ==> action is Proceed && (next matches ScanStep::Begin {
                    id: following,
                } && following == id + 1)
                &&& !heard && id == 0xFFFF ==> action is Complete && next is Finished
            }
            &&& step is Finished ==> action is Complete && next is Finished
            &&& step matches ScanStep::Failed { error } ==> action == (ScanActionView::Abort {
                error,
            }) && next == step
        }),
{
}

/// What a notification is reported as: from nine bytes on, with the command in bytes 7 and 8
/// without its two flags and with its bytes as they are. The message is what the key and IV in
/// force make of the bytes behind the ninth and before the checksum, if the encryption flag is set
/// and there is a key and they open; otherwise it is empty.
pub proof fn law_scan_response(keys: KeysView, raw: Seq<u8>)
    ensures
        ({
            let r = hit_of(raw, scan_opened(keys, raw));
            &&& r is Some <==> raw.len() >= 9
            &&& r matches Some(hit) ==> {
                let enc = raw[7] as int / 64 % 2;
                let ack = raw[7] as int / 8 % 2;
                let ciphertext = raw.subrange(9, raw.len() - 1);
                &&& hit.cmd == 256 * (raw[7] - 64 * enc - 8 * ack) + raw[8]
                &&& hit.raw == raw
                &&& enc == 0 || keys is Absent ==> hit.plain.len() == 0
                &&& enc == 1 ==> (keys matches KeysView::Initial { key, iv } ==> (cbc_opened(
                    key,
                    iv,
                    ciphertext,
                ) is Some ==> hit.plain == cbc_opened(key, iv, ciphertext)->0) && (cbc_opened(
                    key,
                    iv,
                    ciphertext,
                ) is None ==> hit.plain.len() == 0))
                &&& enc == 1 ==> (keys matches KeysView::Session { key, iv } ==> (cbc_opened(
                    key,
                    iv,
                    ciphertext,
                ) is Some ==> hit.plain == cbc_opened(key, iv, ciphertext)->0) && (cbc_opened(
                    key,
                    iv,
                    ciphertext,
                ) is None ==> hit.plain.len() == 0))
            }
        }),
{
    if raw.len() >= 9 {
        lemma_flag_bits(raw[7]);
    }
}

} // verus!
