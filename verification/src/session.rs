//! The encrypted session with a device: sending, receiving and routing.
pub mod commands;
pub mod handshake;
pub mod scan;
pub mod telemetry;

use std::time::Instant;
use vstd::prelude::*;
use vstd::slice::{slice_subrange, slice_to_vec};

use crate::crypto::{aes_cbc_decrypt, aes_cbc_encrypt, CryptoKeys, DecryptError};
use crate::fragments::FragmentBuffer;
use crate::parser::{apply_status_at, decode_packet, parse_session_key_response, DecodedPacket};
use crate::protocol::{build_encrypted_payload, build_payload, build_tlv, frame_packet, INITIAL_KEY};
use crate::state::{DashboardState, DeviceInfo, SessionPhase};

verus! {

use crate::crypto::{cbc_opened, cbc_sealed, padded_len, KeysView};
use crate::fragments::{
    distinct_indices, fed, fed_run, joined, key_cmd, law_reassembly, law_reassembly_in_order,
    law_reassembly_sorts_fragments, law_unfragmented_data_passes_through, rising, run_data,
    run_parts, Pending,
};
use crate::parser::{
    bare_cmd, decoded, inner, law_decoded_bytes, law_frame_roundtrip, law_plain_packet_roundtrip,
    law_sealed_packet_roundtrip, session_iv_in, session_key_in, status_after_all, PacketView,
};
use crate::protocol::{
    fields_of, frame_body, framed, law_tlv_concat, law_tlv_roundtrip, plain_payload,
    sealed_payload, tlv_bytes, tlv_fields, tlv_item, xor_of, Field,
};
use crate::state::{unknown_device, DashboardView, InfoView};

// ---------------------------------------------------------------------------
// Types
// ---------------------------------------------------------------------------

/// What can go wrong in a session, apart from the link itself.
#[derive(Debug, Clone, Copy, PartialEq, Eq, Structural)]
pub enum SessionError {
    /// An encrypted message was to be sent before there was a key.
    CryptoNotReady,
    /// The device did not tell its serial number.
    NoSerial,
    /// The device did not answer the key exchange.
    NoSessionKey,
}

/// The text of an error.
pub open spec fn error_text(e: SessionError) -> Seq<char> {
    match e {
        SessionError::CryptoNotReady =>
            "Crypto not ready — send_encrypted called before key exchange"@,
        SessionError::NoSerial => "Serial number not extracted from handshake — aborting"@,
        SessionError::NoSessionKey =>
            "Timed out waiting for session key.\nThe device may use a different TLV tag — check decrypted hex and update parse_session_key_response()."@,
    }
}

impl SessionError {
    /// The text of the error.
    pub fn message(&self) -> (r: &'static str)
        ensures
            r@ == error_text(*self),
            *self is CryptoNotReady ==> r@
                == "Crypto not ready — send_encrypted called before key exchange"@,
            *self is NoSerial ==> r@ == "Serial number not extracted from handshake — aborting"@,
            *self is NoSessionKey ==> r@
                == "Timed out waiting for session key.\nThe device may use a different TLV tag — check decrypted hex and update parse_session_key_response()."@,
    {
        match self {
            SessionError::CryptoNotReady =>
                "Crypto not ready — send_encrypted called before key exchange",
            SessionError::NoSerial => "Serial number not extracted from handshake — aborting",
            SessionError::NoSessionKey =>
                "Timed out waiting for session key.\nThe device may use a different TLV tag — check decrypted hex and update parse_session_key_response().",
        }
    }
}

/// What a decrypted message was taken for.
#[derive(Debug, Clone, Copy, PartialEq, Eq, Structural)]
pub enum Route {
    /// Comprehensive status.
    Status,
    /// Live power readings.
    LivePower,
    /// Key exchange with a new session key.
    NewSessionKey,
    /// Key exchange without a key; the initial key and IV are used on.
    ReusedInitialKey,
    /// A command that nothing is known of.
    Unknown,
}

/// What became of a notification.
#[derive(Debug, Clone, Copy, PartialEq, Eq, Structural)]
pub enum RecvEvent {
    /// Too short for a packet.
    NotAPacket,
    /// An unencrypted packet.
    Plain,
    /// Encrypted, but there is no key yet.
    NoKey,
    /// A fragment of a response that is still incomplete.
    Buffered,
    /// A ciphertext of the given length that could not be decrypted.
    DecryptError { ciphertext_len: usize },
    /// A ciphertext of the given length that was decrypted and routed.
    Decrypted { ciphertext_len: usize, route: Route },
}

/// A notification after decoding.
pub struct Received {
    /// The decrypted message; the inner payload of an unencrypted packet; otherwise the
    /// notification itself.
    pub content: Vec<u8>,
    /// What became of the notification.
    pub event: RecvEvent,
}

/// The protocol state of a session with one device.
pub struct DeviceSession {
    crypto: CryptoKeys,
    device_info: DeviceInfo,
    frag_buf: FragmentBuffer,
    /// Whether to print raw protocol debug output.
    pub verbose: bool,
}

/// What `DeviceSession` stands for.
#[verifier::ext_equal]
pub struct SessionView {
    pub keys: KeysView,
    pub info: InfoView,
    pub pending: Pending,
    pub verbose: bool,
}

impl View for DeviceSession {
    type V = SessionView;

    closed spec fn view(&self) -> SessionView {
        SessionView {
            keys: self.crypto@,
            info: self.device_info@,
            pending: self.frag_buf@,
            verbose: self.verbose,
        }
    }
}

// ---------------------------------------------------------------------------
// What receiving does
// ---------------------------------------------------------------------------

/// Where the fields of a decrypted message begin: behind a leading zero byte, if there is one.
pub open spec fn fields_offset(data: Seq<u8>) -> int {
    if data.len() > 0 && data[0] == 0 {
        1
    } else {
        0
    }
}

/// The fields of a decrypted message.
pub open spec fn message_fields(data: Seq<u8>) -> Seq<Field> {
    tlv_fields(data, fields_offset(data))
}

/// The commands that carry a comprehensive status.
pub open spec fn is_status_cmd(cmd: u16) -> bool {
    cmd == 0x0300 || cmd == 0x0D00 || cmd == 0x8200 || cmd == 0x820A || cmd == 0x8402 || cmd
        == 0x8405
}

/// The IV of the plain handshake, or zeros where it is not in force.
pub open spec fn handshake_iv(keys: KeysView) -> Seq<u8> {
    match keys {
        KeysView::Initial { key, iv } => iv,
        _ => Seq::new(16, |i: int| 0u8),
    }
}

/// The key of the plain handshake.
pub open spec fn handshake_key(keys: KeysView) -> Seq<u8> {
    match keys {
        KeysView::Initial { key, iv } => key,
        _ => INITIAL_KEY@,
    }
}

/// The session keys after a key exchange response.
pub open spec fn keys_after(keys: KeysView, fields: Seq<Field>) -> KeysView {
    match session_key_in(fields) {
        Some(key) => KeysView::Session {
            key,
            iv: match session_iv_in(fields) {
                Some(iv) => iv,
                None => handshake_iv(keys),
            },
        },
        None => KeysView::Session { key: handshake_key(keys), iv: handshake_iv(keys) },
    }
}

/// The session, the dashboard and the route of a decrypted message.
pub open spec fn routed(
    s: SessionView,
    d: DashboardView,
    cmd: u16,
    data: Seq<u8>,
    now: Instant,
) -> (SessionView, DashboardView, Route) {
    let fields = message_fields(data);
    if is_status_cmd(cmd) {
        (s, status_after_all(d, fields, now), Route::Status)
    } else if cmd == 0x050E {
        (s, status_after_all(d, fields, now), Route::LivePower)
    } else if cmd == 0x0022 {
        (
            SessionView { keys: keys_after(s.keys, fields), ..s },
            DashboardView { session_phase: SessionPhase::Session, ..d },
            if session_key_in(fields) is Some {
                Route::NewSessionKey
            } else {
                Route::ReusedInitialKey
            },
        )
    } else {
        (s, d, Route::Unknown)
    }
}

/// What a notification leads to.
#[verifier::ext_equal]
pub struct Outcome {
    pub session: SessionView,
    pub dashboard: DashboardView,
    pub content: Seq<u8>,
    pub event: RecvEvent,
}

/// What follows once a ciphertext of `len` bytes has been handed to the cipher and `opened`
/// came back.
pub open spec fn finished(
    s: SessionView,
    d: DashboardView,
    raw: Seq<u8>,
    cmd: u16,
    len: usize,
    opened: Option<Seq<u8>>,
    now: Instant,
) -> Outcome {
    match opened {
        Some(message) => {
            let (session, dashboard, route) = routed(s, d, cmd, message, now);
            Outcome {
                session,
                dashboard,
                content: message,
                event: RecvEvent::Decrypted { ciphertext_len: len, route },
            }
        },
        None => Outcome {
            session: s,
            dashboard: d,
            content: raw,
            event: RecvEvent::DecryptError { ciphertext_len: len },
        },
    }
}

/// Whether the body begins with a fragment header.
pub open spec fn is_fragment(pkt: PacketView) -> bool {
    pkt.pattern == seq![0x03u8, 0x01u8, 0x0Fu8] && pkt.body.len() > 0
}

/// The ciphertext of an encrypted packet, once it is complete: the body, or what the fragment
/// in it completes. The header byte holds the index (high nibble) and the total (low nibble).
pub open spec fn gathered(pending: Pending, pkt: PacketView) -> (Pending, Option<Seq<u8>>) {
    if is_fragment(pkt) {
        fed(pending, pkt.cmd, pkt.body[0] / 16, pkt.body[0] % 16, pkt.body.skip(1))
    } else {
        (pending, Some(pkt.body))
    }
}

/// What a notification that arrives at `now` leads to.
pub open spec fn received(s: SessionView, d: DashboardView, raw: Seq<u8>, now: Instant) -> Outcome {
    match decoded(raw) {
        None => Outcome { session: s, dashboard: d, content: raw, event: RecvEvent::NotAPacket },
        Some(pkt) => if !pkt.is_enc {
            Outcome { session: s, dashboard: d, content: inner(raw), event: RecvEvent::Plain }
        } else {
            match s.keys.pair() {
                None => Outcome { session: s, dashboard: d, content: raw, event: RecvEvent::NoKey },
                Some((key, iv)) => {
                    let (pending, whole) = gathered(s.pending, pkt);
                    let kept = SessionView { pending, ..s };
                    match whole {
                        None => Outcome {
                            session: kept,
                            dashboard: d,
                            content: raw,
                            event: RecvEvent::Buffered,
                        },
                        Some(ct) => finished(
                            kept,
                            d,
                            raw,
                            pkt.cmd,
                            ct.len() as usize,
                            cbc_opened(key, iv, ct),
                            now,
                        ),
                    }
                },
            }
        },
    }
}

// ---------------------------------------------------------------------------
// What sending does
// ---------------------------------------------------------------------------

/// A plain packet.
pub open spec fn plain_packet(group: u8, cmd: u16, fields: Seq<Field>) -> Seq<u8> {
    framed(plain_payload(group, cmd, fields))
}

/// An encrypted packet around a ciphertext.
pub open spec fn sealed_packet(group: u8, cmd: u16, ciphertext: Seq<u8>) -> Seq<u8> {
    framed(sealed_payload(group, cmd, ciphertext))
}

/// An encrypted packet with the given fields, if there is a key to encrypt them with.
pub open spec fn encrypted_packet(keys: KeysView, group: u8, cmd: u16, fields: Seq<Field>) -> Result<
    Seq<u8>,
    SessionError,
> {
    match keys.pair() {
        Some((key, iv)) => Ok(sealed_packet(group, cmd, cbc_sealed(key, iv, tlv_bytes(fields)))),
        None => Err(SessionError::CryptoNotReady),
    }
}

/// The bytes of a packet or the error in its place.
pub open spec fn packet_of(r: Result<Vec<u8>, SessionError>) -> Result<Seq<u8>, SessionError> {
    match r {
        Ok(packet) => Ok(packet@),
        Err(e) => Err(e),
    }
}

// ---------------------------------------------------------------------------
// The session
// ---------------------------------------------------------------------------

/// Whether the body begins with a fragment header.
pub fn has_fragment(pkt: &DecodedPacket) -> (r: bool)
    ensures
        r == is_fragment(pkt@),
        r == (pkt.pattern@[0] == 0x03 && pkt.pattern@[1] == 0x01 && pkt.pattern@[2] == 0x0F
            && pkt.body@.len() > 0),
{
    let r: bool = pkt.pattern[0] == 0x03 && pkt.pattern[1] == 0x01 && pkt.pattern[2] == 0x0F
        && pkt.body.len() > 0;
    proof {
        let p = pkt.pattern@;
        let f = seq![0x03u8, 0x01u8, 0x0Fu8];
        if r {
            assert(p =~= f);
        } else if pkt.body@.len() > 0 {
            assert(p[0] != f[0] || p[1] != f[1] || p[2] != f[2]);
        }
    }
    r
}

impl DeviceSession {
    /// A session before the handshake.
    pub fn new(verbose: bool) -> (r: Self)
        ensures
            r@ == (SessionView {
                keys: KeysView::Absent,
                info: unknown_device(),
                pending: Pending::empty(),
                verbose,
            }),
    {
        DeviceSession {
            crypto: CryptoKeys::Absent,
            device_info: DeviceInfo::default(),
            frag_buf: FragmentBuffer::default(),
            verbose,
        }
    }

    /// The keys in force.
    pub fn crypto(&self) -> (r: &CryptoKeys)
        ensures
            r@ == self@.keys,
    {
        &self.crypto
    }

    /// Who the device is.
    pub fn device_info(&self) -> (r: &DeviceInfo)
        ensures
            r@ == self@.info,
    {
        &self.device_info
    }

    /// The plain packet with the given fields.
    pub fn send_plain(&self, group: u8, cmd: u16, tlv: &[(u8, &[u8])]) -> (packet: Vec<u8>)
        requires
            tlv_bytes(fields_of(tlv@)).len() + 10 <= usize::MAX,
        ensures
            packet@ == plain_packet(group, cmd, fields_of(tlv@)),
            is_packet_for(packet@, group, (cmd / 256) as u8, (cmd % 256) as u8),
            packet@.subrange(9, packet@.len() - 1) == tlv_bytes(fields_of(tlv@)),
    {
        proof {
            law_plain_packet_bytes(group, cmd, fields_of(tlv@));
        }
        let payload: Vec<u8> = build_payload(group, cmd, tlv);
        frame_packet(payload.as_slice())
    }

    /// The encrypted packet with the given fields. Whoever holds the same key and IV gets the
    /// fields back.
    pub fn send_encrypted(&self, group: u8, cmd: u16, tlv: &[(u8, &[u8])]) -> (r: Result<
        Vec<u8>,
        SessionError,
    >)
        requires
            padded_len(tlv_bytes(fields_of(tlv@)).len()) + 10 <= usize::MAX,
        ensures
            packet_of(r) == encrypted_packet(self@.keys, group, cmd, fields_of(tlv@)),
            r is Err <==> self@.keys is Absent,
            r matches Ok(packet) ==> carries(
                packet@,
                self@.keys,
                group,
                cmd,
                tlv_bytes(fields_of(tlv@)),
            ),
            r matches Ok(packet) ==> opens_to(
                packet@,
                self@.keys,
                tlv_bytes(fields_of(tlv@)),
            ),
            r matches Ok(packet) ==> forall|peer: SessionView, d: DashboardView, now: Instant|
                peer.keys.pair() == self@.keys.pair() ==> (#[trigger] received(
                    peer,
                    d,
                    packet@,
                    now,
                )).content == tlv_bytes(fields_of(tlv@)),
    {
        match self.crypto.key_iv() {
            None => Err(SessionError::CryptoNotReady),
            Some((key, iv)) => {
                let plaintext: Vec<u8> = build_tlv(tlv);
                let ciphertext: Vec<u8> = aes_cbc_encrypt(key, iv, plaintext.as_slice());
                let payload: Vec<u8> = build_encrypted_payload(group, cmd, ciphertext.as_slice());
                let packet: Vec<u8> = frame_packet(payload.as_slice());
                proof {
                    law_encrypted_packet_bytes(self@.keys, group, cmd, fields_of(tlv@));
                    law_sealed_packet_roundtrip(group, cmd, ciphertext@);
                    let pkt = decoded(packet@).unwrap();
                    assert(pkt.pattern[1] != 0x01u8);
                    assert(seq![0x03u8, 0x01u8, 0x0Fu8][1] == 0x01u8);
                    assert(!is_fragment(pkt));
                }
                Ok(packet)
            },
        }
    }

    /// Route decrypted payload to the appropriate parser and update the dashboard.
    pub fn route_decrypted(
        &mut self,
        cmd: u16,
        data: &[u8],
        now: Instant,
        state: &mut DashboardState,
    ) -> (route: Route)
        ensures
            (final(self)@, final(state)@, route) == routed(old(self)@, old(state)@, cmd, data@, now),
    {
        let offset: usize = if data.len() > 0 && data[0] == 0 {
            1
        } else {
            0
        };
        match cmd {
            0x0300 | 0x0D00 | 0x8200 | 0x820A | 0x8402 | 0x8405 => {
                apply_status_at(data, offset, now, state);
                Route::Status
            },
            0x050E => {
                apply_status_at(data, offset, now, state);
                Route::LivePower
            },
            0x0022 => {
                let (new_key, new_iv) = parse_session_key_response(data, offset);
                let (initial_key, initial_iv): ([u8; 16], [u8; 16]) = match self.crypto {
                    CryptoKeys::Initial { key, iv } => (key, iv),
                    _ => (INITIAL_KEY, [0u8; 16]),
                };
                proof {
                    assert(initial_iv@ =~= handshake_iv(self@.keys));
                }
                let route: Route;
                match new_key {
                    Some(key) => {
                        let iv: [u8; 16] = match new_iv {
                            Some(iv) => iv,
                            None => initial_iv,
                        };
                        self.crypto = CryptoKeys::Session { key, iv };
                        route = Route::NewSessionKey;
                    },
                    None => {
                        self.crypto = CryptoKeys::Session { key: initial_key, iv: initial_iv };
                        route = Route::ReusedInitialKey;
                    },
                }
                state.session_phase = SessionPhase::Session;
                route
            },
            _ => Route::Unknown,
        }
    }

    /// What follows once the cipher has been asked to open the ciphertext of `raw`, which is
    /// `ciphertext_len` bytes long.
    pub fn finish_receive(
        &mut self,
        raw: Vec<u8>,
        cmd: u16,
        ciphertext_len: usize,
        opened: Result<Vec<u8>, DecryptError>,
        now: Instant,
        state: &mut DashboardState,
    ) -> (r: Received)
        ensures
            (Outcome {
                session: final(self)@,
                dashboard: final(state)@,
                content: r.content@,
                event: r.event,
            }) == finished(
                old(self)@,
                old(state)@,
                raw@,
                cmd,
                ciphertext_len,
                match opened {
                    Ok(message) => Some(message@),
                    Err(_) => None,
                },
                now,
            ),
    {
        match opened {
            Ok(message) => {
                let route = self.route_decrypted(cmd, message.as_slice(), now, state);
                Received {
                    content: message,
                    event: RecvEvent::Decrypted { ciphertext_len, route },
                }
            },
            Err(_) => Received { content: raw, event: RecvEvent::DecryptError { ciphertext_len } },
        }
    }

    /// The ciphertext of an encrypted packet, once it is complete.
    fn gather(&mut self, pkt: DecodedPacket) -> (r: Option<Vec<u8>>)
        ensures
            final(self)@ == (SessionView {
                pending: gathered(old(self)@.pending, pkt@).0,
                ..old(self)@
            }),
            r is Some <==> gathered(old(self)@.pending, pkt@).1 is Some,
            r matches Some(ct) ==> gathered(old(self)@.pending, pkt@).1 == Some(ct@),
    {
        if has_fragment(&pkt) {
            let header: u8 = pkt.body[0];
            let data: Vec<u8> = slice_to_vec(
                slice_subrange(pkt.body.as_slice(), 1, pkt.body.len()),
            );
            assert(data@ =~= pkt.body@.skip(1));
            let cmd_key: [u8; 2] = [(pkt.cmd / 256) as u8, (pkt.cmd % 256) as u8];
            assert(key_cmd(cmd_key@) == pkt.cmd);
            self.frag_buf.feed(cmd_key, header / 16, header % 16, data)
        } else {
            Some(pkt.body)
        }
    }

    /// Decode a notification that arrives at `now`, decrypt it if needed and route it.
    pub fn recv_and_decode_at(
        &mut self,
        raw: Vec<u8>,
        now: Instant,
        state: &mut DashboardState,
    ) -> (r: Received)
        ensures
            (Outcome {
                session: final(self)@,
                dashboard: final(state)@,
                content: r.content@,
                event: r.event,
            }) == received(old(self)@, old(state)@, raw@, now),
    {
        let pkt = match decode_packet(raw.as_slice()) {
            None => {
                return Received { content: raw, event: RecvEvent::NotAPacket };
            },
            Some(pkt) => pkt,
        };
        if !pkt.is_enc {
            let payload: Vec<u8> = slice_to_vec(
                slice_subrange(raw.as_slice(), 4, raw.len() - 1),
            );
            return Received { content: payload, event: RecvEvent::Plain };
        }
        let (key, iv): ([u8; 16], [u8; 16]) = match self.crypto.key_iv() {
            None => {
                return Received { content: raw, event: RecvEvent::NoKey };
            },
            Some((key, iv)) => (*key, *iv),
        };
        let cmd: u16 = pkt.cmd;
        match self.gather(pkt) {
            None => Received { content: raw, event: RecvEvent::Buffered },
            Some(ciphertext) => {
                let opened = aes_cbc_decrypt(&key, &iv, ciphertext.as_slice());
                self.finish_receive(raw, cmd, ciphertext.len(), opened, now, state)
            },
        }
    }

    /// Decode a notification, decrypt it if needed and route it.
    pub fn recv_and_decode(&mut self, raw: Vec<u8>, state: &mut DashboardState) -> (r: Received)
        ensures
            exists|now: Instant|
                (Outcome {
                    session: final(self)@,
                    dashboard: final(state)@,
                    content: r.content@,
                    event: r.event,
                }) == #[trigger] received(old(self)@, old(state)@, raw@, now),
    {
        self.recv_and_decode_at(raw, Instant::now(), state)
    }
}

// ---------------------------------------------------------------------------
// Laws
// ---------------------------------------------------------------------------

/// Without a key nothing that arrives changes the session or the dashboard.
pub proof fn law_nothing_changes_without_a_key(
    s: SessionView,
    d: DashboardView,
    raw: Seq<u8>,
    now: Instant,
)
    requires
        s.keys is Absent,
    ensures
        received(s, d, raw, now).session == s,
        received(s, d, raw, now).dashboard == d,
        !(received(s, d, raw, now).event is Decrypted),
{
}

/// An unencrypted packet changes nothing; its content is its inner payload.
pub proof fn law_plain_packets_change_nothing(
    s: SessionView,
    d: DashboardView,
    raw: Seq<u8>,
    now: Instant,
)
    requires
        decoded(raw) matches Some(pkt) && !pkt.is_enc,
    ensures
        received(s, d, raw, now) == (Outcome {
            session: s,
            dashboard: d,
            content: inner(raw),
            event: RecvEvent::Plain,
        }),
{
}

/// Keys only move forward while notifications are received: from initial to session keys,
/// never back and never away. Device information is not touched.
pub proof fn law_keys_only_move_forward(
    s: SessionView,
    d: DashboardView,
    raw: Seq<u8>,
    now: Instant,
)
    ensures
        ({
            let after = received(s, d, raw, now).session;
            &&& s.keys is Session ==> after.keys is Session
            &&& s.keys is Initial ==> after.keys == s.keys || after.keys is Session
            &&& s.keys is Absent ==> after.keys is Absent
            &&& after.info == s.info
            &&& after.verbose == s.verbose
        }),
{
}

/// The keys change only when a decrypted key exchange response comes in, and then the
/// dashboard shows the session as established.
pub proof fn law_new_keys_establish_the_session(
    s: SessionView,
    d: DashboardView,
    raw: Seq<u8>,
    now: Instant,
)
    requires
        received(s, d, raw, now).session.keys != s.keys,
    ensures
        decoded(raw) matches Some(pkt) && pkt.is_enc && pkt.cmd == 0x0022,
        received(s, d, raw, now).session.keys is Session,
        received(s, d, raw, now).dashboard.session_phase == SessionPhase::Session,
{
}

/// What cannot be decoded or decrypted is handed back as it arrived and leaves keys and
/// dashboard alone.
pub proof fn law_failures_hand_back_the_notification(
    s: SessionView,
    d: DashboardView,
    raw: Seq<u8>,
    now: Instant,
)
    requires
        ({
            let event = received(s, d, raw, now).event;
            event is NotAPacket || event is NoKey || event is Buffered || event is DecryptError
        }),
    ensures
        received(s, d, raw, now).content == raw,
        received(s, d, raw, now).session.keys == s.keys,
        received(s, d, raw, now).dashboard == d,
{
}

/// A plain packet arrives as the payload that it was built from, unless its command says that it
/// is encrypted.
pub proof fn law_plain_message_arrives(
    s: SessionView,
    d: DashboardView,
    group: u8,
    cmd: u16,
    fields: Seq<Field>,
    now: Instant,
)
    requires
        cmd & 0x4000 == 0,
    ensures
        received(s, d, plain_packet(group, cmd, fields), now).content == plain_payload(
            group,
            cmd,
            fields,
        ),
        received(s, d, plain_packet(group, cmd, fields), now).event is Plain,
{
    law_frame_roundtrip(plain_payload(group, cmd, fields));
    law_plain_packet_roundtrip(group, cmd, fields);
}

/// An encrypted message does what its fields say: a status is shown, a key exchange response
/// changes the keys, and any other command changes nothing. What counts is the command without
/// its flag bits. A zero byte may stand in front of the fields.
pub proof fn law_encrypted_message_is_routed(
    s: SessionView,
    d: DashboardView,
    group: u8,
    cmd: u16,
    ciphertext: Seq<u8>,
    head: Seq<u8>,
    fields: Seq<Field>,
    now: Instant,
)
    requires
        s.keys.pair() matches Some((key, iv)) && cbc_opened(key, iv, ciphertext) == Some(
            head + tlv_bytes(fields),
        ),
        head == seq![0u8] || head.len() == 0 && (fields.len() > 0 ==> fields[0].0 != 0),
        forall|i: int| 0 <= i < fields.len() ==> (#[trigger] fields[i]).1.len() <= 255,
    ensures
        ({
            let after = received(s, d, sealed_packet(group, cmd, ciphertext), now);
            let bare = bare_cmd(cmd);
            &&& after.content == head + tlv_bytes(fields)
            &&& is_status_cmd(bare) || bare == 0x050E ==> after.session == s && after.dashboard
                == status_after_all(d, fields, now)
            &&& bare == 0x0022 ==> after.session == (SessionView {
                keys: keys_after(s.keys, fields),
                ..s
            }) && after.dashboard == (DashboardView { session_phase: SessionPhase::Session, ..d })
            &&& !is_status_cmd(bare) && bare != 0x050E && bare != 0x0022 ==> after.session == s
                && after.dashboard == d
        }),
{
    let message = head + tlv_bytes(fields);
    lemma_sealed_packet_is_opened(s, d, group, cmd, ciphertext, message, now);
    lemma_message_fields(head, fields);
}

#[verifier::spinoff_prover]
proof fn lemma_sealed_packet_is_opened(
    s: SessionView,
    d: DashboardView,
    group: u8,
    cmd: u16,
    ciphertext: Seq<u8>,
    message: Seq<u8>,
    now: Instant,
)
    requires
        s.keys.pair() matches Some((key, iv)) && cbc_opened(key, iv, ciphertext) == Some(message),
    ensures
        received(s, d, sealed_packet(group, cmd, ciphertext), now) == finished(
            s,
            d,
            sealed_packet(group, cmd, ciphertext),
            bare_cmd(cmd),
            ciphertext.len() as usize,
            Some(message),
            now,
        ),
{
    law_sealed_packet_roundtrip(group, cmd, ciphertext);
    let pkt = decoded(sealed_packet(group, cmd, ciphertext)).unwrap();
    assert(pkt.pattern[1] != 0x01u8);
    assert(seq![0x03u8, 0x01u8, 0x0Fu8][1] == 0x01u8);
    assert(!is_fragment(pkt));
    assert(gathered(s.pending, pkt) == (s.pending, Some(ciphertext)));
    assert(SessionView { pending: s.pending, ..s } == s);
}

proof fn lemma_message_fields(head: Seq<u8>, fields: Seq<Field>)
    requires
        head == seq![0u8] || head.len() == 0 && (fields.len() > 0 ==> fields[0].0 != 0),
        forall|i: int| 0 <= i < fields.len() ==> (#[trigger] fields[i]).1.len() <= 255,
    ensures
        message_fields(head + tlv_bytes(fields)) == fields,
{
    let message = head + tlv_bytes(fields);
    law_tlv_roundtrip(head, fields);
    if head.len() == 0 && fields.len() > 0 {
        let first = seq![fields[0]];
        law_tlv_concat(first, fields.drop_first());
        assert(first + fields.drop_first() =~= fields);
        assert(first.drop_last() =~= Seq::<Field>::empty());
        assert(tlv_bytes(first) =~= tlv_item(fields[0])) by {
            reveal_with_fuel(tlv_bytes, 2);
        }
        assert(message[0] == fields[0].0);
    }
    assert(fields_offset(message) == head.len());
}

/// What a run of notifications leads to, each received at its own time.
pub open spec fn received_all(
    s: SessionView,
    d: DashboardView,
    raws: Seq<Seq<u8>>,
    nows: Seq<Instant>,
) -> Outcome
    decreases raws.len(),
{
    if raws.len() == 0 {
        Outcome { session: s, dashboard: d, content: Seq::empty(), event: RecvEvent::NotAPacket }
    } else {
        let earlier = received_all(s, d, raws.drop_last(), nows.drop_last());
        received(earlier.session, earlier.dashboard, raws.last(), nows.last())
    }
}

/// Whether `raw` is fragment `index` of `total` of an encrypted response to `cmd`, with the
/// given data.
pub open spec fn is_fragment_packet(
    raw: Seq<u8>,
    cmd: u16,
    index: int,
    total: int,
    data: Seq<u8>,
) -> bool {
    decoded(raw) matches Some(pkt) && pkt.is_enc && pkt.cmd == cmd && pkt.pattern == seq![
        0x03u8,
        0x01u8,
        0x0Fu8,
    ] && pkt.body == seq![(index * 16 + total) as u8] + data
}

/// Whether `raws` are the fragments of `run`, one after the other.
pub open spec fn are_fragment_packets(
    raws: Seq<Seq<u8>>,
    cmd: u16,
    run: Seq<(u8, Seq<u8>)>,
) -> bool {
    &&& raws.len() == run.len()
    &&& forall|i: int|
        0 <= i < run.len() ==> (#[trigger] run[i]).0 <= 15 && is_fragment_packet(
            raws[i],
            cmd,
            run[i].0 as int,
            run.len() as int,
            run[i].1,
        )
}

/// One fragment is fed to what is pending.
proof fn lemma_fragment_is_fed(
    s: SessionView,
    d: DashboardView,
    raw: Seq<u8>,
    cmd: u16,
    index: int,
    total: int,
    data: Seq<u8>,
    now: Instant,
)
    requires
        s.keys.pair() is Some,
        0 <= index <= 15,
        0 <= total <= 15,
        is_fragment_packet(raw, cmd, index, total, data),
    ensures
        ({
            let (key, iv) = s.keys.pair().unwrap();
            let (pending, whole) = fed(s.pending, cmd, index as u8, total as u8, data);
            let kept = SessionView { pending, ..s };
            match whole {
                None => received(s, d, raw, now) == (Outcome {
                    session: kept,
                    dashboard: d,
                    content: raw,
                    event: RecvEvent::Buffered,
                }),
                Some(ct) => received(s, d, raw, now) == finished(
                    kept,
                    d,
                    raw,
                    cmd,
                    ct.len() as usize,
                    cbc_opened(key, iv, ct),
                    now,
                ),
            }
        }),
{
    let pkt = decoded(raw).unwrap();
    assert(pkt.body[0] == index * 16 + total);
    assert(pkt.body[0] / 16 == index && pkt.body[0] % 16 == total);
    assert(pkt.body.skip(1) =~= data);
}

/// The fragments before the last are kept.
proof fn lemma_fragments_are_kept(
    s: SessionView,
    d: DashboardView,
    cmd: u16,
    run: Seq<(u8, Seq<u8>)>,
    raws: Seq<Seq<u8>>,
    nows: Seq<Instant>,
    count: int,
)
    requires
        s.keys.pair() is Some,
        2 <= run.len() <= 15,
        run[0].0 == 1,
        distinct_indices(run),
        nows.len() == run.len(),
        are_fragment_packets(raws, cmd, run),
        0 <= count < run.len(),
    ensures
        received_all(s, d, raws.take(count), nows.take(count)).dashboard == d,
        received_all(s, d, raws.take(count), nows.take(count)).session == (SessionView {
            pending: fed_run(s.pending, cmd, run.len() as u8, run.take(count)).0,
            ..s
        }),
        count > 0 ==> received_all(s, d, raws.take(count), nows.take(count)).event is Buffered,
    decreases count,
{
    let total = run.len() as int;
    if count > 0 {
        let at = count - 1;
        lemma_fragments_are_kept(s, d, cmd, run, raws, nows, at);
        assert(raws.take(count).drop_last() =~= raws.take(at));
        assert(nows.take(count).drop_last() =~= nows.take(at));
        assert(run.take(count).drop_last() =~= run.take(at));
        let earlier = received_all(s, d, raws.take(at), nows.take(at)).session;
        assert(run[at].0 <= 15);
        lemma_fragment_is_fed(
            earlier,
            d,
            raws[at],
            cmd,
            run[at].0 as int,
            total,
            run[at].1,
            nows[at],
        );
        law_reassembly(s.pending, cmd, total as u8, run);
        assert(fed_run(s.pending, cmd, total as u8, run.take(count)).1 is None);
    }
}

/// A response that arrives as fragments under an unchanged key, the first one first and the
/// others in any order, is buffered up to the last one and then treated as the one ciphertext
/// that the fragments make up in the order of their indices. Fragments numbered from one up
/// make up their data as it comes.
pub proof fn law_fragmented_message_arrives(
    s: SessionView,
    d: DashboardView,
    cmd: u16,
    run: Seq<(u8, Seq<u8>)>,
    raws: Seq<Seq<u8>>,
    nows: Seq<Instant>,
)
    requires
        s.keys.pair() is Some,
        2 <= run.len() <= 15,
        run[0].0 == 1,
        distinct_indices(run),
        nows.len() == run.len(),
        are_fragment_packets(raws, cmd, run),
    ensures
        forall|count: int|
            0 < count < run.len() ==> (#[trigger] received_all(
                s,
                d,
                raws.take(count),
                nows.take(count),
            )).event is Buffered,
        ({
            let (key, iv) = s.keys.pair().unwrap();
            let whole = joined(run_parts(run));
            received_all(s, d, raws, nows) == finished(
                SessionView { pending: s.pending.remove(cmd), ..s },
                d,
                raws.last(),
                cmd,
                whole.len() as usize,
                cbc_opened(key, iv, whole),
                nows.last(),
            )
        }),
        (forall|i: int| 0 <= i < run.len() ==> (#[trigger] run[i]).0 == i + 1) ==> joined(
            run_parts(run),
        ) == run_data(run),
{
    let total = run.len() as int;
    let at = total - 1;
    assert forall|count: int| 0 < count < run.len() implies (#[trigger] received_all(
        s,
        d,
        raws.take(count),
        nows.take(count),
    )).event is Buffered by {
        lemma_fragments_are_kept(s, d, cmd, run, raws, nows, count);
    }
    lemma_fragments_are_kept(s, d, cmd, run, raws, nows, at);
    assert(raws.drop_last() =~= raws.take(at));
    assert(nows.drop_last() =~= nows.take(at));
    assert(run.drop_last() =~= run.take(at));
    let earlier = received_all(s, d, raws.drop_last(), nows.drop_last()).session;
    assert(run[at].0 <= 15);
    lemma_fragment_is_fed(
        earlier,
        d,
        raws.last(),
        cmd,
        run[at].0 as int,
        total,
        run[at].1,
        nows.last(),
    );
    law_reassembly(s.pending, cmd, total as u8, run);
    if forall|i: int| 0 <= i < run.len() ==> (#[trigger] run[i]).0 == i + 1 {
        law_reassembly_in_order(s.pending, cmd, total as u8, run);
    }
}

// ---------------------------------------------------------------------------
// Laws on bytes
// ---------------------------------------------------------------------------

/// Whether the bytes are a frame around `03 00`, the group and a command with these two bytes.
pub open spec fn is_packet_for(packet: Seq<u8>, group: u8, high: u8, low: u8) -> bool {
    let size = packet.len() as int;
    &&& size >= 10
    &&& packet[0] == 0xFF
    &&& packet[1] == 0x09
    &&& packet[2] == size % 256
    &&& packet[3] == size / 256 % 256
    &&& packet[4] == 0x03
    &&& packet[5] == 0x00
    &&& packet[6] == group
    &&& packet[7] == high
    &&& packet[8] == low
    &&& packet[size - 1] == xor_of(packet.take(size - 1))
}

/// Whether the bytes are the packet for the group and command that carries the message, encrypted
/// with the key and IV in force.
pub open spec fn carries(
    packet: Seq<u8>,
    keys: KeysView,
    group: u8,
    cmd: u16,
    message: Seq<u8>,
) -> bool {
    &&& is_packet_for(packet, group, (cmd / 256) as u8 | 0x40, (cmd % 256) as u8)
    &&& match keys {
        KeysView::Absent => false,
        KeysView::Initial { key, iv } => packet.subrange(9, packet.len() - 1) == cbc_sealed(
            key,
            iv,
            message,
        ),
        KeysView::Session { key, iv } => packet.subrange(9, packet.len() - 1) == cbc_sealed(
            key,
            iv,
            message,
        ),
    }
}

/// Whether what stands between head and checksum of the packet opens to the message with the key
/// and IV in force.
pub open spec fn opens_to(packet: Seq<u8>, keys: KeysView, message: Seq<u8>) -> bool {
    match keys {
        KeysView::Absent => false,
        KeysView::Initial { key, iv } => cbc_opened(key, iv, packet.subrange(9, packet.len() - 1))
            == Some(message),
        KeysView::Session { key, iv } => cbc_opened(key, iv, packet.subrange(9, packet.len() - 1))
            == Some(message),
    }
}

proof fn lemma_framed_bytes(payload: Seq<u8>)
    requires
        payload.len() >= 5,
        payload[0] == 0x03,
        payload[1] == 0x00,
    ensures
        is_packet_for(framed(payload), payload[2], payload[3], payload[4]),
        framed(payload).subrange(9, framed(payload).len() - 1) == payload.skip(5),
{
    let raw = framed(payload);
    assert(raw.take(raw.len() - 1) =~= frame_body(payload));
    assert(raw.subrange(9, raw.len() - 1) =~= payload.skip(5));
    let size = payload.len() + 5;
    assert(size % 65536 % 256 == size % 256);
    assert(size % 65536 / 256 == size / 256 % 256);
}

/// A plain packet, byte by byte: the frame, the group, the command and the fields.
pub proof fn law_plain_packet_bytes(group: u8, cmd: u16, fields: Seq<Field>)
    ensures
        is_packet_for(
            plain_packet(group, cmd, fields),
            group,
            (cmd / 256) as u8,
            (cmd % 256) as u8,
        ),
        plain_packet(group, cmd, fields).subrange(9, plain_packet(group, cmd, fields).len() - 1)
            == tlv_bytes(fields),
{
    let payload = plain_payload(group, cmd, fields);
    lemma_framed_bytes(payload);
    assert(payload.skip(5) =~= tlv_bytes(fields));
}

/// An encrypted packet carries its fields, whatever keys are in force; only without a key is there
/// none.
pub proof fn law_encrypted_packet_bytes(keys: KeysView, group: u8, cmd: u16, fields: Seq<Field>)
    ensures
        keys is Absent ==> encrypted_packet(keys, group, cmd, fields) == Err::<
            Seq<u8>,
            SessionError,
        >(SessionError::CryptoNotReady),
        keys !is Absent ==> (encrypted_packet(keys, group, cmd, fields) matches Ok(packet)
            && carries(packet, keys, group, cmd, tlv_bytes(fields))),
{
    match keys.pair() {
        Some((key, iv)) => {
            let ciphertext = cbc_sealed(key, iv, tlv_bytes(fields));
            let payload = sealed_payload(group, cmd, ciphertext);
            lemma_framed_bytes(payload);
            assert(payload.skip(5) =~= ciphertext);
        },
        None => {},
    }
}

/// A notification under ten bytes is handed back, and an unencrypted one as its bytes between the
/// four-byte head and the checksum; neither changes anything. Without a key an encrypted one is
/// handed back too.
pub proof fn law_unreadable_notifications(
    s: SessionView,
    d: DashboardView,
    raw: Seq<u8>,
    now: Instant,
)
    ensures
        ({
            let after = received(s, d, raw, now);
            let plain = raw[7] as int / 64 % 2 == 0;
            &&& raw.len() < 10 ==> after == (Outcome {
                session: s,
                dashboard: d,
                content: raw,
                event: RecvEvent::NotAPacket,
            })
            &&& raw.len() >= 10 && plain ==> after == (Outcome {
                session: s,
                dashboard: d,
                content: raw.subrange(4, raw.len() - 1),
                event: RecvEvent::Plain,
            })
            &&& raw.len() >= 10 && !plain && s.keys is Absent ==> after == (Outcome {
                session: s,
                dashboard: d,
                content: raw,
                event: RecvEvent::NoKey,
            })
        }),
{
    law_decoded_bytes(raw);
}

/// Whether the bytes are an encrypted notification, and whether its body begins with the header of
/// a fragment.
pub open spec fn is_sealed_notification(raw: Seq<u8>, fragment: bool) -> bool {
    &&& raw.len() >= 10
    &&& raw[7] as int / 64 % 2 == 1
    &&& fragment <==> raw[4] == 0x03 && raw[5] == 0x01 && raw[6] == 0x0F && raw.len() > 10
}

/// The command in the bytes of an encrypted notification, without its two flags.
pub open spec fn command_in(raw: Seq<u8>) -> int {
    256 * (raw[7] - 64 - 8 * (raw[7] as int / 8 % 2)) + raw[8]
}

/// What an encrypted notification does, from its bytes. It is opened with the key and IV in force,
/// behind its nine-byte head and without its checksum. If that fails it is handed back. If it
/// opens, the fields in it, behind a leading zero byte, are a status for the commands 0300, 0D00,
/// 8200, 820A, 8402, 8405 and 050E; for 0022 they bring the session keys; any other command
/// changes nothing.
pub proof fn law_sealed_notification(
    s: SessionView,
    d: DashboardView,
    key: Seq<u8>,
    iv: Seq<u8>,
    raw: Seq<u8>,
    now: Instant,
)
    requires
        s.keys == (KeysView::Initial { key, iv }) || s.keys == (KeysView::Session { key, iv }),
        is_sealed_notification(raw, false),
    ensures
        ({
            let after = received(s, d, raw, now);
            let ciphertext = raw.subrange(9, raw.len() - 1);
            let opened = cbc_opened(key, iv, ciphertext);
            let ciphertext_len = ciphertext.len() as usize;
            let cmd = command_in(raw);
            let message = opened->0;
            let fields = tlv_fields(
                message,
                if message.len() > 0 && message[0] == 0 {
                    1
                } else {
                    0
                },
            );
            let is_status = cmd == 0x0300 || cmd == 0x0D00 || cmd == 0x8200 || cmd == 0x820A || cmd
                == 0x8402 || cmd == 0x8405;
            let is_live = cmd == 0x050E;
            let is_exchange = cmd == 0x0022;
            &&& opened is None ==> after == (Outcome {
                session: s,
                dashboard: d,
                content: raw,
                event: RecvEvent::DecryptError { ciphertext_len },
            })
            &&& opened is Some ==> after.content == message
            &&& opened is Some && is_status ==> {
                &&& after.session == s
                &&& after.dashboard == status_after_all(d, fields, now)
                &&& after.event == (RecvEvent::Decrypted { ciphertext_len, route: Route::Status })
            }
            &&& opened is Some && is_live ==> {
                &&& after.session == s
                &&& after.dashboard == status_after_all(d, fields, now)
                &&& after.event == (RecvEvent::Decrypted { ciphertext_len, route: Route::LivePower })
            }
            &&& opened is Some && is_exchange ==> {
                &&& after.dashboard == (DashboardView { session_phase: SessionPhase::Session, ..d })
                &&& after.session == (SessionView { keys: after.session.keys, ..s })
                &&& after.event matches RecvEvent::Decrypted { ciphertext_len: n, .. } && n
                    == ciphertext_len
            }
            &&& opened is Some && !is_status && !is_live && !is_exchange ==> {
                &&& after.session == s
                &&& after.dashboard == d
                &&& after.event == (RecvEvent::Decrypted { ciphertext_len, route: Route::Unknown })
            }
        }),
{
    law_decoded_bytes(raw);
    let pkt = decoded(raw).unwrap();
    let f = seq![0x03u8, 0x01u8, 0x0Fu8];
    if pkt.pattern == f {
        assert(pkt.pattern[0] == f[0] && pkt.pattern[1] == f[1] && pkt.pattern[2] == f[2]);
    }
    assert(!is_fragment(pkt));
}

/// The keys after a response to the key exchange. A key in it is used from then on, with the IV in
/// it, or with the IV of the handshake where there is none. Without a key in it, key and IV of the
/// handshake are used on. Once session keys are in force, those of the handshake are the fixed
/// initial key and zeros.
pub proof fn law_key_exchange_sets_the_keys(
    s: SessionView,
    d: DashboardView,
    key: Seq<u8>,
    iv: Seq<u8>,
    raw: Seq<u8>,
    now: Instant,
)
    requires
        s.keys == (KeysView::Initial { key, iv }) || s.keys == (KeysView::Session { key, iv }),
        is_sealed_notification(raw, false),
        command_in(raw) == 0x0022,
        cbc_opened(key, iv, raw.subrange(9, raw.len() - 1)) is Some,
    ensures
        ({
            let after = received(s, d, raw, now).session.keys;
            let route = received(s, d, raw, now).event->Decrypted_route;
            let message = cbc_opened(key, iv, raw.subrange(9, raw.len() - 1))->0;
            let fields = tlv_fields(
                message,
                if message.len() > 0 && message[0] == 0 {
                    1
                } else {
                    0
                },
            );
            let old_key = if s.keys is Initial {
                key
            } else {
                INITIAL_KEY@
            };
            let old_iv = if s.keys is Initial {
                iv
            } else {
                Seq::new(16, |i: int| 0u8)
            };
            &&& after is Session
            &&& session_key_in(fields) matches Some(k) ==> {
                &&& after->Session_key == k
                &&& route == Route::NewSessionKey
                &&& session_iv_in(fields) matches Some(v) ==> after->Session_iv == v
                &&& session_iv_in(fields) is None ==> after->Session_iv == old_iv
            }
            &&& session_key_in(fields) is None ==> {
                &&& after->Session_key == old_key
                &&& after->Session_iv == old_iv
                &&& route == Route::ReusedInitialKey
            }
        }),
{
    law_decoded_bytes(raw);
    let pkt = decoded(raw).unwrap();
    let f = seq![0x03u8, 0x01u8, 0x0Fu8];
    if pkt.pattern == f {
        assert(pkt.pattern[0] == f[0] && pkt.pattern[1] == f[1] && pkt.pattern[2] == f[2]);
    }
    assert(!is_fragment(pkt));
}

/// Whether two notifications lead to the same: the same session, dashboard and event, and the
/// same message, if there is one; otherwise each is handed back.
pub open spec fn same_outcome(a: Outcome, raw_a: Seq<u8>, b: Outcome, raw_b: Seq<u8>) -> bool {
    &&& a.session == b.session
    &&& a.dashboard == b.dashboard
    &&& a.event == b.event
    &&& a.event is Decrypted ==> a.content == b.content
    &&& a.event !is Decrypted ==> a.content == raw_a && b.content == raw_b
}

/// A fragment whose header announces a total of zero or one, in its low four bits, is treated
/// exactly as an unfragmented notification with the same command and ciphertext.
pub proof fn law_single_fragment_is_a_whole_message(
    s: SessionView,
    d: DashboardView,
    raw: Seq<u8>,
    whole: Seq<u8>,
    now: Instant,
)
    requires
        is_sealed_notification(raw, true),
        raw[9] as int % 16 <= 1,
        is_sealed_notification(whole, false),
        whole[7] == raw[7],
        whole[8] == raw[8],
        whole.subrange(9, whole.len() - 1) == raw.subrange(10, raw.len() - 1),
    ensures
        same_outcome(received(s, d, raw, now), raw, received(s, d, whole, now), whole),
{
    law_decoded_bytes(raw);
    law_decoded_bytes(whole);
    let pkt = decoded(raw).unwrap();
    let other = decoded(whole).unwrap();
    let f = seq![0x03u8, 0x01u8, 0x0Fu8];
    assert(pkt.pattern =~= f);
    assert(is_fragment(pkt));
    if other.pattern == f {
        assert(other.pattern[0] == f[0] && other.pattern[1] == f[1] && other.pattern[2] == f[2]);
    }
    assert(!is_fragment(other));
    assert(pkt.body[0] == raw[9]);
    assert(pkt.body.skip(1) =~= other.body);
    law_unfragmented_data_passes_through(
        s.pending,
        pkt.cmd,
        pkt.body[0] / 16,
        pkt.body[0] % 16,
        other.body,
    );
}

/// A response that arrives as fragments, the first one first and the others in any order, leads to
/// what an unfragmented notification with the whole ciphertext would lead to at the time of the
/// last fragment, and nothing of it stays pending. `sorted` holds the fragments with rising
/// indices; the ciphertext is their data, one after the other.
pub proof fn law_fragments_are_a_whole_message(
    s: SessionView,
    d: DashboardView,
    cmd: u16,
    run: Seq<(u8, Seq<u8>)>,
    sorted: Seq<(u8, Seq<u8>)>,
    raws: Seq<Seq<u8>>,
    nows: Seq<Instant>,
    whole: Seq<u8>,
)
    requires
        s.keys !is Absent,
        2 <= run.len() <= 15,
        run[0].0 == 1,
        distinct_indices(run),
        nows.len() == run.len(),
        are_fragment_packets(raws, cmd, run),
        rising(sorted),
        forall|i: int| 0 <= i < run.len() ==> sorted.contains(#[trigger] run[i]),
        forall|i: int| 0 <= i < sorted.len() ==> run.contains(#[trigger] sorted[i]),
        is_sealed_notification(whole, false),
        command_in(whole) == cmd,
        whole.subrange(9, whole.len() - 1) == sorted.map_values(
            |f: (u8, Seq<u8>)| f.1,
        ).flatten(),
    ensures
        same_outcome(
            received_all(s, d, raws, nows),
            raws.last(),
            received(
                SessionView { pending: s.pending.remove(cmd), ..s },
                d,
                whole,
                nows.last(),
            ),
            whole,
        ),
{
    law_fragmented_message_arrives(s, d, cmd, run, raws, nows);
    law_reassembly(s.pending, cmd, run.len() as u8, run);
    law_reassembly_sorts_fragments(s.pending, cmd, run.len() as u8, run, sorted);
    law_decoded_bytes(whole);
    let other = decoded(whole).unwrap();
    let f = seq![0x03u8, 0x01u8, 0x0Fu8];
    if other.pattern == f {
        assert(other.pattern[0] == f[0] && other.pattern[1] == f[1] && other.pattern[2] == f[2]);
    }
    assert(!is_fragment(other));
    assert(other.body == joined(run_parts(run)));
}

/// Any fragment is gathered by its command and by the index in the high and the total in the low
/// four bits of its header. While the response is incomplete the fragment is kept and nothing else
/// happens; once it is complete it leads to what an unfragmented notification with the whole
/// ciphertext would lead to.
pub proof fn law_fragment_is_gathered(
    s: SessionView,
    d: DashboardView,
    raw: Seq<u8>,
    whole: Seq<u8>,
    now: Instant,
)
    requires
        s.keys !is Absent,
        is_sealed_notification(raw, true),
    ensures
        ({
            let (pending, done) = fed(
                s.pending,
                command_in(raw) as u16,
                (raw[9] as int / 16) as u8,
                (raw[9] as int % 16) as u8,
                raw.subrange(10, raw.len() - 1),
            );
            let kept = SessionView { pending, ..s };
            &&& done is None ==> received(s, d, raw, now) == (Outcome {
                session: kept,
                dashboard: d,
                content: raw,
                event: RecvEvent::Buffered,
            })
            &&& done is Some && is_sealed_notification(whole, false) && whole[7] == raw[7]
                && whole[8] == raw[8] && whole.subrange(9, whole.len() - 1) == done->0
                ==> same_outcome(
                received(s, d, raw, now),
                raw,
                received(kept, d, whole, now),
                whole,
            )
        }),
{
    law_decoded_bytes(raw);
    let pkt = decoded(raw).unwrap();
    let f = seq![0x03u8, 0x01u8, 0x0Fu8];
    assert(pkt.pattern =~= f);
    assert(is_fragment(pkt));
    assert(pkt.body[0] == raw[9]);
    assert(pkt.body.skip(1) =~= raw.subrange(10, raw.len() - 1));
    if is_sealed_notification(whole, false) {
        law_decoded_bytes(whole);
        let other = decoded(whole).unwrap();
        if other.pattern == f {
            assert(other.pattern[0] == f[0] && other.pattern[1] == f[1] && other.pattern[2]
                == f[2]);
        }
        assert(!is_fragment(other));
    }
}

/// A packet that carries a message decodes to the pattern `03 00` with the group, to the command
/// without its two flag bits, to the encryption flag and to the sealed message.
pub proof fn law_carrying_packet_decodes(
    packet: Seq<u8>,
    keys: KeysView,
    group: u8,
    cmd: u16,
    message: Seq<u8>,
)
    requires
        carries(packet, keys, group, cmd, message),
    ensures
        decoded(packet) matches Some(pkt) && {
            &&& pkt.pattern == seq![0x03u8, 0x00u8, group]
            &&& pkt.cmd == cmd - 0x4000 * (cmd as int / 0x4000 % 2) - 0x0800 * (cmd as int / 0x0800
                % 2)
            &&& pkt.is_enc
            &&& keys matches KeysView::Initial { key, iv } ==> pkt.body == cbc_sealed(
                key,
                iv,
                message,
            )
            &&& keys matches KeysView::Session { key, iv } ==> pkt.body == cbc_sealed(
                key,
                iv,
                message,
            )
        },
{
    law_decoded_bytes(packet);
    let high = (cmd / 256) as u8;
    assert(high | 0x40 == high + 64 * (1 - high / 64 % 2)) by (bit_vector);
}

/// What a decrypted message does, for any command. For 0300, 0D00, 8200, 820A, 8402, 8405 and 050E
/// its fields, behind a leading zero byte, are a status and the session stays as it is. For 0022 it
/// brings session keys and the dashboard shows the session. Any other command changes nothing.
pub proof fn law_message_is_routed(
    s: SessionView,
    d: DashboardView,
    cmd: u16,
    data: Seq<u8>,
    now: Instant,
)
    ensures
        ({
            let (session, dashboard, route) = routed(s, d, cmd, data, now);
            let fields = tlv_fields(
                data,
                if data.len() > 0 && data[0] == 0 {
                    1
                } else {
                    0
                },
            );
            let is_status = cmd == 0x0300 || cmd == 0x0D00 || cmd == 0x8200 || cmd == 0x820A || cmd
                == 0x8402 || cmd == 0x8405;
            &&& route is Status <==> is_status
            &&& route is LivePower <==> cmd == 0x050E
            &&& route is NewSessionKey <==> cmd == 0x0022 && session_key_in(fields) is Some
            &&& route is ReusedInitialKey <==> cmd == 0x0022 && session_key_in(fields) is None
            &&& is_status || cmd == 0x050E ==> session == s && dashboard == status_after_all(
                d,
                fields,
                now,
            )
            &&& route is Unknown ==> session == s && dashboard == d
            &&& cmd == 0x0022 ==> {
                &&& dashboard == (DashboardView { session_phase: SessionPhase::Session, ..d })
                &&& session.keys is Session
                &&& session == (SessionView { keys: session.keys, ..s })
                &&& session_key_in(fields) matches Some(key) ==> session.keys->Session_key == key
                &&& session_key_in(fields) is Some ==> (session_iv_in(fields) matches Some(iv)
                    ==> session.keys->Session_iv == iv)
                &&& s.keys matches KeysView::Initial { key, iv } ==> {
                    &&& session_key_in(fields) is None ==> session.keys->Session_key == key
                    &&& session_key_in(fields) is None || session_iv_in(fields) is None
                        ==> session.keys->Session_iv == iv
                }
                &&& s.keys !is Initial ==> {
                    &&& session_key_in(fields) is None ==> session.keys->Session_key
                        == INITIAL_KEY@
                    &&& session_key_in(fields) is None || session_iv_in(fields) is None
                        ==> session.keys->Session_iv == Seq::new(16, |i: int| 0u8)
                }
            }
        }),
{
}

/// Once the cipher has answered, a message is handed on as it is and does what its command says; if
/// there is none, the notification is handed back and nothing changes. Either way the length of the
/// ciphertext is told.
pub proof fn law_opened_message_is_handed_on(
    s: SessionView,
    d: DashboardView,
    raw: Seq<u8>,
    cmd: u16,
    len: usize,
    opened: Option<Seq<u8>>,
    now: Instant,
)
    ensures
        ({
            let after = finished(s, d, raw, cmd, len, opened, now);
            &&& opened matches Some(message) ==> {
                &&& after.content == message
                &&& (after.session, after.dashboard, after.event->Decrypted_route) == routed(
                    s,
                    d,
                    cmd,
                    message,
                    now,
                )
                &&& after.event is Decrypted
                &&& after.event->Decrypted_ciphertext_len == len
            }
            &&& opened is None ==> after == (Outcome {
                session: s,
                dashboard: d,
                content: raw,
                event: RecvEvent::DecryptError { ciphertext_len: len },
            })
        }),
{
}

} // verus!
