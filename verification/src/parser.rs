//! Reading packets and the values in them.
use std::time::Instant;
use vstd::prelude::*;
use vstd::slice::{slice_subrange, slice_to_vec};

use crate::crypto::pad_iv;
use crate::protocol::tlv_iter;
use crate::state::{ChannelState, ConnectionMode, DashboardState, PortState};
use crate::text::push_hex_byte;

verus! {

use crate::crypto::padded_iv;
use crate::protocol::{
    framed, last_where, law_tlv_roundtrip, plain_payload, sealed_payload, tlv_bytes,
    tlv_fields, Field,
};
use crate::state::{mode_of, DashboardView, InfoView};
use crate::text::{hex_colon_text, hex_text};

// ---------------------------------------------------------------------------
// Packets
// ---------------------------------------------------------------------------

/// Packet decoded from raw BLE notification bytes.
pub struct DecodedPacket {
    /// `[03 00] [group]` — first 3 bytes of the inner payload.
    pub pattern: [u8; 3],
    /// Command ID with ENC (0x40) and ACK (0x08) flags stripped.
    pub cmd: u16,
    /// True if the payload is AES-CBC encrypted.
    pub is_enc: bool,
    /// True if this is an ACK/response packet.
    pub is_ack: bool,
    /// Everything after the 5-byte header (ciphertext or plaintext TLV).
    pub body: Vec<u8>,
}

/// What `DecodedPacket` stands for.
#[verifier::ext_equal]
pub struct PacketView {
    pub pattern: Seq<u8>,
    pub cmd: u16,
    pub is_enc: bool,
    pub is_ack: bool,
    pub body: Seq<u8>,
}

impl View for DecodedPacket {
    type V = PacketView;

    open spec fn view(&self) -> PacketView {
        PacketView {
            pattern: self.pattern@,
            cmd: self.cmd,
            is_enc: self.is_enc,
            is_ack: self.is_ack,
            body: self.body@,
        }
    }
}

/// The command without the flags 0x40 and 0x08 of its high byte.
pub open spec fn cmd_of(high: u8, low: u8) -> u16 {
    ((high & 0xB7) * 256 + low) as u16
}

/// A frame without its four-byte head and its checksum.
pub open spec fn inner(raw: Seq<u8>) -> Seq<u8> {
    raw.subrange(4, raw.len() - 1)
}

/// The packet in a frame that is long enough to hold one.
pub open spec fn decoded(raw: Seq<u8>) -> Option<PacketView> {
    if raw.len() < 10 {
        None
    } else {
        let payload = inner(raw);
        Some(
            PacketView {
                pattern: payload.take(3),
                cmd: cmd_of(payload[3], payload[4]),
                is_enc: payload[3] & 0x40 != 0,
                is_ack: payload[3] & 0x08 != 0,
                body: payload.skip(5),
            },
        )
    }
}

/// The command without its flags.
pub fn strip_flags(high: u8, low: u8) -> (cmd: u16)
    ensures
        cmd == cmd_of(high, low),
{
    (high & 0xB7) as u16 * 256 + low as u16
}

/// Decode a raw BLE notification into a `DecodedPacket`.
///
/// Frame layout: `FF 09 [len_le16] [payload] [xor]`
/// Payload:      `03 00 [group] [cmd_high] [cmd_low] [body...]`
pub fn decode_packet(raw: &[u8]) -> (r: Option<DecodedPacket>)
    ensures
        r is Some <==> decoded(raw@) is Some,
        r matches Some(pkt) ==> decoded(raw@) == Some(pkt@),
{
    if raw.len() < 10 {
        return None;
    }
    let payload: &[u8] = slice_subrange(raw, 4, raw.len() - 1);
    let pattern: [u8; 3] = [payload[0], payload[1], payload[2]];
    let cmd_high: u8 = payload[3];
    let cmd_low: u8 = payload[4];
    let pkt = DecodedPacket {
        pattern,
        cmd: strip_flags(cmd_high, cmd_low),
        is_enc: cmd_high & 0x40 != 0,
        is_ack: cmd_high & 0x08 != 0,
        body: slice_to_vec(slice_subrange(payload, 5, payload.len())),
    };
    assert(pkt@ =~= decoded(raw@).unwrap());
    Some(pkt)
}

/// The payload comes back out of its frame.
pub proof fn law_frame_roundtrip(payload: Seq<u8>)
    ensures
        framed(payload).len() == payload.len() + 5,
        inner(framed(payload)) == payload,
{
    assert(inner(framed(payload)) =~= payload);
}

/// A command without the flag bits 0x4000 and 0x0800.
pub open spec fn bare_cmd(cmd: u16) -> u16 {
    cmd & 0xB7FF
}

/// A command that leaves the flag bits clear is bare already.
pub proof fn law_bare_cmd(cmd: u16)
    ensures
        bare_cmd(cmd) == cmd <==> cmd & 0x4800 == 0,
        bare_cmd(bare_cmd(cmd)) == bare_cmd(cmd),
{
    assert(cmd & 0xB7FF == cmd <==> cmd & 0x4800 == 0) by (bit_vector);
    assert((cmd & 0xB7FF) & 0xB7FF == cmd & 0xB7FF) by (bit_vector);
}

/// The flags of a command in its two bytes.
proof fn lemma_cmd_bytes(cmd: u16)
    ensures
        ({
            let high = (cmd / 256) as u8;
            let low = (cmd % 256) as u8;
            &&& cmd_of(high, low) == bare_cmd(cmd)
            &&& cmd_of(high | 0x40, low) == bare_cmd(cmd)
            &&& high & 0x40 != 0 <==> cmd & 0x4000 != 0
            &&& high & 0x08 != 0 <==> cmd & 0x0800 != 0
            &&& (high | 0x40) & 0x40 != 0
            &&& (high | 0x40) & 0x08 != 0 <==> cmd & 0x0800 != 0
        }),
{
    let high = (cmd / 256) as u8;
    let low = (cmd % 256) as u8;
    assert(((cmd / 256) as u8 & 0xB7) as u16 * 256 + cmd % 256 == cmd & 0xB7FF) by (bit_vector);
    assert((high | 0x40) & 0xB7 == high & 0xB7) by (bit_vector);
    assert((cmd / 256) as u8 & 0x40 != 0 <==> cmd & 0x4000 != 0) by (bit_vector);
    assert((cmd / 256) as u8 & 0x08 != 0 <==> cmd & 0x0800 != 0) by (bit_vector);
    assert((high | 0x40) & 0x40 != 0) by (bit_vector);
    assert((high | 0x40) & 0x08 == high & 0x08) by (bit_vector);
}

/// A plain packet decodes to the group, command and fields that it was built from. Flag bits in
/// the command are read as flags and not as part of the command.
pub proof fn law_plain_packet_roundtrip(group: u8, cmd: u16, fields: Seq<Field>)
    ensures
        decoded(framed(plain_payload(group, cmd, fields))) == Some(
            PacketView {
                pattern: seq![0x03u8, 0x00u8, group],
                cmd: bare_cmd(cmd),
                is_enc: cmd & 0x4000 != 0,
                is_ack: cmd & 0x0800 != 0,
                body: tlv_bytes(fields),
            },
        ),
        (forall|i: int| 0 <= i < fields.len() ==> (#[trigger] fields[i]).1.len() <= 255)
            ==> tlv_fields(inner(framed(plain_payload(group, cmd, fields))), 5) == fields,
{
    let payload = plain_payload(group, cmd, fields);
    law_frame_roundtrip(payload);
    lemma_cmd_bytes(cmd);
    assert(payload.take(3) =~= seq![0x03u8, 0x00u8, group]);
    assert(payload.skip(5) =~= tlv_bytes(fields));
    if forall|i: int| 0 <= i < fields.len() ==> (#[trigger] fields[i]).1.len() <= 255 {
        law_tlv_roundtrip(payload.take(5), fields);
        assert(payload.take(5) + tlv_bytes(fields) =~= payload);
    }
}

/// An encrypted packet decodes to the group, command and ciphertext that it was built from. Flag
/// bits in the command are read as flags and not as part of the command.
pub proof fn law_sealed_packet_roundtrip(group: u8, cmd: u16, ciphertext: Seq<u8>)
    ensures
        decoded(framed(sealed_payload(group, cmd, ciphertext))) == Some(
            PacketView {
                pattern: seq![0x03u8, 0x00u8, group],
                cmd: bare_cmd(cmd),
                is_enc: true,
                is_ack: cmd & 0x0800 != 0,
                body: ciphertext,
            },
        ),
{
    let payload = sealed_payload(group, cmd, ciphertext);
    law_frame_roundtrip(payload);
    lemma_cmd_bytes(cmd);
    assert(payload.take(3) =~= seq![0x03u8, 0x00u8, group]);
    assert(payload.skip(5) =~= ciphertext);
}

// ---------------------------------------------------------------------------
// Status
// ---------------------------------------------------------------------------

/// The number in two bytes, low byte first.
pub open spec fn le16(v: Seq<u8>, at: int) -> u16 {
    (v[at] + 256 * v[at + 1]) as u16
}

/// The number in four bytes, lowest byte first.
pub open spec fn le32(v: Seq<u8>, at: int) -> u32 {
    (v[at] + 256 * v[at + 1] + 65536 * v[at + 2] + 16777216 * v[at + 3]) as u32
}

/// A port after a reading; a reading under eight bytes changes nothing.
pub open spec fn port_after(port: PortState, v: Seq<u8>) -> PortState {
    if v.len() < 8 {
        port
    } else if mode_of(v[1]) == ConnectionMode::NotConnected {
        PortState { mode: mode_of(v[1]), millivolts: 0, milliamps: 0, centiwatts: 0, ..port }
    } else {
        PortState {
            mode: mode_of(v[1]),
            millivolts: le16(v, 2),
            milliamps: le16(v, 4),
            centiwatts: le16(v, 6),
            ..port
        }
    }
}

/// A channel after a reading; a reading under fourteen bytes changes nothing, and a channel
/// that is not connected keeps its limits.
pub open spec fn channel_after(ch: ChannelState, v: Seq<u8>) -> ChannelState {
    if v.len() < 14 {
        ch
    } else if mode_of(v[1]) == ConnectionMode::NotConnected {
        ChannelState { mode: mode_of(v[1]), centivolts: 0, centiamps: 0, ..ch }
    } else {
        ChannelState {
            mode: mode_of(v[1]),
            centivolts: le16(v, 2),
            centiamps: le16(v, 4),
            max_centivolts: le16(v, 6),
            max_centiamps: le16(v, 8),
            max_deciwatts: le16(v, 11),
            ..ch
        }
    }
}

/// The state after one field of a status payload that is read at `now`.
pub open spec fn status_after(d: DashboardView, field: Field, now: Instant) -> DashboardView {
    let (tag, v) = field;
    if tag == 0xA1 && v.len() > 0 {
        DashboardView { device_status: v[0], ..d }
    } else if 0xA4 <= tag <= 0xA9 {
        let i = tag - 0xA4;
        DashboardView { ports: d.ports.update(i, port_after(d.ports[i], v)), ..d }
    } else if 0xAA <= tag <= 0xAE {
        let i = tag - 0xAA;
        DashboardView { channels: d.channels.update(i, channel_after(d.channels[i], v)), ..d }
    } else if tag == 0xB3 && v.len() >= 2 {
        DashboardView { temperature: v[1] as i32, ..d }
    } else if tag == 0xFE && v.len() >= 5 {
        DashboardView { device_ts: le32(v, 1), last_update: Some(now), ..d }
    } else {
        d
    }
}

/// The state after the fields of a status payload, in their order.
pub open spec fn status_after_all(d: DashboardView, fields: Seq<Field>, now: Instant) -> DashboardView
    decreases fields.len(),
{
    if fields.len() == 0 {
        d
    } else {
        status_after_all(status_after(d, fields[0], now), fields.drop_first(), now)
    }
}

fn le16_at(v: &[u8], at: usize) -> (n: u16)
    requires
        at + 1 < v@.len(),
    ensures
        n == le16(v@, at as int),
{
    v[at] as u16 + 256 * v[at + 1] as u16
}

fn apply_port(port: &mut PortState, v: &[u8])
    ensures
        *final(port) == port_after(*old(port), v@),
{
    if v.len() < 8 {
        return;
    }
    port.mode = ConnectionMode::from_byte(v[1]);
    if port.mode != ConnectionMode::NotConnected {
        port.millivolts = le16_at(v, 2);
        port.milliamps = le16_at(v, 4);
        port.centiwatts = le16_at(v, 6);
    } else {
        port.millivolts = 0;
        port.milliamps = 0;
        port.centiwatts = 0;
    }
}

fn apply_channel(ch: &mut ChannelState, v: &[u8])
    ensures
        *final(ch) == channel_after(*old(ch), v@),
{
    if v.len() < 14 {
        return;
    }
    ch.mode = ConnectionMode::from_byte(v[1]);
    if ch.mode != ConnectionMode::NotConnected {
        ch.centivolts = le16_at(v, 2);
        ch.centiamps = le16_at(v, 4);
        ch.max_centivolts = le16_at(v, 6);
        ch.max_centiamps = le16_at(v, 8);
        ch.max_deciwatts = le16_at(v, 11);
    } else {
        ch.centivolts = 0;
        ch.centiamps = 0;
    }
}

fn apply_field(tag: u8, v: &[u8], now: Instant, state: &mut DashboardState)
    ensures
        final(state)@ == status_after(old(state)@, (tag, v@), now),
{
    if tag == 0xA1 && v.len() > 0 {
        state.device_status = v[0];
    } else if 0xA4 <= tag && tag <= 0xA9 {
        apply_port(&mut state.ports[(tag - 0xA4) as usize], v);
    } else if 0xAA <= tag && tag <= 0xAE {
        apply_channel(&mut state.channels[(tag - 0xAA) as usize], v);
    } else if tag == 0xB3 && v.len() >= 2 {
        state.temperature = v[1] as i32;
    } else if tag == 0xFE && v.len() >= 5 {
        state.device_ts = v[1] as u32 + 256 * v[2] as u32 + 65536 * v[3] as u32 + 16777216
            * v[4] as u32;
        state.last_update = Some(now);
    }
}

/// Apply a comprehensive status payload (TLV offset already resolved) that is read at `now`.
pub fn apply_status_at(data: &[u8], offset: usize, now: Instant, state: &mut DashboardState)
    requires
        offset < usize::MAX,
    ensures
        final(state)@ == status_after_all(old(state)@, tlv_fields(data@, offset as int), now),
{
    let mut iter = tlv_iter(data, offset);
    let ghost goal = status_after_all(state@, iter.rest(), now);
    loop
        invariant
            status_after_all(state@, iter.rest(), now) == goal,
        ensures
            state@ == goal,
        decreases iter.bytes().len() - iter.position(),
    {
        let ghost left = iter.rest();
        match iter.next() {
            Some(entry) => {
                assert(left.drop_first() =~= iter.rest());
                apply_field(entry.tag, entry.val, now, state);
            },
            None => {
                break;
            },
        }
    }
}

/// Apply a comprehensive status payload (TLV offset already resolved) to
/// `DashboardState`. Called for cmds 0x0300, 0x0D00, 0x8200, 0x820A, 0x8402, 0x8405.
pub fn apply_status(data: &[u8], offset: usize, state: &mut DashboardState)
    requires
        offset < usize::MAX,
    ensures
        exists|now: Instant|
            final(state)@ == #[trigger] status_after_all(
                old(state)@,
                tlv_fields(data@, offset as int),
                now,
            ),
{
    apply_status_at(data, offset, Instant::now(), state);
}

/// Apply live-power payload (same tag layout as comprehensive status).
pub fn apply_live_power(data: &[u8], offset: usize, state: &mut DashboardState)
    requires
        offset < usize::MAX,
    ensures
        exists|now: Instant|
            final(state)@ == #[trigger] status_after_all(
                old(state)@,
                tlv_fields(data@, offset as int),
                now,
            ),
{
    apply_status(data, offset, state);
}

/// A status payload changes readings only: phase, device and error stay, and so do the number
/// and the names of the ports and channels.
pub proof fn law_status_keeps_the_rest(d: DashboardView, fields: Seq<Field>, now: Instant)
    requires
        d.ports.len() == 6,
        d.channels.len() == 5,
    ensures
        ({
            let after = status_after_all(d, fields, now);
            &&& after.session_phase == d.session_phase
            &&& after.device_info == d.device_info
            &&& after.error == d.error
            &&& after.ports.len() == 6
            &&& after.channels.len() == 5
            &&& forall|i: int| 0 <= i < 6 ==> (#[trigger] after.ports[i]).name == d.ports[i].name
            &&& forall|i: int|
                0 <= i < 5 ==> (#[trigger] after.channels[i]).name == d.channels[i].name
        }),
    decreases fields.len(),
{
    if fields.len() > 0 {
        law_status_keeps_the_rest(status_after(d, fields[0], now), fields.drop_first(), now);
    }
}

/// Fields with tags that stand for no reading change nothing.
pub proof fn law_status_ignores_unknown_tags(d: DashboardView, fields: Seq<Field>, now: Instant)
    requires
        forall|i: int|
            0 <= i < fields.len() ==> {
                let tag = (#[trigger] fields[i]).0;
                tag != 0xA1 && !(0xA4 <= tag <= 0xAE) && tag != 0xB3 && tag != 0xFE
            },
    ensures
        status_after_all(d, fields, now) == d,
    decreases fields.len(),
{
    if fields.len() > 0 {
        assert(status_after(d, fields[0], now) == d);
        assert forall|i: int| 0 <= i < fields.drop_first().len() implies {
            let tag = (#[trigger] fields.drop_first()[i]).0;
            tag != 0xA1 && !(0xA4 <= tag <= 0xAE) && tag != 0xB3 && tag != 0xFE
        } by {
            assert(fields.drop_first()[i] == fields[i + 1]);
        }
        law_status_ignores_unknown_tags(d, fields.drop_first(), now);
    }
}

/// Whether a status payload tells the time of the device.
pub open spec fn tells_time(fields: Seq<Field>) -> bool {
    exists|i: int| 0 <= i < fields.len() && is_time(#[trigger] fields[i])
}

/// A field that tells the time of the device.
pub open spec fn is_time(field: Field) -> bool {
    field.0 == 0xFE && field.1.len() >= 5
}

/// All that is known but for when it was last updated.
pub open spec fn without_update(d: DashboardView) -> DashboardView {
    DashboardView { last_update: None, ..d }
}

/// A status payload counts as an update if and only if it tells the time of the device; the
/// update is then as old as the reading of the payload.
pub proof fn law_time_makes_an_update(d: DashboardView, fields: Seq<Field>, now: Instant)
    ensures
        status_after_all(d, fields, now).last_update == if tells_time(fields) {
            Some(now)
        } else {
            d.last_update
        },
    decreases fields.len(),
{
    if fields.len() > 0 {
        let rest = fields.drop_first();
        let next = status_after(d, fields[0], now);
        law_time_makes_an_update(next, rest, now);
        assert(next.last_update == if is_time(fields[0]) {
            Some(now)
        } else {
            d.last_update
        });
        if tells_time(rest) {
            let i = choose|i: int| 0 <= i < rest.len() && is_time(#[trigger] rest[i]);
            assert(fields[i + 1] == rest[i]);
        }
        if tells_time(fields) && !is_time(fields[0]) {
            let i = choose|i: int| 0 <= i < fields.len() && is_time(#[trigger] fields[i]);
            assert(rest[i - 1] == fields[i]);
        }
    }
}

/// When a payload is read matters for the last update only.
proof fn lemma_rest_does_not_depend_on_time(
    a: DashboardView,
    b: DashboardView,
    fields: Seq<Field>,
    n1: Instant,
    n2: Instant,
)
    requires
        without_update(a) == without_update(b),
    ensures
        without_update(status_after_all(a, fields, n1)) == without_update(
            status_after_all(b, fields, n2),
        ),
    decreases fields.len(),
{
    if fields.len() > 0 {
        assert(a.ports == b.ports && a.channels == b.channels);
        let a2 = status_after(a, fields[0], n1);
        let b2 = status_after(b, fields[0], n2);
        assert(without_update(a2) == without_update(b2));
        lemma_rest_does_not_depend_on_time(a2, b2, fields.drop_first(), n1, n2);
    }
}

/// Two status payloads, one after the other, do what their fields in one payload would do,
/// whenever each is read: all but the last update is the same, and there is an update in both
/// cases or in neither. Where one of the two payloads tells the time, the update is as old as the
/// reading of the later one that does.
pub proof fn law_status_payloads_compose(
    d: DashboardView,
    first: Seq<Field>,
    second: Seq<Field>,
    n1: Instant,
    n2: Instant,
    n3: Instant,
)
    ensures
        ({
            let apart = status_after_all(status_after_all(d, first, n1), second, n2);
            let at_once = status_after_all(d, first + second, n3);
            &&& without_update(apart) == without_update(at_once)
            &&& tells_time(first + second) <==> tells_time(first) || tells_time(second)
            &&& at_once.last_update == if tells_time(first + second) {
                Some(n3)
            } else {
                d.last_update
            }
            &&& apart.last_update == if tells_time(second) {
                Some(n2)
            } else if tells_time(first) {
                Some(n1)
            } else {
                d.last_update
            }
        }),
{
    let both = first + second;
    lemma_status_in_one_go(d, first, second, n3);
    let middle1 = status_after_all(d, first, n1);
    let middle3 = status_after_all(d, first, n3);
    lemma_rest_does_not_depend_on_time(d, d, first, n1, n3);
    lemma_rest_does_not_depend_on_time(middle1, middle3, second, n2, n3);
    law_time_makes_an_update(d, both, n3);
    law_time_makes_an_update(d, first, n1);
    law_time_makes_an_update(middle1, second, n2);
    if tells_time(first) {
        let i = choose|i: int| 0 <= i < first.len() && is_time(#[trigger] first[i]);
        assert(both[i] == first[i]);
    }
    if tells_time(second) {
        let i = choose|i: int| 0 <= i < second.len() && is_time(#[trigger] second[i]);
        assert(both[first.len() + i] == second[i]);
    }
    if tells_time(both) {
        let i = choose|i: int| 0 <= i < both.len() && is_time(#[trigger] both[i]);
        if i < first.len() {
            assert(first[i] == both[i]);
        } else {
            assert(second[i - first.len()] == both[i]);
        }
    }
}

proof fn lemma_status_in_one_go(
    d: DashboardView,
    first: Seq<Field>,
    second: Seq<Field>,
    now: Instant,
)
    ensures
        status_after_all(d, first + second, now) == status_after_all(
            status_after_all(d, first, now),
            second,
            now,
        ),
    decreases first.len(),
{
    if first.len() == 0 {
        assert(first + second =~= second);
    } else {
        assert((first + second).drop_first() =~= first.drop_first() + second);
        lemma_status_in_one_go(status_after(d, first[0], now), first.drop_first(), second, now);
    }
}

// ---------------------------------------------------------------------------
// Session keys and device information
// ---------------------------------------------------------------------------

/// The session key among the fields: the value of the last field that is sixteen bytes long
/// and tagged A1 or A3.
pub open spec fn session_key_in(fields: Seq<Field>) -> Option<Seq<u8>> {
    last_where(fields, |f: Field| f.1.len() == 16 && (f.0 == 0xA1 || f.0 == 0xA3))
}

/// The session IV among the fields: the value of the last field that is sixteen bytes long and
/// tagged A4.
pub open spec fn session_iv_in(fields: Seq<Field>) -> Option<Seq<u8>> {
    last_where(fields, |f: Field| f.1.len() == 16 && f.0 == 0xA4)
}

/// The bytes of an optional array.
pub open spec fn bytes_of(a: Option<[u8; 16]>) -> Option<Seq<u8>> {
    match a {
        Some(bytes) => Some(bytes@),
        None => None,
    }
}

/// Parse session-key-exchange response (cmd 0x0022): the new key and the new IV, as far as
/// the response holds them.
pub fn parse_session_key_response(data: &[u8], offset: usize) -> (r: (
    Option<[u8; 16]>,
    Option<[u8; 16]>,
))
    requires
        offset < usize::MAX,
    ensures
        bytes_of(r.0) == session_key_in(tlv_fields(data@, offset as int)),
        bytes_of(r.1) == session_iv_in(tlv_fields(data@, offset as int)),
{
    let mut new_key: Option<[u8; 16]> = None;
    let mut new_iv: Option<[u8; 16]> = None;
    let mut iter = tlv_iter(data, offset);
    let ghost all = iter.rest();
    let ghost mut done = Seq::<Field>::empty();
    assert(done + iter.rest() =~= all);
    loop
        invariant
            done + iter.rest() == all,
            bytes_of(new_key) == session_key_in(done),
            bytes_of(new_iv) == session_iv_in(done),
        ensures
            bytes_of(new_key) == session_key_in(all),
            bytes_of(new_iv) == session_iv_in(all),
        decreases iter.bytes().len() - iter.position(),
    {
        let ghost left = iter.rest();
        match iter.next() {
            Some(entry) => {
                if entry.val.len() == 16 {
                    assert(padded_iv(entry.val@) =~= entry.val@);
                    if entry.tag == 0xA1 || entry.tag == 0xA3 {
                        new_key = Some(pad_iv(entry.val));
                    } else if entry.tag == 0xA4 {
                        new_iv = Some(pad_iv(entry.val));
                    }
                }
                proof {
                    let field = entry.field();
                    assert(done.push(field).drop_last() =~= done);
                    assert(done.push(field) + iter.rest() =~= done + left);
                    done = done.push(field);
                }
            },
            None => {
                assert(done + left =~= done);
                break;
            },
        }
    }
    (new_key, new_iv)
}

/// Printable ASCII as it is, any other byte as a full stop.
pub open spec fn ascii_char(b: u8) -> char {
    if 0x20 <= b < 0x7F {
        b as char
    } else {
        '.'
    }
}

/// The bytes as printable ASCII.
pub open spec fn ascii_text(b: Seq<u8>) -> Seq<char> {
    b.map_values(|c: u8| ascii_char(c))
}

/// The value of the last field with the given tag.
pub open spec fn last_tagged(fields: Seq<Field>, tag: u8) -> Option<Seq<u8>> {
    last_where(fields, |f: Field| f.0 == tag)
}

/// Serial number, firmware version and MAC address among the fields; a field that does not
/// occur is empty.
pub open spec fn info_in(fields: Seq<Field>) -> InfoView {
    InfoView {
        serial: match last_tagged(fields, 0xA4) {
            Some(v) => ascii_text(v),
            None => Seq::empty(),
        },
        firmware: match last_tagged(fields, 0xA3) {
            Some(v) => ascii_text(v),
            None => Seq::empty(),
        },
        mac: match last_tagged(fields, 0xA5) {
            Some(v) => hex_colon_text(v),
            None => Seq::empty(),
        },
    }
}

fn hex_colon_str(b: &[u8]) -> (r: String)
    ensures
        r@ == hex_colon_text(b@),
{
    let mut r = String::new();
    let size: usize = b.len();
    let mut i: usize = 0;
    while i < size
        invariant
            i <= size,
            size == b@.len(),
            r@ == hex_colon_text(b@.take(i as int)),
        decreases size - i,
    {
        if i > 0 {
            r.push(':');
        }
        push_hex_byte(&mut r, b[i]);
        proof {
            assert(b@.take(i + 1).drop_last() =~= b@.take(i as int));
            assert(r@ =~= hex_colon_text(b@.take(i + 1)));
        }
        i += 1;
    }
    assert(b@.take(size as int) =~= b@);
    r
}

/// Extract device info (serial, firmware, MAC) from handshake 0x0029 response.
/// TLV starts at offset 6 (after 5-byte header + leading 0x00 byte).
pub fn extract_handshake_info(payload: &[u8]) -> (r: (String, String, String))
    ensures
        r.0@ == info_in(tlv_fields(payload@, 6)).serial,
        r.1@ == info_in(tlv_fields(payload@, 6)).firmware,
        r.2@ == info_in(tlv_fields(payload@, 6)).mac,
{
    let mut version = String::new();
    let mut serial = String::new();
    let mut mac = String::new();
    let mut iter = tlv_iter(payload, 6);
    let ghost all = iter.rest();
    let ghost mut done = Seq::<Field>::empty();
    assert(done + iter.rest() =~= all);
    loop
        invariant
            done + iter.rest() == all,
            serial@ == info_in(done).serial,
            version@ == info_in(done).firmware,
            mac@ == info_in(done).mac,
        ensures
            serial@ == info_in(all).serial,
            version@ == info_in(all).firmware,
            mac@ == info_in(all).mac,
        decreases iter.bytes().len() - iter.position(),
    {
        let ghost left = iter.rest();
        match iter.next() {
            Some(entry) => {
                if entry.tag == 0xA3 {
                    version = bytes_to_ascii(entry.val);
                } else if entry.tag == 0xA4 {
                    serial = bytes_to_ascii(entry.val);
                } else if entry.tag == 0xA5 {
                    mac = hex_colon_str(entry.val);
                }
                proof {
                    let field = entry.field();
                    assert(done.push(field).drop_last() =~= done);
                    assert(done.push(field) + iter.rest() =~= done + left);
                    done = done.push(field);
                }
            },
            None => {
                assert(done + left =~= done);
                break;
            },
        }
    }
    (serial, version, mac)
}

/// The bytes as printable ASCII, with a full stop for every other byte.
pub fn bytes_to_ascii(b: &[u8]) -> (r: String)
    ensures
        r@ == ascii_text(b@),
{
    let mut r = String::new();
    let size: usize = b.len();
    let mut i: usize = 0;
    while i < size
        invariant
            i <= size,
            size == b@.len(),
            r@ == ascii_text(b@.take(i as int)),
        decreases size - i,
    {
        let c: u8 = b[i];
        if 0x20 <= c && c < 0x7F {
            r.push(c as char);
        } else {
            r.push('.');
        }
        i += 1;
        assert(r@ =~= ascii_text(b@.take(i as int)));
    }
    assert(b@.take(size as int) =~= b@);
    r
}

/// The bytes as upper-case hexadecimal digits.
pub fn hex_str(b: &[u8]) -> (r: String)
    ensures
        r@ == hex_text(b@),
{
    let mut r = String::new();
    let size: usize = b.len();
    let mut i: usize = 0;
    while i < size
        invariant
            i <= size,
            size == b@.len(),
            r@ == hex_text(b@.take(i as int)),
        decreases size - i,
    {
        push_hex_byte(&mut r, b[i]);
        assert(b@.take(i + 1).drop_last() =~= b@.take(i as int));
        i += 1;
    }
    assert(b@.take(size as int) =~= b@);
    r
}

/// Text made of bytes is as long as the bytes and printable throughout; printable ASCII comes out
/// unchanged, and any other byte as a full stop.
pub proof fn law_ascii_text_is_printable(b: Seq<u8>)
    ensures
        ascii_text(b).len() == b.len(),
        forall|i: int|
            0 <= i < b.len() ==> ' ' <= #[trigger] ascii_text(b)[i] && ascii_text(b)[i] <= '~',
        forall|i: int|
            0 <= i < b.len() && 0x20 <= b[i] < 0x7F ==> #[trigger] ascii_text(b)[i] == b[i] as char,
        forall|i: int|
            0 <= i < b.len() && !(0x20 <= b[i] < 0x7F) ==> #[trigger] ascii_text(b)[i] == '.',
{
}

// ---------------------------------------------------------------------------
// Laws on bytes and readings
// ---------------------------------------------------------------------------

/// What a notification of ten bytes or more is decoded to, byte by byte; a shorter one is no
/// packet. The bits of value 64 and 8 in the high byte of the command are flags.
pub proof fn law_decoded_bytes(raw: Seq<u8>)
    ensures
        decoded(raw) is Some <==> raw.len() >= 10,
        raw.len() >= 10 ==> inner(raw) == raw.subrange(4, raw.len() - 1),
        decoded(raw) matches Some(pkt) ==> {
            let enc = raw[7] as int / 64 % 2;
            let ack = raw[7] as int / 8 % 2;
            &&& pkt.pattern == seq![raw[4], raw[5], raw[6]]
            &&& pkt.is_enc <==> enc == 1
            &&& pkt.is_ack <==> ack == 1
            &&& pkt.cmd == 256 * (raw[7] - 64 * enc - 8 * ack) + raw[8]
            &&& pkt.body == raw.subrange(9, raw.len() - 1)
        },
{
    if raw.len() >= 10 {
        let payload = inner(raw);
        let high = raw[7];
        assert(high & 0x40 != 0 <==> high / 64 % 2 == 1) by (bit_vector);
        assert(high & 0x08 != 0 <==> high / 8 % 2 == 1) by (bit_vector);
        assert((high & 0xB7) + 64 * (high / 64 % 2) + 8 * (high / 8 % 2) == high) by (bit_vector);
        assert(payload.take(3) =~= seq![raw[4], raw[5], raw[6]]);
        assert(payload.skip(5) =~= raw.subrange(9, raw.len() - 1));
    }
}

/// A single field of a status payload.
proof fn lemma_status_of_one_field(d: DashboardView, field: Field, now: Instant)
    ensures
        status_after_all(d, seq![field], now) == status_after(d, field, now),
{
    reveal_with_fuel(status_after_all, 2);
    assert(seq![field].drop_first() =~= Seq::<Field>::empty());
}

/// The two dashboards agree in all but the ports and channels.
pub open spec fn same_but_connections(a: DashboardView, b: DashboardView) -> bool {
    &&& a.session_phase == b.session_phase
    &&& a.device_status == b.device_status
    &&& a.temperature == b.temperature
    &&& a.device_ts == b.device_ts
    &&& a.last_update == b.last_update
    &&& a.device_info == b.device_info
    &&& a.error == b.error
}

/// A field with tag A4 to A9 is a reading of the port with that number. Eight bytes or more set
/// the mode from byte 1; in either connected mode volts, amps and watts are the numbers in bytes
/// 2 to 7, low byte first, and otherwise they are zero. A shorter reading changes nothing, and
/// nothing else changes.
pub proof fn law_port_reading(d: DashboardView, i: int, v: Seq<u8>, now: Instant)
    requires
        d.ports.len() == 6,
        0 <= i < 6,
    ensures
        ({
            let after = status_after_all(d, seq![((0xA4 + i) as u8, v)], now);
            let port = after.ports[i];
            let connected = v[1] == 1 || v[1] == 2;
            &&& after.ports.len() == 6
            &&& forall|j: int| 0 <= j < 6 && j != i ==> after.ports[j] == #[trigger] d.ports[j]
            &&& after.channels == d.channels
            &&& same_but_connections(after, d)
            &&& v.len() < 8 ==> port == d.ports[i]
            &&& v.len() >= 8 ==> {
                &&& port.name == d.ports[i].name
                &&& port.mode == ConnectionMode::Output <==> v[1] == 1
                &&& port.mode == ConnectionMode::Input <==> v[1] == 2
                &&& port.mode == ConnectionMode::NotConnected <==> !connected
            }
            &&& v.len() >= 8 && connected ==> {
                &&& port.millivolts == v[2] + 256 * v[3]
                &&& port.milliamps == v[4] + 256 * v[5]
                &&& port.centiwatts == v[6] + 256 * v[7]
            }
            &&& v.len() >= 8 && !connected ==> {
                &&& port.millivolts == 0
                &&& port.milliamps == 0
                &&& port.centiwatts == 0
            }
        }),
{
    lemma_status_of_one_field(d, ((0xA4 + i) as u8, v), now);
}

/// Two readings of a port that differ in which connected mode they tell give the same volts, amps
/// and watts.
pub proof fn law_direction_does_not_change_readings(
    d: DashboardView,
    i: int,
    v: Seq<u8>,
    now: Instant,
)
    requires
        d.ports.len() == 6,
        d.channels.len() == 5,
        v.len() >= 8,
    ensures
        0 <= i < 6 ==> ({
            let tag = (0xA4 + i) as u8;
            let output = status_after_all(d, seq![(tag, v.update(1, 1))], now).ports[i];
            let input = status_after_all(d, seq![(tag, v.update(1, 2))], now).ports[i];
            &&& output.millivolts == input.millivolts
            &&& output.milliamps == input.milliamps
            &&& output.centiwatts == input.centiwatts
        }),
        0 <= i < 5 ==> ({
            let tag = (0xAA + i) as u8;
            let output = status_after_all(d, seq![(tag, v.update(1, 1))], now).channels[i];
            let input = status_after_all(d, seq![(tag, v.update(1, 2))], now).channels[i];
            &&& output.centivolts == input.centivolts
            &&& output.centiamps == input.centiamps
            &&& output.max_centivolts == input.max_centivolts
            &&& output.max_centiamps == input.max_centiamps
            &&& output.max_deciwatts == input.max_deciwatts
        }),
{
    if 0 <= i < 6 {
        law_port_reading(d, i, v.update(1, 1), now);
        law_port_reading(d, i, v.update(1, 2), now);
    }
    if 0 <= i < 5 {
        law_channel_reading(d, i, v.update(1, 1), now);
        law_channel_reading(d, i, v.update(1, 2), now);
    }
}

/// A field with tag AA to AE is a reading of the channel with that number. Fourteen bytes or more
/// set the mode from byte 1; in either connected mode volts, amps and the limits are the numbers
/// in bytes 2 to 9 and 11 to 12, low byte first, and otherwise volts and amps are zero and the
/// limits stay. A shorter reading changes nothing, and nothing else changes.
pub proof fn law_channel_reading(d: DashboardView, i: int, v: Seq<u8>, now: Instant)
    requires
        d.channels.len() == 5,
        0 <= i < 5,
    ensures
        ({
            let after = status_after_all(d, seq![((0xAA + i) as u8, v)], now);
            let before = d.channels[i];
            let ch = after.channels[i];
            let connected = v[1] == 1 || v[1] == 2;
            &&& after.channels.len() == 5
            &&& forall|j: int|
                0 <= j < 5 && j != i ==> after.channels[j] == #[trigger] d.channels[j]
            &&& after.ports == d.ports
            &&& same_but_connections(after, d)
            &&& v.len() < 14 ==> ch == before
            &&& v.len() >= 14 ==> {
                &&& ch.name == before.name
                &&& ch.mode == ConnectionMode::Output <==> v[1] == 1
                &&& ch.mode == ConnectionMode::Input <==> v[1] == 2
                &&& ch.mode == ConnectionMode::NotConnected <==> !connected
            }
            &&& v.len() >= 14 && connected ==> {
                &&& ch.centivolts == v[2] + 256 * v[3]
                &&& ch.centiamps == v[4] + 256 * v[5]
                &&& ch.max_centivolts == v[6] + 256 * v[7]
                &&& ch.max_centiamps == v[8] + 256 * v[9]
                &&& ch.max_deciwatts == v[11] + 256 * v[12]
            }
            &&& v.len() >= 14 && !connected ==> {
                &&& ch.centivolts == 0
                &&& ch.centiamps == 0
                &&& ch.max_centivolts == before.max_centivolts
                &&& ch.max_centiamps == before.max_centiamps
                &&& ch.max_deciwatts == before.max_deciwatts
            }
        }),
{
    lemma_status_of_one_field(d, ((0xAA + i) as u8, v), now);
}

/// Fields with the tags A1, B3 and FE tell the status byte, the temperature in their second byte,
/// and the device's clock in the four bytes behind their first, lowest byte first; the last one
/// makes an update. Each changes nothing else, and one that is too short changes nothing.
pub proof fn law_device_reading(d: DashboardView, v: Seq<u8>, now: Instant)
    ensures
        ({
            let status = status_after_all(d, seq![(0xA1u8, v)], now);
            let heat = status_after_all(d, seq![(0xB3u8, v)], now);
            let clock = status_after_all(d, seq![(0xFEu8, v)], now);
            &&& v.len() < 1 ==> status == d
            &&& v.len() >= 1 ==> status == (DashboardView { device_status: v[0], ..d })
            &&& v.len() < 2 ==> heat == d
            &&& v.len() >= 2 ==> heat.temperature == v[1] && heat == (DashboardView {
                temperature: heat.temperature,
                ..d
            })
            &&& v.len() < 5 ==> clock == d
            &&& v.len() >= 5 ==> {
                &&& clock.device_ts == v[1] + 256 * v[2] + 65536 * v[3] + 16777216 * v[4]
                &&& clock.last_update == Some(now)
                &&& clock == (DashboardView {
                    device_ts: clock.device_ts,
                    last_update: clock.last_update,
                    ..d
                })
            }
        }),
{
    lemma_status_of_one_field(d, (0xA1u8, v), now);
    lemma_status_of_one_field(d, (0xB3u8, v), now);
    lemma_status_of_one_field(d, (0xFEu8, v), now);
}

/// The last field that is wanted is found.
proof fn lemma_last_where(fields: Seq<Field>, wanted: spec_fn(Field) -> bool, i: int)
    ensures
        0 <= i < fields.len() && wanted(fields[i]) && (forall|j: int|
            i < j < fields.len() ==> !wanted(#[trigger] fields[j])) ==> last_where(fields, wanted)
            == Some(fields[i].1),
        (forall|j: int| 0 <= j < fields.len() ==> !wanted(#[trigger] fields[j])) ==> last_where(
            fields,
            wanted,
        ) is None,
    decreases fields.len(),
{
    if fields.len() > 0 {
        let shorter = fields.drop_last();
        lemma_last_where(shorter, wanted, i);
        assert(forall|j: int| 0 <= j < shorter.len() ==> shorter[j] == fields[j]);
        if i < shorter.len() {
            assert(i < fields.len() - 1);
            if forall|j: int| i < j < fields.len() ==> !wanted(#[trigger] fields[j]) {
                assert(0 <= i ==> !wanted(fields[fields.len() - 1]));
            }
        }
        if forall|j: int| 0 <= j < fields.len() ==> !wanted(#[trigger] fields[j]) {
            assert(!wanted(fields[fields.len() - 1]));
        }
    }
}

/// The session key is the value of the last field that is sixteen bytes long and tagged A1 or A3,
/// and the IV that of the last one tagged A4; where there is no such field there is none.
pub proof fn law_session_key_is_the_last_one(fields: Seq<Field>, i: int)
    ensures
        0 <= i < fields.len() && is_key_field(fields[i]) && (forall|j: int|
            i < j < fields.len() ==> !is_key_field(#[trigger] fields[j])) ==> session_key_in(fields)
            == Some(fields[i].1),
        (forall|j: int| 0 <= j < fields.len() ==> !is_key_field(#[trigger] fields[j]))
            ==> session_key_in(fields) is None,
        0 <= i < fields.len() && is_iv_field(fields[i]) && (forall|j: int|
            i < j < fields.len() ==> !is_iv_field(#[trigger] fields[j])) ==> session_iv_in(fields)
            == Some(fields[i].1),
        (forall|j: int| 0 <= j < fields.len() ==> !is_iv_field(#[trigger] fields[j]))
            ==> session_iv_in(fields) is None,
{
    let key = |f: Field| f.1.len() == 16 && (f.0 == 0xA1 || f.0 == 0xA3);
    let iv = |f: Field| f.1.len() == 16 && f.0 == 0xA4;
    assert(forall|j: int| 0 <= j < fields.len() ==> key(fields[j]) == is_key_field(fields[j]));
    assert(forall|j: int| 0 <= j < fields.len() ==> iv(fields[j]) == is_iv_field(fields[j]));
    lemma_last_where(fields, key, i);
    lemma_last_where(fields, iv, i);
}

/// A field that holds a session key.
pub open spec fn is_key_field(f: Field) -> bool {
    f.1.len() == 16 && (f.0 == 0xA1 || f.0 == 0xA3)
}

/// A field that holds a session IV.
pub open spec fn is_iv_field(f: Field) -> bool {
    f.1.len() == 16 && f.0 == 0xA4
}

/// Serial number, firmware version and MAC address come from the last fields with the tags A4, A3
/// and A5: two texts, one character for each byte, and pairs of digits. Without such a field they
/// are empty.
pub proof fn law_device_information(fields: Seq<Field>, i: int)
    ensures
        ({
            let info = info_in(fields);
            let last = 0 <= i < fields.len() && forall|j: int|
                i < j < fields.len() ==> (#[trigger] fields[j]).0 != fields[i].0;
            &&& last && fields[i].0 == 0xA4 ==> info.serial == ascii_text(fields[i].1)
            &&& last && fields[i].0 == 0xA3 ==> info.firmware == ascii_text(fields[i].1)
            &&& last && fields[i].0 == 0xA5 ==> info.mac == hex_colon_text(fields[i].1)
        }),
        (forall|j: int| 0 <= j < fields.len() ==> (#[trigger] fields[j]).0 != 0xA4) ==> info_in(
            fields,
        ).serial.len() == 0,
        (forall|j: int| 0 <= j < fields.len() ==> (#[trigger] fields[j]).0 != 0xA3) ==> info_in(
            fields,
        ).firmware.len() == 0,
        (forall|j: int| 0 <= j < fields.len() ==> (#[trigger] fields[j]).0 != 0xA5) ==> info_in(
            fields,
        ).mac.len() == 0,
{
    lemma_last_tagged(fields, 0xA4, i);
    lemma_last_tagged(fields, 0xA3, i);
    lemma_last_tagged(fields, 0xA5, i);
}

proof fn lemma_last_tagged(fields: Seq<Field>, tag: u8, i: int)
    ensures
        0 <= i < fields.len() && fields[i].0 == tag && (forall|j: int|
            i < j < fields.len() ==> (#[trigger] fields[j]).0 != tag) ==> last_tagged(fields, tag)
            == Some(fields[i].1),
        (forall|j: int| 0 <= j < fields.len() ==> (#[trigger] fields[j]).0 != tag) ==> last_tagged(
            fields,
            tag,
        ) is None,
    decreases fields.len(),
{
    if fields.len() > 0 {
        let shorter = fields.drop_last();
        lemma_last_tagged(shorter, tag, i);
        assert(forall|j: int| 0 <= j < shorter.len() ==> shorter[j] == fields[j]);
        assert(fields[fields.len() - 1] == fields.last());
        if fields.last().0 == tag {
            assert(last_tagged(fields, tag) == Some(fields.last().1));
        } else {
            assert(last_tagged(fields, tag) == last_tagged(shorter, tag));
        }
    }
}

} // verus!
