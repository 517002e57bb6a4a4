//! What is printed of the protocol traffic.
use vstd::prelude::*;

use crate::crypto::DecryptError;
use crate::parser::{decode_packet, hex_str, DecodedPacket};
use crate::session::scan::ScanHit;
use crate::session::{has_fragment, Received, RecvEvent, Route};
use crate::state::DeviceInfo;
use crate::text::{push_decimal, push_hex_byte, push_hex_word, push_line, quoted};

verus! {

use crate::parser::{decoded, law_decoded_bytes, PacketView};
use crate::session::is_fragment;
use crate::session::scan::HitView;
use crate::state::InfoView;
use crate::text::{decimal_text, hex_byte, hex_text, hex_word, quoted_text, texts_of};

// ---------------------------------------------------------------------------
// Sending
// ---------------------------------------------------------------------------

/// The lines of a plain packet that is sent. The encryption flag is not shown.
pub open spec fn plain_sent_lines(cmd: u16, packet: Seq<u8>) -> Seq<Seq<char>> {
    seq!["\n→ SEND cmd=0x"@ + hex_word(cmd & 0xBFFF), "  Packet: "@ + hex_text(packet)]
}

/// The lines of an encrypted packet that is sent.
pub open spec fn encrypted_sent_lines(cmd: u16, packet: Seq<u8>) -> Seq<Seq<char>> {
    seq![
        "\n→ SEND cmd=0x"@ + hex_word(cmd) + " (encrypted)"@,
        "  Packet: "@ + hex_text(packet),
    ]
}

fn text_with_hex(label: &str, bytes: &[u8]) -> (r: String)
    ensures
        r@ == label@ + hex_text(bytes@),
{
    let mut r = String::new();
    r.append(label);
    r.append(hex_str(bytes).as_str());
    r
}

/// The lines of a plain packet that is sent.
pub fn trace_plain_sent(cmd: u16, packet: &[u8]) -> (lines: Vec<String>)
    ensures
        texts_of(lines@) == plain_sent_lines(cmd, packet@),
{
    let mut lines: Vec<String> = Vec::new();
    let mut first = String::new();
    first.append("\n→ SEND cmd=0x");
    push_hex_word(&mut first, cmd & 0xBFFF);
    push_line(&mut lines, first);
    push_line(&mut lines, text_with_hex("  Packet: ", packet));
    assert(texts_of(lines@) =~= plain_sent_lines(cmd, packet@));
    lines
}

/// The lines of an encrypted packet that is sent.
pub fn trace_encrypted_sent(cmd: u16, packet: &[u8]) -> (lines: Vec<String>)
    ensures
        texts_of(lines@) == encrypted_sent_lines(cmd, packet@),
{
    let mut lines: Vec<String> = Vec::new();
    let mut first = String::new();
    first.append("\n→ SEND cmd=0x");
    push_hex_word(&mut first, cmd);
    first.append(" (encrypted)");
    push_line(&mut lines, first);
    push_line(&mut lines, text_with_hex("  Packet: ", packet));
    assert(texts_of(lines@) =~= encrypted_sent_lines(cmd, packet@));
    lines
}

// ---------------------------------------------------------------------------
// Receiving
// ---------------------------------------------------------------------------

/// The flags of a packet.
pub open spec fn flags_text(is_enc: bool, is_ack: bool) -> Seq<char> {
    match (is_enc, is_ack) {
        (true, true) => "ENC|ACK"@,
        (true, false) => "ENC"@,
        (false, true) => "ACK"@,
        (false, false) => "none"@,
    }
}

/// The line of a packet.
pub open spec fn packet_line(pkt: PacketView) -> Seq<char> {
    "  cmd=0x"@ + hex_word(pkt.cmd) + "  flags=["@ + flags_text(pkt.is_enc, pkt.is_ack)
        + "]  pattern="@ + hex_byte(pkt.pattern[0]) + hex_byte(pkt.pattern[1]) + hex_byte(
        pkt.pattern[2],
    )
}

/// The line of a fragment.
pub open spec fn fragment_line(pkt: PacketView) -> Seq<char> {
    "  fragment "@ + decimal_text((pkt.body[0] / 16) as nat) + "/"@ + decimal_text(
        (pkt.body[0] % 16) as nat,
    ) + " ("@ + decimal_text((pkt.body.len() - 1) as nat) + " B)"@
}

/// The line of a fragment, where the packet holds one.
pub open spec fn fragment_lines(pkt: PacketView) -> Seq<Seq<char>> {
    if is_fragment(pkt) {
        seq![fragment_line(pkt)]
    } else {
        Seq::empty()
    }
}

/// The lines of a ciphertext that is complete.
pub open spec fn complete_lines(pkt: PacketView, ciphertext_len: usize) -> Seq<Seq<char>> {
    if is_fragment(pkt) {
        seq![
            fragment_line(pkt),
            "  reassembled — "@ + decimal_text(ciphertext_len as nat) + " B ciphertext"@,
        ]
    } else {
        Seq::empty()
    }
}

/// The lines of a route.
pub open spec fn route_lines(cmd: u16, route: Route) -> Seq<Seq<char>> {
    match route {
        Route::NewSessionKey => seq!["  ✓ Session key active"@],
        Route::ReusedInitialKey => seq!["  ✓ Session active (reusing initial key+IV)"@],
        Route::Unknown => seq!["  [unknown cmd=0x"@ + hex_word(cmd) + "]"@],
        _ => Seq::empty(),
    }
}

/// The lines of what became of a packet.
pub open spec fn event_lines(pkt: PacketView, content: Seq<u8>, event: RecvEvent) -> Seq<Seq<char>> {
    match event {
        RecvEvent::NoKey => seq!["  [DECRYPT_ERROR] No key available"@],
        RecvEvent::Buffered => fragment_lines(pkt) + seq!["  buffered — waiting for more"@],
        RecvEvent::DecryptError { ciphertext_len } => complete_lines(pkt, ciphertext_len)
            + seq!["  [DECRYPT_ERROR] "@ + "AES-CBC decrypt error: Error"@],
        RecvEvent::Decrypted { ciphertext_len, route } => complete_lines(pkt, ciphertext_len)
            + seq!["  Decrypted: "@ + hex_text(content)] + route_lines(pkt.cmd, route),
        _ => Seq::empty(),
    }
}

/// The lines of a notification.
pub open spec fn received_lines(raw: Seq<u8>, content: Seq<u8>, event: RecvEvent) -> Seq<Seq<char>> {
    let first = seq!["\n← RECV  raw="@ + hex_text(raw)];
    match decoded(raw) {
        None => first,
        Some(pkt) => first + seq![packet_line(pkt)] + event_lines(pkt, content, event),
    }
}

fn show_flags(is_enc: bool, is_ack: bool) -> (r: &'static str)
    ensures
        r@ == flags_text(is_enc, is_ack),
{
    match (is_enc, is_ack) {
        (true, true) => "ENC|ACK",
        (true, false) => "ENC",
        (false, true) => "ACK",
        (false, false) => "none",
    }
}

fn show_packet(pkt: &DecodedPacket) -> (r: String)
    ensures
        r@ == packet_line(pkt@),
{
    let mut r = String::new();
    r.append("  cmd=0x");
    push_hex_word(&mut r, pkt.cmd);
    r.append("  flags=[");
    r.append(show_flags(pkt.is_enc, pkt.is_ack));
    r.append("]  pattern=");
    push_hex_byte(&mut r, pkt.pattern[0]);
    push_hex_byte(&mut r, pkt.pattern[1]);
    push_hex_byte(&mut r, pkt.pattern[2]);
    assert(r@ =~= packet_line(pkt@));
    r
}

fn show_fragment(pkt: &DecodedPacket) -> (r: String)
    requires
        pkt@.body.len() > 0,
    ensures
        r@ == fragment_line(pkt@),
{
    let mut r = String::new();
    r.append("  fragment ");
    push_decimal(&mut r, (pkt.body[0] / 16) as u64);
    r.append("/");
    push_decimal(&mut r, (pkt.body[0] % 16) as u64);
    r.append(" (");
    push_decimal(&mut r, (pkt.body.len() - 1) as u64);
    r.append(" B)");
    assert(r@ =~= fragment_line(pkt@));
    r
}

fn push_complete(lines: &mut Vec<String>, pkt: &DecodedPacket, ciphertext_len: usize)
    ensures
        texts_of(final(lines)@) == texts_of(old(lines)@) + complete_lines(pkt@, ciphertext_len),
{
    let ghost before = texts_of(lines@);
    if has_fragment(pkt) {
        push_line(lines, show_fragment(pkt));
        let mut line = String::new();
        line.append("  reassembled — ");
        push_decimal(&mut line, ciphertext_len as u64);
        line.append(" B ciphertext");
        push_line(lines, line);
    }
    assert(texts_of(lines@) =~= before + complete_lines(pkt@, ciphertext_len));
}

fn push_route(lines: &mut Vec<String>, cmd: u16, route: Route)
    ensures
        texts_of(final(lines)@) == texts_of(old(lines)@) + route_lines(cmd, route),
{
    let ghost before = texts_of(lines@);
    match route {
        Route::NewSessionKey => {
            push_line(lines, "  ✓ Session key active".to_string());
        },
        Route::ReusedInitialKey => {
            push_line(lines, "  ✓ Session active (reusing initial key+IV)".to_string());
        },
        Route::Unknown => {
            let mut line = String::new();
            line.append("  [unknown cmd=0x");
            push_hex_word(&mut line, cmd);
            line.append("]");
            push_line(lines, line);
        },
        _ => {},
    }
    assert(texts_of(lines@) =~= before + route_lines(cmd, route));
}

/// The lines of a notification and of what became of it.
pub fn trace_received(raw: &[u8], got: &Received) -> (lines: Vec<String>)
    ensures
        texts_of(lines@) == received_lines(raw@, got.content@, got.event),
{
    let mut lines: Vec<String> = Vec::new();
    push_line(&mut lines, text_with_hex("\n← RECV  raw=", raw));
    let pkt = match decode_packet(raw) {
        None => {
            assert(texts_of(lines@) =~= received_lines(raw@, got.content@, got.event));
            return lines;
        },
        Some(pkt) => pkt,
    };
    push_line(&mut lines, show_packet(&pkt));
    match got.event {
        RecvEvent::NoKey => {
            push_line(&mut lines, "  [DECRYPT_ERROR] No key available".to_string());
        },
        RecvEvent::Buffered => {
            if has_fragment(&pkt) {
                push_line(&mut lines, show_fragment(&pkt));
            }
            push_line(&mut lines, "  buffered — waiting for more".to_string());
        },
        RecvEvent::DecryptError { ciphertext_len } => {
            push_complete(&mut lines, &pkt, ciphertext_len);
            let mut line = String::new();
            line.append("  [DECRYPT_ERROR] ");
            line.append(DecryptError.message());
            push_line(&mut lines, line);
        },
        RecvEvent::Decrypted { ciphertext_len, route } => {
            push_complete(&mut lines, &pkt, ciphertext_len);
            push_line(&mut lines, text_with_hex("  Decrypted: ", got.content.as_slice()));
            push_route(&mut lines, pkt.cmd, route);
        },
        _ => {},
    }
    assert(texts_of(lines@) =~= received_lines(raw@, got.content@, got.event));
    lines
}

// ---------------------------------------------------------------------------
// Handshake
// ---------------------------------------------------------------------------

/// The lines that tell who the device is and what the initial IV is; serial number and firmware
/// version are given as they are to be shown.
pub open spec fn identity_lines(
    serial: Seq<char>,
    firmware: Seq<char>,
    mac: Seq<char>,
    iv: Seq<u8>,
) -> Seq<Seq<char>> {
    seq![
        "\n  ✓ Serial: "@ + serial + "   FW: "@ + firmware + "   MAC: "@ + mac,
        "  Initial IV (S/N padded): "@ + hex_text(iv),
    ]
}

/// The lines that tell who the device is, where serial number and firmware version are given as
/// they are to be shown.
pub fn trace_identity_of(serial: &str, firmware: &str, mac: &str, iv: &[u8; 16]) -> (lines: Vec<
    String,
>)
    ensures
        texts_of(lines@) == identity_lines(serial@, firmware@, mac@, iv@),
{
    let mut lines: Vec<String> = Vec::new();
    let mut first = String::new();
    first.append("\n  ✓ Serial: ");
    first.append(serial);
    first.append("   FW: ");
    first.append(firmware);
    first.append("   MAC: ");
    first.append(mac);
    push_line(&mut lines, first);
    push_line(&mut lines, text_with_hex("  Initial IV (S/N padded): ", iv.as_slice()));
    assert(texts_of(lines@) =~= identity_lines(serial@, firmware@, mac@, iv@));
    lines
}

/// The lines that tell who the device is, with serial number and firmware version in quotes.
pub fn trace_identity(info: &DeviceInfo, iv: &[u8; 16]) -> (lines: Vec<String>)
    ensures
        texts_of(lines@) == identity_lines(
            quoted_text(info@.serial),
            quoted_text(info@.firmware),
            info@.mac,
            iv@,
        ),
{
    let serial = quoted(info.serial.as_str());
    let firmware = quoted(info.firmware.as_str());
    trace_identity_of(serial.as_str(), firmware.as_str(), info.mac.as_str(), iv)
}

// ---------------------------------------------------------------------------
// Commands and scans
// ---------------------------------------------------------------------------

/// The line before a command.
pub open spec fn command_line(index: nat, total: nat, cmd: u16, group: u8) -> Seq<char> {
    "\n─── Command "@ + decimal_text(index + 1) + "/"@ + decimal_text(total) + " 0x"@ + hex_word(
        cmd,
    ) + " (group 0x"@ + hex_byte(group) + ") ──────────────"@
}

/// The line before the command with the given index.
pub fn trace_command(index: usize, total: usize, cmd: u16, group: u8) -> (line: String)
    requires
        index < total,
    ensures
        line@ == command_line(index as nat, total as nat, cmd, group),
{
    let mut line = String::new();
    line.append("\n─── Command ");
    push_decimal(&mut line, index as u64 + 1);
    line.append("/");
    push_decimal(&mut line, total as u64);
    line.append(" 0x");
    push_hex_word(&mut line, cmd);
    line.append(" (group 0x");
    push_hex_byte(&mut line, group);
    line.append(") ──────────────");
    assert(line@ =~= command_line(index as nat, total as nat, cmd, group));
    line
}

/// The lines of a response to a scan.
pub open spec fn hit_lines(hit: HitView) -> Seq<Seq<char>> {
    let first = seq!["  ★ resp cmd=0x"@ + hex_word(hit.cmd) + " ← "@ + hex_text(hit.raw)];
    if hit.plain.len() == 0 {
        first
    } else {
        first + seq!["      plain: "@ + hex_text(hit.plain)]
    }
}

/// The lines that close a scan with `hits` responses.
pub open spec fn scan_end_lines(hits: nat, info: InfoView) -> Seq<Seq<char>> {
    seq![
        "\n✓ Probe complete — "@ + decimal_text(hits) + " responses captured"@,
        "\n  Serial : "@ + info.serial + "\n  FW     : "@ + info.firmware + "\n  MAC    : "@
            + info.mac,
    ]
}

/// The lines that close a scan with `hits` responses.
pub fn trace_scan_end(hits: usize, info: &DeviceInfo) -> (lines: Vec<String>)
    ensures
        texts_of(lines@) == scan_end_lines(hits as nat, info@),
{
    let mut lines: Vec<String> = Vec::new();
    let mut first = String::new();
    first.append("\n✓ Probe complete — ");
    push_decimal(&mut first, hits as u64);
    first.append(" responses captured");
    push_line(&mut lines, first);
    let mut second = String::new();
    second.append("\n  Serial : ");
    second.append(info.serial.as_str());
    second.append("\n  FW     : ");
    second.append(info.firmware.as_str());
    second.append("\n  MAC    : ");
    second.append(info.mac.as_str());
    push_line(&mut lines, second);
    assert(texts_of(lines@) =~= scan_end_lines(hits as nat, info@));
    lines
}

/// The lines of a response to a scan.
pub fn trace_hit(hit: &ScanHit) -> (lines: Vec<String>)
    ensures
        texts_of(lines@) == hit_lines(hit@),
{
    let mut lines: Vec<String> = Vec::new();
    let mut first = String::new();
    first.append("  ★ resp cmd=0x");
    push_hex_word(&mut first, hit.cmd);
    first.append(" ← ");
    first.append(hex_str(hit.raw.as_slice()).as_str());
    push_line(&mut lines, first);
    if hit.plain.len() > 0 {
        push_line(&mut lines, text_with_hex("      plain: ", hit.plain.as_slice()));
    }
    assert(texts_of(lines@) =~= hit_lines(hit@));
    lines
}

// ---------------------------------------------------------------------------
// Laws
// ---------------------------------------------------------------------------

/// What is printed of a packet that is sent: its command, without the encryption flag in the plain
/// case, and then all its bytes.
pub proof fn law_sent_lines(cmd: u16, packet: Seq<u8>)
    ensures
        plain_sent_lines(cmd, packet) == seq![
            "\n→ SEND cmd=0x"@ + hex_word((cmd - 0x4000 * (cmd as int / 0x4000 % 2)) as u16),
            "  Packet: "@ + hex_text(packet),
        ],
        encrypted_sent_lines(cmd, packet) == seq![
            "\n→ SEND cmd=0x"@ + hex_word(cmd) + " (encrypted)"@,
            "  Packet: "@ + hex_text(packet),
        ],
{
    assert((cmd & 0xBFFF) + 0x4000 * (cmd / 0x4000 % 2) == cmd) by (bit_vector);
}

/// The first lines that are printed of a notification, from its bytes: all of them, and from ten
/// bytes on the command without its flags, the flags, and the three bytes before the command.
pub proof fn law_received_head(raw: Seq<u8>, content: Seq<u8>, event: RecvEvent)
    ensures
        ({
            let lines = received_lines(raw, content, event);
            let enc = raw[7] as int / 64 % 2;
            let ack = raw[7] as int / 8 % 2;
            let flags = if enc == 1 && ack == 1 {
                "ENC|ACK"@
            } else if enc == 1 {
                "ENC"@
            } else if ack == 1 {
                "ACK"@
            } else {
                "none"@
            };
            let cmd = (256 * (raw[7] - 64 * enc - 8 * ack) + raw[8]) as u16;
            &&& lines.len() >= 1
            &&& lines[0] == "\n← RECV  raw="@ + hex_text(raw)
            &&& raw.len() < 10 ==> lines.len() == 1
            &&& raw.len() >= 10 ==> lines.len() >= 2
            &&& raw.len() >= 10 ==> lines[1] == "  cmd=0x"@ + hex_word(cmd) + "  flags=["@ + flags
                + "]  pattern="@ + hex_byte(raw[4]) + hex_byte(raw[5]) + hex_byte(raw[6])
        }),
{
    law_decoded_bytes(raw);
}

/// What is printed of what became of a notification. A fragment is shown by the number and the
/// total in its header and by how many bytes it brings; once its response is complete, the length
/// of the ciphertext follows. A decrypted message is shown as it is, with what the key exchange led
/// to, and with the command if nothing is known of it.
pub proof fn law_received_rest(raw: Seq<u8>, content: Seq<u8>, event: RecvEvent)
    requires
        raw.len() >= 10,
    ensures
        ({
            let rest = received_lines(raw, content, event).skip(2);
            let enc = raw[7] as int / 64 % 2;
            let ack = raw[7] as int / 8 % 2;
            let cmd = (256 * (raw[7] - 64 * enc - 8 * ack) + raw[8]) as u16;
            let fragment = raw[4] == 0x03 && raw[5] == 0x01 && raw[6] == 0x0F && raw.len() > 10;
            let part = if fragment {
                seq![
                    "  fragment "@ + decimal_text((raw[9] as int / 16) as nat) + "/"@
                        + decimal_text((raw[9] as int % 16) as nat) + " ("@ + decimal_text(
                        (raw.len() - 11) as nat,
                    ) + " B)"@,
                ]
            } else {
                Seq::empty()
            };
            let whole = |n: usize|
                if fragment {
                    part + seq!["  reassembled — "@ + decimal_text(n as nat) + " B ciphertext"@]
                } else {
                    Seq::empty()
                };
            &&& event is NoKey ==> rest == seq!["  [DECRYPT_ERROR] No key available"@]
            &&& event is Plain || event is NotAPacket ==> rest.len() == 0
            &&& event is Buffered ==> rest == part + seq!["  buffered — waiting for more"@]
            &&& event matches RecvEvent::DecryptError { ciphertext_len } ==> rest == whole(
                ciphertext_len,
            ) + seq!["  [DECRYPT_ERROR] "@ + "AES-CBC decrypt error: Error"@]
            &&& event matches RecvEvent::Decrypted { ciphertext_len, route } ==> {
                let shown = whole(ciphertext_len) + seq!["  Decrypted: "@ + hex_text(content)];
                &&& route is Status || route is LivePower ==> rest == shown
                &&& route is NewSessionKey ==> rest == shown + seq!["  ✓ Session key active"@]
                &&& route is ReusedInitialKey ==> rest == shown + seq![
                    "  ✓ Session active (reusing initial key+IV)"@,
                ]
                &&& route is Unknown ==> rest == shown + seq![
                    "  [unknown cmd=0x"@ + hex_word(cmd) + "]"@,
                ]
            }
        }),
{
    law_decoded_bytes(raw);
    let pkt = decoded(raw).unwrap();
    let f = seq![0x03u8, 0x01u8, 0x0Fu8];
    let fragment = raw[4] == 0x03 && raw[5] == 0x01 && raw[6] == 0x0F && raw.len() > 10;
    assert(fragment <==> is_fragment(pkt)) by {
        if pkt.pattern == f {
            assert(pkt.pattern[0] == f[0] && pkt.pattern[1] == f[1] && pkt.pattern[2] == f[2]);
        } else if fragment {
            assert(pkt.pattern =~= f);
        }
    }
    if fragment {
        assert(pkt.body[0] == raw[9]);
    }
    assert(received_lines(raw, content, event).skip(2) =~= event_lines(pkt, content, event));
    assert(event_lines(pkt, content, event) + Seq::empty() =~= event_lines(pkt, content, event));
    match event {
        RecvEvent::Decrypted { ciphertext_len, route } => {
            let shown = complete_lines(pkt, ciphertext_len) + seq![
                "  Decrypted: "@ + hex_text(content),
            ];
            assert(shown + Seq::empty() =~= shown);
            if fragment {
                assert(complete_lines(pkt, ciphertext_len) =~= seq![fragment_line(pkt)] + seq![
                    "  reassembled — "@ + decimal_text(ciphertext_len as nat) + " B ciphertext"@,
                ]);
            }
        },
        RecvEvent::DecryptError { ciphertext_len } => {
            if fragment {
                assert(complete_lines(pkt, ciphertext_len) =~= seq![fragment_line(pkt)] + seq![
                    "  reassembled — "@ + decimal_text(ciphertext_len as nat) + " B ciphertext"@,
                ]);
            }
        },
        _ => {},
    }
}

/// What is printed of a response to a scan: its command, all its bytes, and its message, if there
/// is one.
pub proof fn law_hit_lines(hit: HitView)
    ensures
        hit_lines(hit).len() == if hit.plain.len() == 0 {
            1
        } else {
            2int
        },
        hit_lines(hit)[0] == "  ★ resp cmd=0x"@ + hex_word(hit.cmd) + " ← "@ + hex_text(hit.raw),
        hit.plain.len() > 0 ==> hit_lines(hit)[1] == "      plain: "@ + hex_text(hit.plain),
{
}

/// What is printed before a command counts from one up to the number of commands, and names the
/// command and the group.
pub proof fn law_command_line(index: nat, total: nat, cmd: u16, group: u8)
    ensures
        command_line(index, total, cmd, group) == "\n─── Command "@ + decimal_text(index + 1)
            + "/"@ + decimal_text(total) + " 0x"@ + hex_word(cmd) + " (group 0x"@ + hex_byte(group)
            + ") ──────────────"@,
{
}

/// What closes a scan tells how many responses there were and who the device is.
pub proof fn law_scan_end_lines(hits: nat, info: InfoView)
    ensures
        scan_end_lines(hits, info) == seq![
            "\n✓ Probe complete — "@ + decimal_text(hits) + " responses captured"@,
            "\n  Serial : "@ + info.serial + "\n  FW     : "@ + info.firmware
                + "\n  MAC    : "@ + info.mac,
        ],
{
}

/// What is printed of the handshake tells who the device is and what the initial IV is.
pub proof fn law_identity_lines(
    serial: Seq<char>,
    firmware: Seq<char>,
    mac: Seq<char>,
    iv: Seq<u8>,
)
    ensures
        identity_lines(serial, firmware, mac, iv) == seq![
            "\n  ✓ Serial: "@ + serial + "   FW: "@ + firmware + "   MAC: "@ + mac,
            "  Initial IV (S/N padded): "@ + hex_text(iv),
        ],
{
}

} // verus!
