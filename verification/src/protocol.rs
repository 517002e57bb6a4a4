//! The wire format: TLV fields, inner payloads and outer frames.
use vstd::prelude::*;
use vstd::slice::slice_subrange;

verus! {

/// Service that a power station advertises.
pub const ADVERTISED_SERVICE_UUID: &'static str = "0000ff09-0000-1000-8000-00805f9b34fb";

/// Characteristic that commands are written to.
pub const WRITE_CHAR_UUID: &'static str = "8c850002-0302-41c5-b46e-cf057c562025";

/// Characteristic that notifications arrive on.
pub const NOTIFY_CHAR_UUID: &'static str = "8c850003-0302-41c5-b46e-cf057c562025";

/// Static value that every handshake message carries in its A2 field.
pub const A2_STATIC: [u8; 40] = [
    0x32, 0x63, 0x33, 0x37, 0x37, 0x64, 0x66, 0x61, 0x30, 0x39, 0x63, 0x64, 0x62, 0x37, 0x39, 0x32,
    0x34, 0x38, 0x38, 0x39, 0x65, 0x34, 0x32, 0x39, 0x32, 0x61, 0x33, 0x37, 0x66, 0x36, 0x31, 0x63,
    0x38, 0x63, 0x35, 0x65, 0x64, 0x35, 0x32, 0x64,
];

/// First sixteen bytes of `A2_STATIC`, the initial AES key.
pub const INITIAL_KEY: [u8; 16] = [
    0x32, 0x63, 0x33, 0x37, 0x37, 0x64, 0x66, 0x61, 0x30, 0x39, 0x63, 0x64, 0x62, 0x37, 0x39, 0x32,
];

/// The initial key is the first sixteen bytes of the static handshake value.
pub proof fn law_initial_key_is_static_prefix()
    ensures
        INITIAL_KEY@ == A2_STATIC@.take(16),
{
    assert(INITIAL_KEY@ =~= A2_STATIC@.take(16));
}

// ---------------------------------------------------------------------------
// TLV fields
// ---------------------------------------------------------------------------

/// One field: its tag and its value.
pub type Field = (u8, Seq<u8>);

/// The fields that a slice of tag and value pairs stands for.
pub open spec fn fields_of(items: Seq<(u8, &[u8])>) -> Seq<Field> {
    Seq::new(items.len(), |i: int| (items[i].0, items[i].1@))
}

/// Tag, length byte (modulo 256) and value.
pub open spec fn tlv_item(field: Field) -> Seq<u8> {
    seq![field.0, (field.1.len() % 256) as u8] + field.1
}

/// The fields one after the other.
pub open spec fn tlv_bytes(fields: Seq<Field>) -> Seq<u8>
    decreases fields.len(),
{
    if fields.len() == 0 {
        Seq::empty()
    } else {
        tlv_bytes(fields.drop_last()) + tlv_item(fields.last())
    }
}

/// The field that starts at `pos`, if it lies within `buf` in full.
pub open spec fn tlv_at(buf: Seq<u8>, pos: int) -> Option<Field> {
    if 0 <= pos && pos + 2 <= buf.len() && pos + 2 + buf[pos + 1] <= buf.len() {
        Some((buf[pos], buf.subrange(pos + 2, pos + 2 + buf[pos + 1])))
    } else {
        None
    }
}

/// The fields from `pos` on, up to the first one that does not lie within `buf` in full.
pub open spec fn tlv_fields(buf: Seq<u8>, pos: int) -> Seq<Field>
    decreases buf.len() - pos,
{
    match tlv_at(buf, pos) {
        Some(field) => seq![field] + tlv_fields(buf, pos + 2 + field.1.len()),
        None => Seq::empty(),
    }
}

/// The value of the last field that satisfies `wanted`.
pub open spec fn last_where(fields: Seq<Field>, wanted: spec_fn(Field) -> bool) -> Option<Seq<u8>>
    decreases fields.len(),
{
    if fields.len() == 0 {
        None
    } else if wanted(fields.last()) {
        Some(fields.last().1)
    } else {
        last_where(fields.drop_last(), wanted)
    }
}

/// Walks over the TLV fields of a slice without copying them.
pub struct TlvIter<'a> {
    buf: &'a [u8],
    pos: usize,
}

/// One field, its value borrowed from the slice.
pub struct TlvEntry<'a> {
    pub tag: u8,
    pub val: &'a [u8],
}

impl<'a> TlvEntry<'a> {
    /// The field that the entry stands for.
    pub open spec fn field(self) -> Field {
        (self.tag, self.val@)
    }
}

impl<'a> TlvIter<'a> {
    /// The slice that is walked.
    pub closed spec fn bytes(self) -> Seq<u8> {
        self.buf@
    }

    /// Where the next field starts.
    pub closed spec fn position(self) -> int {
        self.pos as int
    }

    /// The fields that are still to come.
    pub open spec fn rest(self) -> Seq<Field> {
        tlv_fields(self.bytes(), self.position())
    }

    /// The next field; `None` once what is left holds no complete field.
    pub fn next(&mut self) -> (entry: Option<TlvEntry<'a>>)
        ensures
            final(self).bytes() == old(self).bytes(),
            entry is Some <==> tlv_at(old(self).bytes(), old(self).position()) is Some,
            entry is None ==> final(self).position() == old(self).position(),
            entry matches Some(e) ==> {
                &&& tlv_at(old(self).bytes(), old(self).position()) == Some(e.field())
                &&& final(self).position() == old(self).position() + 2 + e.val@.len()
                &&& final(self).position() <= final(self).bytes().len()
                &&& old(self).rest() == seq![e.field()] + final(self).rest()
            },
            entry is None ==> old(self).rest() == Seq::<Field>::empty(),
    {
        let size: usize = self.buf.len();
        if size < 2 || self.pos > size - 2 {
            return None;
        }
        let tag: u8 = self.buf[self.pos];
        let len: usize = self.buf[self.pos + 1] as usize;
        let start: usize = self.pos + 2;
        if len > size - start {
            return None;
        }
        let end: usize = start + len;
        let val = slice_subrange(self.buf, start, end);
        self.pos = end;
        Some(TlvEntry { tag, val })
    }

    /// All fields that are still to come.
    pub fn entries(self) -> (r: Vec<TlvEntry<'a>>)
        ensures
            r@.map_values(|e: TlvEntry<'a>| e.field()) == self.rest(),
    {
        let mut iter = self;
        let mut r: Vec<TlvEntry<'a>> = Vec::new();
        let ghost all = self.rest();
        assert(r@.map_values(|e: TlvEntry<'a>| e.field()) + iter.rest() =~= all);
        loop
            invariant
                r@.map_values(|e: TlvEntry<'a>| e.field()) + iter.rest() == all,
            ensures
                r@.map_values(|e: TlvEntry<'a>| e.field()) == all,
            decreases iter.bytes().len() - iter.position(),
        {
            let ghost before = r@.map_values(|e: TlvEntry<'a>| e.field());
            let ghost left = iter.rest();
            match iter.next() {
                Some(e) => {
                    r.push(e);
                    assert(r@.map_values(|e: TlvEntry<'a>| e.field()) =~= before.push(e.field()));
                    assert(before.push(e.field()) + iter.rest() =~= before + left);
                },
                None => {
                    assert(before + left =~= before);
                    break;
                },
            }
        }
        r
    }
}

/// Walk over the TLV fields of `buf` from `offset` on.
pub fn tlv_iter(buf: &[u8], offset: usize) -> (iter: TlvIter<'_>)
    requires
        offset < usize::MAX,
    ensures
        iter.bytes() == buf@,
        iter.position() == offset,
        iter.rest() == tlv_fields(buf@, offset as int),
{
    TlvIter { buf, pos: offset }
}

/// Build TLV bytes from `(tag, value)` pairs.
pub fn build_tlv(items: &[(u8, &[u8])]) -> (out: Vec<u8>)
    ensures
        out@ == tlv_bytes(fields_of(items@)),
{
    let mut out: Vec<u8> = Vec::new();
    let count: usize = items.len();
    let mut i: usize = 0;
    while i < count
        invariant
            i <= count,
            count == items@.len(),
            out@ == tlv_bytes(fields_of(items@).take(i as int)),
        decreases count - i,
    {
        let tag: u8 = items[i].0;
        let val: &[u8] = items[i].1;
        out.push(tag);
        out.push((val.len() % 256) as u8);
        out.extend_from_slice(val);
        proof {
            let shorter = fields_of(items@).take(i as int);
            let longer = fields_of(items@).take(i + 1);
            assert(longer.drop_last() =~= shorter);
            assert(longer.last() == (tag, val@));
            assert(out@ =~= tlv_bytes(shorter) + tlv_item((tag, val@)));
        }
        i += 1;
    }
    proof {
        assert(fields_of(items@).take(count as int) =~= fields_of(items@));
    }
    out
}

/// The bytes of two runs of fields are the bytes of the runs, one after the other.
pub proof fn law_tlv_concat(a: Seq<Field>, b: Seq<Field>)
    ensures
        tlv_bytes(a + b) == tlv_bytes(a) + tlv_bytes(b),
    decreases b.len(),
{
    if b.len() == 0 {
        assert(a + b =~= a);
        assert(tlv_bytes(a) + tlv_bytes(b) =~= tlv_bytes(a));
    } else {
        assert((a + b).drop_last() =~= a + b.drop_last());
        law_tlv_concat(a, b.drop_last());
        assert(tlv_bytes(a) + tlv_bytes(b) =~= tlv_bytes(a) + tlv_bytes(b.drop_last()) + tlv_item(
            b.last(),
        ));
    }
}

/// How long a run of fields with short values can be at most.
pub proof fn law_tlv_size(fields: Seq<Field>)
    requires
        forall|i: int| 0 <= i < fields.len() ==> (#[trigger] fields[i]).1.len() <= 255,
    ensures
        tlv_bytes(fields).len() <= 257 * fields.len(),
    decreases fields.len(),
{
    if fields.len() > 0 {
        let shorter = fields.drop_last();
        assert forall|i: int| 0 <= i < shorter.len() implies (#[trigger] shorter[i]).1.len()
            <= 255 by {
            assert(shorter[i] == fields[i]);
        }
        law_tlv_size(shorter);
        assert(fields[fields.len() - 1].1.len() <= 255);
    }
}

/// Reading back what was built gives the fields, whatever stands in front of them, provided
/// that each value's length fits its length byte.
pub proof fn law_tlv_roundtrip(head: Seq<u8>, fields: Seq<Field>)
    requires
        forall|i: int| 0 <= i < fields.len() ==> (#[trigger] fields[i]).1.len() <= 255,
    ensures
        tlv_fields(head + tlv_bytes(fields), head.len() as int) == fields,
    decreases fields.len(),
{
    let buf = head + tlv_bytes(fields);
    if fields.len() == 0 {
        assert(tlv_fields(buf, head.len() as int) =~= fields);
    } else {
        let at = head.len() as int;
        let size = fields[0].1.len() as int;
        let first = fields[0];
        let rest = fields.drop_first();
        assert(seq![first] + rest =~= fields);
        law_tlv_concat(seq![first], rest);
        assert(seq![first].drop_last() =~= Seq::<Field>::empty());
        assert(tlv_bytes(seq![first]) =~= tlv_item(first)) by {
            reveal_with_fuel(tlv_bytes, 2);
        }
        let longer = head + tlv_item(first);
        assert(buf =~= longer + tlv_bytes(rest));
        assert(buf[at] == first.0);
        assert(buf[at + 1] == size);
        assert(buf.subrange(at + 2, at + 2 + size) =~= first.1);
        assert(tlv_at(buf, at) == Some(first));
        assert forall|i: int| 0 <= i < rest.len() implies (#[trigger] rest[i]).1.len() <= 255 by {
            assert(rest[i] == fields[i + 1]);
        }
        law_tlv_roundtrip(longer, rest);
        assert(tlv_fields(buf, head.len() as int) =~= fields);
    }
}

// ---------------------------------------------------------------------------
// Inner payloads
// ---------------------------------------------------------------------------

/// `03 00 group high low`.
pub open spec fn payload_head(group: u8, high: u8, low: u8) -> Seq<u8> {
    seq![0x03u8, 0x00u8, group, high, low]
}

/// Plain inner payload.
pub open spec fn plain_payload(group: u8, cmd: u16, fields: Seq<Field>) -> Seq<u8> {
    payload_head(group, (cmd / 256) as u8, (cmd % 256) as u8) + tlv_bytes(fields)
}

/// Encrypted inner payload: the flag 0x40 is set in the high command byte.
pub open spec fn sealed_payload(group: u8, cmd: u16, ciphertext: Seq<u8>) -> Seq<u8> {
    payload_head(group, ((cmd / 256) as u8) | 0x40, (cmd % 256) as u8) + ciphertext
}

/// Build plain inner payload: `03 00 group cmd_high cmd_low TLV...`
pub fn build_payload(group: u8, cmd: u16, tlv: &[(u8, &[u8])]) -> (out: Vec<u8>)
    ensures
        out@ == plain_payload(group, cmd, fields_of(tlv@)),
{
    let cmd_high: u8 = (cmd / 256) as u8;
    let cmd_low: u8 = (cmd % 256) as u8;
    let mut out: Vec<u8> = vec![0x03, 0x00, group, cmd_high, cmd_low];
    assert(out@ =~= payload_head(group, cmd_high, cmd_low));
    let body: Vec<u8> = build_tlv(tlv);
    out.extend_from_slice(body.as_slice());
    out
}

/// Build encrypted inner payload: `03 00 group (cmd_high | 0x40) cmd_low ciphertext...`
pub fn build_encrypted_payload(group: u8, cmd: u16, ciphertext: &[u8]) -> (out: Vec<u8>)
    ensures
        out@ == sealed_payload(group, cmd, ciphertext@),
{
    let cmd_high: u8 = ((cmd / 256) as u8) | 0x40;
    let cmd_low: u8 = (cmd % 256) as u8;
    let mut out: Vec<u8> = vec![0x03, 0x00, group, cmd_high, cmd_low];
    assert(out@ =~= payload_head(group, cmd_high, cmd_low));
    out.extend_from_slice(ciphertext);
    out
}

// ---------------------------------------------------------------------------
// Frames
// ---------------------------------------------------------------------------

/// The exclusive or of all bytes.
pub open spec fn xor_of(s: Seq<u8>) -> u8
    decreases s.len(),
{
    if s.len() == 0 {
        0
    } else {
        xor_of(s.drop_last()) ^ s.last()
    }
}

/// `FF 09`, the frame's length (modulo 65536, low byte first) and the payload.
pub open spec fn frame_body(payload: Seq<u8>) -> Seq<u8> {
    let total = (payload.len() + 5) % 65536;
    seq![0xFFu8, 0x09u8, (total % 256) as u8, (total / 256) as u8] + payload
}

/// The body and its checksum.
pub open spec fn framed(payload: Seq<u8>) -> Seq<u8> {
    frame_body(payload).push(xor_of(frame_body(payload)))
}

/// The exclusive or of all bytes of `s`.
fn xor_checksum(s: &[u8]) -> (x: u8)
    ensures
        x == xor_of(s@),
{
    let size: usize = s.len();
    let mut x: u8 = 0;
    let mut i: usize = 0;
    while i < size
        invariant
            i <= size,
            size == s@.len(),
            x == xor_of(s@.take(i as int)),
        decreases size - i,
    {
        assert(s@.take(i + 1).drop_last() =~= s@.take(i as int));
        x = x ^ s[i];
        i += 1;
    }
    assert(s@.take(size as int) =~= s@);
    x
}

/// Wrap payload in `FF 09 [len_le16] [payload] [xor_checksum]`.
pub fn frame_packet(payload: &[u8]) -> (out: Vec<u8>)
    requires
        payload@.len() + 5 <= usize::MAX,
    ensures
        out@ == framed(payload@),
{
    let total: usize = (payload.len() + 5) % 65536;
    let mut out: Vec<u8> = vec![0xFF, 0x09, (total % 256) as u8, (total / 256) as u8];
    out.extend_from_slice(payload);
    assert(out@ =~= frame_body(payload@));
    let xor: u8 = xor_checksum(out.as_slice());
    out.push(xor);
    out
}

/// The last byte of a frame is the exclusive or of all bytes before it, so that the
/// exclusive or of the whole frame is zero.
pub proof fn law_frame_checksum(payload: Seq<u8>)
    ensures
        framed(payload).last() == xor_of(framed(payload).drop_last()),
        xor_of(framed(payload)) == 0,
{
    let body = frame_body(payload);
    assert(framed(payload).drop_last() =~= body);
    let x = xor_of(body);
    assert(x ^ x == 0) by (bit_vector);
}

/// A frame is five bytes longer than its payload, and its length field, as long as it does
/// not wrap, says how long the frame is.
pub proof fn law_frame_length(payload: Seq<u8>)
    requires
        payload.len() + 5 < 65536,
    ensures
        framed(payload).len() == payload.len() + 5,
        framed(payload)[2] + 256 * framed(payload)[3] == framed(payload).len(),
{
}

// ---------------------------------------------------------------------------
// Bytes on the wire
// ---------------------------------------------------------------------------

/// A field is its tag, the length of its value, modulo 256, and its value.
pub proof fn law_tlv_bytes_of_one_field(tag: u8, value: Seq<u8>)
    ensures
        tlv_bytes(seq![(tag, value)]) == seq![tag, (value.len() as int % 256) as u8] + value,
        value.len() <= 255 ==> tlv_bytes(seq![(tag, value)]) == seq![tag, value.len() as u8]
            + value,
        tlv_bytes(Seq::<Field>::empty()) == Seq::<u8>::empty(),
{
    let one = seq![(tag, value)];
    assert(one.drop_last() =~= Seq::<Field>::empty());
    reveal_with_fuel(tlv_bytes, 2);
    assert(tlv_bytes(one) =~= seq![tag, (value.len() as int % 256) as u8] + value);
}

/// What follows complete fields and is too short for the field that it begins is not read; so
/// the fields of any bytes are the complete ones in front of such a rest.
pub proof fn law_cut_off_field_is_not_read(head: Seq<u8>, fields: Seq<Field>, rest: Seq<u8>)
    requires
        forall|i: int| 0 <= i < fields.len() ==> (#[trigger] fields[i]).1.len() <= 255,
        rest.len() < 2 || rest.len() < 2 + rest[1],
    ensures
        tlv_fields(head + tlv_bytes(fields) + rest, head.len() as int) == fields,
    decreases fields.len(),
{
    let buf = head + tlv_bytes(fields) + rest;
    let at = head.len() as int;
    if fields.len() == 0 {
        if rest.len() >= 2 {
            assert(buf[at + 1] == rest[1]);
        }
        assert(tlv_fields(buf, at) =~= fields);
    } else {
        let first = fields[0];
        let others = fields.drop_first();
        let size = first.1.len() as int;
        assert(seq![first] + others =~= fields);
        law_tlv_concat(seq![first], others);
        law_tlv_bytes_of_one_field(first.0, first.1);
        assert(seq![(first.0, first.1)] =~= seq![first]);
        let longer = head + tlv_bytes(seq![first]);
        assert(buf =~= longer + tlv_bytes(others) + rest);
        assert(buf[at] == first.0);
        assert(buf[at + 1] == size);
        assert(buf.subrange(at + 2, at + 2 + size) =~= first.1);
        assert forall|i: int| 0 <= i < others.len() implies (#[trigger] others[i]).1.len()
            <= 255 by {
            assert(others[i] == fields[i + 1]);
        }
        law_cut_off_field_is_not_read(longer, others, rest);
        assert(tlv_fields(buf, at) =~= fields);
    }
}

/// The exclusive or of bytes: nothing gives zero, one byte gives itself, and the parts of a run
/// give the exclusive or of what each part gives.
pub proof fn law_xor(b: u8, s: Seq<u8>, t: Seq<u8>)
    ensures
        xor_of(Seq::<u8>::empty()) == 0,
        xor_of(seq![b]) == b,
        xor_of(s + t) == xor_of(s) ^ xor_of(t),
    decreases t.len(),
{
    assert(seq![b].drop_last() =~= Seq::<u8>::empty());
    reveal_with_fuel(xor_of, 2);
    assert(0u8 ^ b == b) by (bit_vector);
    if t.len() == 0 {
        assert(s + t =~= s);
        let x = xor_of(s);
        assert(x ^ 0u8 == x) by (bit_vector);
    } else {
        assert((s + t).drop_last() =~= s + t.drop_last());
        law_xor(b, s, t.drop_last());
        let x = xor_of(s);
        let y = xor_of(t.drop_last());
        let z = t.last();
        assert((x ^ y) ^ z == x ^ (y ^ z)) by (bit_vector);
    }
}

/// The bytes of a frame: `FF 09`, its length with the low byte first, modulo 65536, the payload
/// and the exclusive or of all of that.
pub proof fn law_frame_bytes(payload: Seq<u8>)
    ensures
        ({
            let raw = framed(payload);
            let size = raw.len() as int;
            &&& size == payload.len() + 5
            &&& raw[0] == 0xFF
            &&& raw[1] == 0x09
            &&& raw[2] == size % 256
            &&& raw[3] == size / 256 % 256
            &&& raw.subrange(4, size - 1) == payload
            &&& raw[size - 1] == xor_of(raw.take(size - 1))
        }),
{
    let raw = framed(payload);
    let size = raw.len() as int;
    assert(raw.subrange(4, size - 1) =~= payload);
    assert(raw.take(size - 1) =~= frame_body(payload));
    assert(size % 65536 % 256 == size % 256);
    assert(size % 65536 / 256 == size / 256 % 256);
}

/// The bytes of a plain payload: `03 00`, the group, the command with the high byte first, and
/// the fields.
pub proof fn law_plain_payload_bytes(group: u8, cmd: u16, fields: Seq<Field>)
    ensures
        plain_payload(group, cmd, fields) == seq![
            0x03u8,
            0x00u8,
            group,
            (cmd / 256) as u8,
            (cmd % 256) as u8,
        ] + tlv_bytes(fields),
{
}

/// The bytes of an encrypted payload: `03 00`, the group, the command with the high byte first
/// and the flag for encryption set in it, and the ciphertext.
pub proof fn law_sealed_payload_bytes(group: u8, cmd: u16, ciphertext: Seq<u8>)
    ensures
        sealed_payload(group, cmd, ciphertext) == seq![
            0x03u8,
            0x00u8,
            group,
            (cmd / 256) as u8 | 0x40,
            (cmd % 256) as u8,
        ] + ciphertext,
{
}

/// One field more adds its tag, the length of its value, modulo 256, and its value at the end.
pub proof fn law_tlv_bytes_of_one_more(fields: Seq<Field>, tag: u8, value: Seq<u8>)
    ensures
        tlv_bytes(fields.push((tag, value))) == tlv_bytes(fields) + seq![
            tag,
            (value.len() as int % 256) as u8,
        ] + value,
{
    assert(fields.push((tag, value)).drop_last() =~= fields);
    assert(tlv_bytes(fields.push((tag, value))) =~= tlv_bytes(fields) + seq![
        tag,
        (value.len() as int % 256) as u8,
    ] + value);
}

} // verus!
